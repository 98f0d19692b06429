//! The tool's configuration.

use vstd::prelude::*;

verus! {

/// Where the templates are stored.
pub struct Config {
    /// The storage root: one directory per template.
    pub template_dir: String,
}

} // verus!

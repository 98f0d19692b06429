//! The yes/no questions asked before replacing a template or filling a
//! directory that is not empty.

use vstd::prelude::*;

verus! {

/// The question asked before a template is replaced; `None` where the answer
/// is yes without asking.
pub fn replace_prompt(template: &str, auto_yes: bool) -> (r: Option<String>)
    ensures
        auto_yes ==> r is None,
        !auto_yes ==> r is Some && r->Some_0@ == "Template '"@ + template@
            + "' already exists.\nDo you want to replace it?"@,
{
    if auto_yes {
        return None;
    }
    Some(
        String::from_str("Template '").concat(template).concat(
            "' already exists.\nDo you want to replace it?",
        ),
    )
}

/// The question asked before a template is applied to a directory that is
/// not empty; `None` where the answer is yes without asking.
pub fn not_empty_prompt(auto_yes: bool) -> (r: Option<String>)
    ensures
        auto_yes ==> r is None,
        !auto_yes ==> r is Some && r->Some_0@ == "Directory is not empty.\nDo you want to continue anyway?"@,
{
    if auto_yes {
        return None;
    }
    Some(String::from_str("Directory is not empty.\nDo you want to continue anyway?"))
}

/// An answer, ignoring case, of `n` or `no`.
pub open spec fn is_no(a: Seq<char>) -> bool {
    let n = |c: char| c == 'n' || c == 'N';
    let o = |c: char| c == 'o' || c == 'O';
    (a.len() == 1 && n(a[0])) || (a.len() == 2 && n(a[0]) && o(a[1]))
}

/// Whether an answer to a question means yes: anything but `n` or `no`, in
/// any case, does.
pub fn answer_is_yes(answer: &str) -> (r: bool)
    ensures
        r == !is_no(answer@),
{
    let a = crate::text::chars_of(answer);
    let n0 = a.len() >= 1 && (a[0] == 'n' || a[0] == 'N');
    if a.len() == 1 {
        !n0
    } else if a.len() == 2 {
        !(n0 && (a[1] == 'o' || a[1] == 'O'))
    } else {
        true
    }
}

} // verus!

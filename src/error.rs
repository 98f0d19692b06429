//! The errors of the library.

use vstd::prelude::*;

verus! {

/// A failure to read an expression block.
#[derive(Debug, Clone, Copy, PartialEq, Eq, Structural)]
pub enum LexerErr {
    InvalidToken,
    UnclosedLit,
    UnclosedBlock,
    UnexpectedToken,
}

/// The message that describes a lexical error.
pub open spec fn lexer_message(e: LexerErr) -> Seq<char> {
    match e {
        LexerErr::InvalidToken => "invalid token found"@,
        LexerErr::UnclosedLit => "unclosed literal"@,
        LexerErr::UnclosedBlock => "code block not closed"@,
        LexerErr::UnexpectedToken => "unexpected token"@,
    }
}

impl LexerErr {
    /// The message that describes the error.
    pub fn message(&self) -> (r: String)
        ensures
            r@ == lexer_message(*self),
    {
        match self {
            LexerErr::InvalidToken => String::from_str("invalid token found"),
            LexerErr::UnclosedLit => String::from_str("unclosed literal"),
            LexerErr::UnclosedBlock => String::from_str("code block not closed"),
            LexerErr::UnexpectedToken => String::from_str("unexpected token"),
        }
    }
}

/// A failure of an operation on a template.
#[derive(Debug, Clone)]
pub enum TemplateErr {
    /// No template has the name.
    NotFound(String),
    /// The pre hook failed; the text says why.
    PreExec(String),
    /// The post hook failed; the text says why.
    PostExec(String),
}

impl TemplateErr {
    /// The message that describes the error.
    pub fn message(&self) -> (r: String)
        ensures
            r@ == match self {
                TemplateErr::NotFound(n) => "template '"@ + n@ + "' not found"@,
                TemplateErr::PreExec(t) => "executing pre script: "@ + t@,
                TemplateErr::PostExec(t) => "executing post script: "@ + t@,
            },
    {
        match self {
            TemplateErr::NotFound(n) => String::from_str("template '").concat(n.as_str()).concat(
                "' not found",
            ),
            TemplateErr::PreExec(t) => String::from_str("executing pre script: ").concat(t.as_str()),
            TemplateErr::PostExec(t) => String::from_str("executing post script: ").concat(
                t.as_str(),
            ),
        }
    }
}

/// A failure to read the command-line arguments.
#[derive(Debug, Clone, Copy, PartialEq, Eq, Structural)]
pub enum ArgsErr {
    NoTemplate,
    MultipleTemplates,
    MultipleActions,
    MultiplePaths,
    MissingParam,
}

impl ArgsErr {
    /// The message that describes the error.
    pub fn message(&self) -> (r: String)
        ensures
            r@ == match self {
                ArgsErr::NoTemplate => "no template name provided"@,
                ArgsErr::MultipleTemplates => "multiple template names provided"@,
                ArgsErr::MultipleActions => "multiple actions provided"@,
                ArgsErr::MultiplePaths => "multiple paths provided"@,
                ArgsErr::MissingParam => "missing argument parameter"@,
            },
    {
        match self {
            ArgsErr::NoTemplate => String::from_str("no template name provided"),
            ArgsErr::MultipleTemplates => String::from_str("multiple template names provided"),
            ArgsErr::MultipleActions => String::from_str("multiple actions provided"),
            ArgsErr::MultiplePaths => String::from_str("multiple paths provided"),
            ArgsErr::MissingParam => String::from_str("missing argument parameter"),
        }
    }
}

} // verus!

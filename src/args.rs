//! The command-line arguments.

use vstd::prelude::*;

use crate::error::ArgsErr;
use crate::table::{env_of, Vars};
use crate::text::{chars_of, str_eq, string_of, texts};

verus! {

/// What the tool is asked to do, besides applying a template.
#[derive(Debug, Clone, Copy, PartialEq, Eq, Structural)]
pub enum Action {
    Create,
    Remove,
    List,
    Help,
}

/// The arguments, read.
pub struct Args {
    pub template: Option<String>,
    pub dst: Option<String>,
    pub action: Option<Action>,
    pub vars: Vars,
    pub pre: Option<String>,
    pub post: Option<String>,
    pub yes: bool,
}

/// The arguments as mathematical values.
pub struct ArgsView {
    pub template: Option<Seq<char>>,
    pub dst: Option<Seq<char>>,
    pub action: Option<Action>,
    pub vars: Map<Seq<char>, Seq<char>>,
    pub pre: Option<Seq<char>>,
    pub post: Option<Seq<char>>,
    pub yes: bool,
}

/// The text of an optional string.
pub open spec fn opt_text(o: Option<String>) -> Option<Seq<char>> {
    match o {
        Some(s) => Some(s@),
        None => None,
    }
}

impl View for Args {
    type V = ArgsView;

    open spec fn view(&self) -> ArgsView {
        ArgsView {
            template: opt_text(self.template),
            dst: opt_text(self.dst),
            action: self.action,
            vars: env_of(self.vars@),
            pre: opt_text(self.pre),
            post: opt_text(self.post),
            yes: self.yes,
        }
    }
}

/// Nothing given.
pub open spec fn no_args() -> ArgsView {
    ArgsView {
        template: None,
        dst: None,
        action: None,
        vars: Map::empty(),
        pre: None,
        post: None,
        yes: false,
    }
}

/// The index of the first `=` in `v`, or its length if it has none.
pub open spec fn first_eq(v: Seq<char>) -> nat
    decreases v.len(),
{
    if v.len() == 0 || v[0] == '=' {
        0
    } else {
        1 + first_eq(v.drop_first())
    }
}

/// The variable that `-Dname=value` defines: the text up to the first `=`
/// names it, the text after it is its value; with no `=` the value is empty.
pub open spec fn define_of(arg: Seq<char>) -> (Seq<char>, Seq<char>) {
    let v = arg.skip(2);
    let i = first_eq(v) as int;
    if i < v.len() {
        (v.take(i), v.skip(i + 1))
    } else {
        (v, Seq::empty())
    }
}

/// Whether an argument defines a variable.
pub open spec fn is_define(arg: Seq<char>) -> bool {
    arg.len() >= 2 && arg[0] == '-' && arg[1] == 'D'
}

/// Sets the action, which may be given once.
pub open spec fn with_action(a: ArgsView, act: Action) -> Result<ArgsView, ArgsErr> {
    if a.action is Some {
        Err(ArgsErr::MultipleActions)
    } else {
        Ok(ArgsView { action: Some(act), ..a })
    }
}

/// Reads the argument at index `i` into `a`: the arguments as they then are,
/// and how many command-line words the argument took.
pub open spec fn parse_one(args: Seq<Seq<char>>, i: int, a: ArgsView) -> Result<(ArgsView, int), ArgsErr>
    recommends
        0 <= i < args.len(),
{
    let arg = args[i];
    if arg == "-c"@ || arg == "--create"@ {
        match with_action(a, Action::Create) { Ok(b) => Ok((b, 1)), Err(e) => Err(e) }
    } else if arg == "-r"@ || arg == "--remove"@ {
        match with_action(a, Action::Remove) { Ok(b) => Ok((b, 1)), Err(e) => Err(e) }
    } else if arg == "-l"@ || arg == "--list"@ {
        match with_action(a, Action::List) { Ok(b) => Ok((b, 1)), Err(e) => Err(e) }
    } else if arg == "-h"@ || arg == "--help"@ {
        match with_action(a, Action::Help) { Ok(b) => Ok((b, 1)), Err(e) => Err(e) }
    } else if arg == "-d"@ || arg == "--dir"@ {
        if i + 1 >= args.len() {
            Err(ArgsErr::MissingParam)
        } else if a.dst is Some {
            Err(ArgsErr::MultiplePaths)
        } else {
            Ok((ArgsView { dst: Some(args[i + 1]), ..a }, 2))
        }
    } else if arg == "--pre"@ {
        if i + 1 >= args.len() {
            Err(ArgsErr::MissingParam)
        } else {
            Ok((ArgsView { pre: Some(args[i + 1]), ..a }, 2))
        }
    } else if arg == "--post"@ {
        if i + 1 >= args.len() {
            Err(ArgsErr::MissingParam)
        } else {
            Ok((ArgsView { post: Some(args[i + 1]), ..a }, 2))
        }
    } else if arg == "-y"@ || arg == "--yes"@ {
        Ok((ArgsView { yes: true, ..a }, 1))
    } else if is_define(arg) {
        Ok((ArgsView { vars: a.vars.insert(define_of(arg).0, define_of(arg).1), ..a }, 1))
    } else if a.template is Some {
        Err(ArgsErr::MultipleTemplates)
    } else {
        Ok((ArgsView { template: Some(arg), ..a }, 1))
    }
}

/// Reads the arguments from index `i` on into `a`.
pub open spec fn parse_from(args: Seq<Seq<char>>, i: int, a: ArgsView) -> Result<ArgsView, ArgsErr>
    decreases args.len() - i,
{
    if i < 0 || i >= args.len() {
        Ok(a)
    } else {
        match parse_one(args, i, a) {
            Ok((b, k)) => parse_from(args, i + k, b),
            Err(e) => Err(e),
        }
    }
}

impl Args {
    /// No arguments.
    pub fn new() -> (r: Args)
        ensures
            r@ == no_args(),
    {
        let r = Args {
            template: None,
            dst: None,
            action: None,
            vars: Vars::new(),
            pre: None,
            post: None,
            yes: false,
        };
        assert(r@.vars =~= Map::<Seq<char>, Seq<char>>::empty());
        r
    }

    /// Reads the command line `args`, whose first element names the program.
    pub fn parse(args: Vec<String>) -> (r: Result<Args, ArgsErr>)
        ensures
            match parse_from(texts(args@), 1, no_args()) {
                Ok(v) => r is Ok && r->Ok_0@ == v,
                Err(e) => r matches Err(x) && x == e,
            },
    {
        let ghost all = texts(args@);
        let mut parsed = Args::new();
        let mut i: usize = 1;
        while i < args.len()
            invariant
                all == texts(args@),
                1 <= i,
                parse_from(all, 1, no_args()) == parse_from(all, i as int, parsed@),
            decreases args.len() - i,
        {
            let arg = args[i].as_str();
            let ghost a = parsed@;
            if str_eq(arg, "-c") || str_eq(arg, "--create") {
                parsed.set_action(Action::Create)?;
            } else if str_eq(arg, "-r") || str_eq(arg, "--remove") {
                parsed.set_action(Action::Remove)?;
            } else if str_eq(arg, "-l") || str_eq(arg, "--list") {
                parsed.set_action(Action::List)?;
            } else if str_eq(arg, "-h") || str_eq(arg, "--help") {
                parsed.set_action(Action::Help)?;
            } else if str_eq(arg, "-d") || str_eq(arg, "--dir") {
                if i + 1 >= args.len() {
                    return Err(ArgsErr::MissingParam);
                }
                parsed.set_path(args[i + 1].clone())?;
                i += 1;
            } else if str_eq(arg, "--pre") {
                if i + 1 >= args.len() {
                    return Err(ArgsErr::MissingParam);
                }
                parsed.pre = Some(args[i + 1].clone());
                i += 1;
            } else if str_eq(arg, "--post") {
                if i + 1 >= args.len() {
                    return Err(ArgsErr::MissingParam);
                }
                parsed.post = Some(args[i + 1].clone());
                i += 1;
            } else if str_eq(arg, "-y") || str_eq(arg, "--yes") {
                parsed.yes = true;
            } else if Args::is_define(arg) {
                parsed.parse_var(arg);
            } else {
                parsed.set_template(args[i].clone())?;
            }
            i += 1;
        }
        Ok(parsed)
    }

    /// Whether `arg` starts with `-D`.
    fn is_define(arg: &str) -> (r: bool)
        ensures
            r == is_define(arg@),
    {
        let a = chars_of(arg);
        a.len() >= 2 && a[0] == '-' && a[1] == 'D'
    }

    /// Fails unless a template name is given.
    pub fn check_template(&self) -> (r: Result<(), ArgsErr>)
        ensures
            self.template is None ==> r == Err::<(), ArgsErr>(ArgsErr::NoTemplate),
            self.template is Some ==> r is Ok,
    {
        if self.template.is_none() {
            return Err(ArgsErr::NoTemplate);
        }
        Ok(())
    }

    /// Binds the variable `name` to `value` unless it is bound already.
    pub fn add_var(&mut self, name: &str, value: String)
        ensures
            final(self)@ == (ArgsView {
                vars: if old(self)@.vars.contains_key(name@) {
                    old(self)@.vars
                } else {
                    old(self)@.vars.insert(name@, value@)
                },
                ..old(self)@
            }),
    {
        if !self.vars.contains_key(name) {
            self.vars.insert(string_of(chars_of(name).as_slice()), value);
        }
        proof {
            assert(final(self)@.vars =~= (if old(self)@.vars.contains_key(name@) {
                old(self)@.vars
            } else {
                old(self)@.vars.insert(name@, value@)
            }));
        }
    }

    /// Sets the template name, which may be given once.
    pub fn set_template(&mut self, template: String) -> (r: Result<(), ArgsErr>)
        ensures
            old(self).template is Some ==> r == Err::<(), ArgsErr>(ArgsErr::MultipleTemplates)
                && final(self)@ == old(self)@,
            old(self).template is None ==> r is Ok && final(self)@ == (ArgsView {
                template: Some(template@),
                ..old(self)@
            }),
    {
        if self.template.is_some() {
            Err(ArgsErr::MultipleTemplates)
        } else {
            self.template = Some(template);
            Ok(())
        }
    }

    /// Sets the action, which may be given once.
    pub fn set_action(&mut self, action: Action) -> (r: Result<(), ArgsErr>)
        ensures
            match with_action(old(self)@, action) {
                Ok(v) => r is Ok && final(self)@ == v,
                Err(e) => r == Err::<(), ArgsErr>(e),
            },
    {
        if self.action.is_some() {
            Err(ArgsErr::MultipleActions)
        } else {
            self.action = Some(action);
            Ok(())
        }
    }

    /// Sets the destination path, which may be given once.
    pub fn set_path(&mut self, path: String) -> (r: Result<(), ArgsErr>)
        ensures
            old(self).dst is Some ==> r == Err::<(), ArgsErr>(ArgsErr::MultiplePaths)
                && final(self)@ == old(self)@,
            old(self).dst is None ==> r is Ok && final(self)@ == (ArgsView {
                dst: Some(path@),
                ..old(self)@
            }),
    {
        if self.dst.is_some() {
            Err(ArgsErr::MultiplePaths)
        } else {
            self.dst = Some(path);
            Ok(())
        }
    }

    /// Binds the variable that the argument `-Dname=value` defines.
    pub fn parse_var(&mut self, arg: &str)
        requires
            is_define(arg@),
        ensures
            final(self)@ == (ArgsView {
                vars: old(self)@.vars.insert(define_of(arg@).0, define_of(arg@).1),
                ..old(self)@
            }),
    {
        let a = chars_of(arg);
        let ghost v = arg@.skip(2);
        let mut i: usize = 2;
        while i < a.len() && a[i] != '='
            invariant
                a@ == arg@,
                2 <= i <= a@.len(),
                first_eq(v) == (i - 2) + first_eq(a@.skip(i as int)),
            decreases a@.len() - i,
        {
            proof {
                assert(a@.skip(i as int).drop_first() =~= a@.skip(i + 1));
            }
            i += 1;
        }
        proof {
            assert(first_eq(a@.skip(i as int)) == 0);
        }
        let name = string_of(vstd::slice::slice_subrange(a.as_slice(), 2, i));
        let value = if i < a.len() {
            string_of(vstd::slice::slice_subrange(a.as_slice(), i + 1, a.len()))
        } else {
            String::new()
        };
        proof {
            assert(name@ =~= define_of(arg@).0);
            assert(value@ =~= define_of(arg@).1);
        }
        self.vars.insert(name, value);
        proof {
            assert(final(self)@.vars =~= old(self)@.vars.insert(define_of(arg@).0, define_of(arg@).1));
        }
    }
}

} // verus!

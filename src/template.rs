//! The stored record of a template and the decisions made when a template is
//! applied: how variables merge, what happens to each file, which commands
//! the hooks run.

use vstd::prelude::*;

use crate::error::{lexer_message, LexerErr, TemplateErr};
use crate::file_options::{FileAction, FileOptions};
use crate::parser::{render, Parser};
use crate::table::{env_of, Table, Vars};
use crate::text::{shell_words_of, split_words, texts};

verus! {

/// The persisted record of a template: its hooks, the table of file options
/// keyed by path relative to the template's root (separated by `/`), and its
/// default variables.
pub struct Template {
    pub pre: Option<String>,
    pub post: Option<String>,
    pub file_options: Table<FileOptions>,
    pub vars: Vars,
}

/// What is done with one file: its action, and the new name of the file if
/// its entry renames it.
pub struct FilePlan {
    pub action: FileAction,
    pub name: Option<String>,
}

impl View for FilePlan {
    type V = (FileAction, Option<Seq<char>>);

    open spec fn view(&self) -> (FileAction, Option<Seq<char>>) {
        (
            self.action,
            match self.name {
                Some(n) => Some(n@),
                None => None,
            },
        )
    }
}

/// The plan for the file at `path`: a file with no entry is copied; a file
/// whose entry ignores it is left out; otherwise the entry's action applies,
/// and a rename template in the entry is rendered with `env` to give the new
/// name.
pub open spec fn plan_for(
    options: Map<Seq<char>, FileOptions>,
    env: Map<Seq<char>, Seq<char>>,
    path: Seq<char>,
) -> Result<(FileAction, Option<Seq<char>>), LexerErr> {
    if !options.contains_key(path) {
        Ok((FileAction::Copy, None))
    } else {
        let o = options[path];
        if o.action == FileAction::Ignore {
            Ok((FileAction::Ignore, None))
        } else {
            match o.name {
                None => Ok((o.action, None)),
                Some(n) => match render(n@, env).1 {
                    None => Ok((o.action, Some(render(n@, env).0))),
                    Some(e) => Err(e),
                },
            }
        }
    }
}

/// A file that is not listed, or listed as `Copy`, is copied as it is: its
/// content is never rendered.
pub proof fn lemma_copied_files_unrendered(
    options: Map<Seq<char>, FileOptions>,
    env: Map<Seq<char>, Seq<char>>,
    path: Seq<char>,
)
    requires
        !options.contains_key(path) || options[path].action == FileAction::Copy,
    ensures
        plan_for(options, env, path) matches Ok((a, _)) ==> a == FileAction::Copy,
        !options.contains_key(path) ==> plan_for(options, env, path) == Ok::<
            (FileAction, Option<Seq<char>>),
            LexerErr,
        >((FileAction::Copy, None)),
{
}

/// A file listed as `Ignore` is left out, whatever else its entry says.
pub proof fn lemma_ignored_files_left_out(
    options: Map<Seq<char>, FileOptions>,
    env: Map<Seq<char>, Seq<char>>,
    path: Seq<char>,
)
    requires
        options.contains_key(path),
        options[path].action == FileAction::Ignore,
    ensures
        plan_for(options, env, path) == Ok::<(FileAction, Option<Seq<char>>), LexerErr>(
            (FileAction::Ignore, None),
        ),
{
}

/// A command that a hook runs: the program and its arguments.
pub struct HookCommand {
    pub program: String,
    pub args: Vec<String>,
}

impl View for HookCommand {
    type V = (Seq<char>, Seq<Seq<char>>);

    open spec fn view(&self) -> (Seq<char>, Seq<Seq<char>>) {
        (self.program@, texts(self.args@))
    }
}

/// The command that a list of words stands for: the first word names the
/// program, the others are its arguments; no words, no command.
pub open spec fn command_of(words: Seq<Seq<char>>) -> Option<(Seq<char>, Seq<Seq<char>>)> {
    if words.len() == 0 {
        None
    } else {
        Some((words[0], words.drop_first()))
    }
}

/// What a hook's command template gives with the variables `env`: the
/// command to run, none, or the text of the error.
pub open spec fn hook_of(script: Seq<char>, env: Map<Seq<char>, Seq<char>>) -> Result<
    Option<(Seq<char>, Seq<Seq<char>>)>,
    Seq<char>,
> {
    match render(script, env).1 {
        Some(e) => Err(lexer_message(e)),
        None => match shell_words_of(render(script, env).0) {
            Some(words) => Ok(command_of(words)),
            None => Err("missing closing quote"@),
        },
    }
}

/// The view of an optional hook command.
pub open spec fn command_view(c: Option<HookCommand>) -> Option<(Seq<char>, Seq<Seq<char>>)> {
    match c {
        Some(c) => Some(c@),
        None => None,
    }
}

impl HookCommand {
    /// The command of a list of words, if there are any.
    pub fn from_words(words: Vec<String>) -> (r: Option<HookCommand>)
        ensures
            command_view(r) == command_of(texts(words@)),
    {
        let mut words = words;
        if words.len() == 0 {
            return None;
        }
        let ghost all = words@;
        let program = words.remove(0);
        proof {
            assert(texts(words@) =~= texts(all).drop_first());
        }
        Some(HookCommand { program, args: words })
    }
}

/// The names of the entries that are directories, in order; an entry is a
/// name and whether it is a directory.
pub open spec fn dir_names(entries: Seq<(String, bool)>) -> Seq<Seq<char>>
    decreases entries.len(),
{
    if entries.len() == 0 {
        Seq::empty()
    } else if entries.last().1 {
        dir_names(entries.drop_last()).push(entries.last().0@)
    } else {
        dir_names(entries.drop_last())
    }
}

impl Template {
    /// The names of the stored templates, given the entries of the storage
    /// root (a name and whether it is a directory): the directories, in order.
    pub fn list(entries: &[(String, bool)]) -> (r: Vec<String>)
        ensures
            texts(r@) == dir_names(entries@),
    {
        let mut names: Vec<String> = Vec::new();
        let mut i: usize = 0;
        while i < entries.len()
            invariant
                i <= entries@.len(),
                texts(names@) == dir_names(entries@.take(i as int)),
            decreases entries@.len() - i,
        {
            proof {
                assert(entries@.take(i + 1).drop_last() =~= entries@.take(i as int));
            }
            if entries[i].1 {
                let ghost before = names@;
                names.push(entries[i].0.clone());
                proof {
                    assert(texts(names@) =~= texts(before).push(entries@[i as int].0@));
                }
            }
            i += 1;
        }
        proof {
            assert(entries@.take(entries@.len() as int) =~= entries@);
        }
        names
    }

    /// A record with no hooks, no file options and no variables.
    pub fn new() -> (r: Template)
        ensures
            r.pre is None,
            r.post is None,
            r.file_options@ == Map::<Seq<char>, FileOptions>::empty(),
            r.vars@ == Map::<Seq<char>, String>::empty(),
    {
        Template { pre: None, post: None, file_options: Table::new(), vars: Table::new() }
    }

    /// Adds the variables `supplied` to the record's own; where both bind a
    /// name, the record's value stays.
    pub fn merge_vars(&mut self, supplied: &Vars)
        ensures
            final(self).vars@ == supplied@.union_prefer_right(old(self).vars@),
            final(self).pre == old(self).pre,
            final(self).post == old(self).post,
            final(self).file_options == old(self).file_options,
    {
        let mut merged = Vars::new();
        merged.extend(supplied);
        merged.extend(&self.vars);
        proof {
            assert(Map::<Seq<char>, String>::empty().union_prefer_right(supplied@) =~= supplied@);
        }
        self.vars = merged;
    }

    /// What to do with the file at `path`, relative to the template's root.
    pub fn make_file(&self, path: &str) -> (r: Result<FilePlan, LexerErr>)
        ensures
            match plan_for(self.file_options@, env_of(self.vars@), path@) {
                Ok(p) => r is Ok && r->Ok_0@ == p,
                Err(e) => r matches Err(x) && x == e,
            },
    {
        let item = match self.file_options.get(path) {
            Some(i) => i,
            None => return Ok(FilePlan { action: FileAction::Copy, name: None }),
        };
        if matches!(item.action, FileAction::Ignore) {
            return Ok(FilePlan { action: FileAction::Ignore, name: None });
        }
        match &item.name {
            None => Ok(FilePlan { action: item.action, name: None }),
            Some(name) => {
                let mut filename = String::new();
                match Parser::string(name.as_str(), &self.vars, &mut filename) {
                    Ok(()) => {
                        proof {
                            assert(filename@ =~= render(name@, env_of(self.vars@)).0);
                        }
                        Ok(FilePlan { action: item.action, name: Some(filename) })
                    },
                    Err(e) => Err(e),
                }
            },
        }
    }

    /// The command that the hook template `script` gives with the record's
    /// variables, or the text of what went wrong.
    pub fn exec_script(&self, script: &str) -> (r: Result<Option<HookCommand>, String>)
        ensures
            match hook_of(script@, env_of(self.vars@)) {
                Ok(c) => r is Ok && command_view(r->Ok_0) == c,
                Err(t) => r is Err && r->Err_0@ == t,
            },
    {
        let mut command = String::new();
        if let Err(e) = Parser::string(script, &self.vars, &mut command) {
            return Err(e.message());
        }
        proof {
            assert(command@ =~= render(script@, env_of(self.vars@)).0);
        }
        let words = split_words(command.as_str())?;
        Ok(HookCommand::from_words(words))
    }

    /// The command of the pre hook, if the record has one and it gives a
    /// command.
    pub fn pre_exec(&self) -> (r: Result<Option<HookCommand>, TemplateErr>)
        ensures
            match self.pre {
                None => r matches Ok(None),
                Some(p) => match hook_of(p@, env_of(self.vars@)) {
                    Ok(c) => r is Ok && command_view(r->Ok_0) == c,
                    Err(t) => r matches Err(TemplateErr::PreExec(x)) && x@ == t,
                },
            },
    {
        match &self.pre {
            None => Ok(None),
            Some(p) => match self.exec_script(p.as_str()) {
                Ok(c) => Ok(c),
                Err(t) => Err(TemplateErr::PreExec(t)),
            },
        }
    }

    /// The command of the post hook, if the record has one and it gives a
    /// command.
    pub fn post_exec(&self) -> (r: Result<Option<HookCommand>, TemplateErr>)
        ensures
            match self.post {
                None => r matches Ok(None),
                Some(p) => match hook_of(p@, env_of(self.vars@)) {
                    Ok(c) => r is Ok && command_view(r->Ok_0) == c,
                    Err(t) => r matches Err(TemplateErr::PostExec(x)) && x@ == t,
                },
            },
    {
        match &self.post {
            None => Ok(None),
            Some(p) => match self.exec_script(p.as_str()) {
                Ok(c) => Ok(c),
                Err(t) => Err(TemplateErr::PostExec(t)),
            },
        }
    }
}

} // verus!

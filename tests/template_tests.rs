use makeit::error::{LexerErr, TemplateErr};
use makeit::file_options::{FileAction, FileOptions};
use makeit::prompt::{answer_is_yes, not_empty_prompt, replace_prompt};
use makeit::table::Vars;
use makeit::template::{HookCommand, Template};

fn record() -> Template {
    let mut t = Template::new();
    t.vars.insert("name".to_string(), "demo".to_string());
    t.file_options.insert(
        "skip.txt".to_string(),
        FileOptions { action: FileAction::Ignore, name: Some("{{ name }}".to_string()) },
    );
    t.file_options.insert(
        "src/main.rs".to_string(),
        FileOptions { action: FileAction::Make, name: None },
    );
    t.file_options.insert(
        "raw.txt".to_string(),
        FileOptions { action: FileAction::Copy, name: Some("{{ name + \".txt\" }}".to_string()) },
    );
    t.file_options.insert(
        "bad.txt".to_string(),
        FileOptions { action: FileAction::Make, name: Some("{{ oops".to_string()) },
    );
    t
}

#[test]
fn ignored_file_is_left_out() {
    let plan = record().make_file("skip.txt").ok().unwrap();
    assert_eq!(plan.action, FileAction::Ignore);
    assert_eq!(plan.name, None);
}

#[test]
fn unlisted_file_is_copied_unrendered() {
    let plan = record().make_file("docs/{{ name }}.md").ok().unwrap();
    assert_eq!(plan.action, FileAction::Copy);
    assert_eq!(plan.name, None);
}

#[test]
fn listed_files_follow_their_entry() {
    let t = record();
    let plan = t.make_file("src/main.rs").ok().unwrap();
    assert_eq!(plan.action, FileAction::Make);
    assert_eq!(plan.name, None);
    let plan = t.make_file("raw.txt").ok().unwrap();
    assert_eq!(plan.action, FileAction::Copy);
    assert_eq!(plan.name, Some("demo.txt".to_string()));
    assert!(matches!(t.make_file("bad.txt"), Err(LexerErr::UnclosedBlock)));
}

#[test]
fn record_variables_win_the_merge() {
    let mut t = record();
    let mut supplied = Vars::new();
    supplied.insert("name".to_string(), "cli".to_string());
    supplied.insert("_PNAME".to_string(), "proj".to_string());
    t.merge_vars(&supplied);
    assert_eq!(t.vars.get("name"), Some(&"demo".to_string()));
    assert_eq!(t.vars.get("_PNAME"), Some(&"proj".to_string()));
    assert_eq!(t.vars.entries().len(), 2);
}

#[test]
fn hooks_render_and_split() {
    let mut t = record();
    assert!(matches!(t.pre_exec(), Ok(None)));
    t.pre = Some("echo '{{ name }} x' \"b c\" d".to_string());
    let cmd = t.pre_exec().ok().unwrap().unwrap();
    assert_eq!(cmd.program, "echo");
    assert_eq!(cmd.args, vec!["demo x".to_string(), "b c".to_string(), "d".to_string()]);
    t.post = Some("   ".to_string());
    assert!(matches!(t.post_exec(), Ok(None)));
}

#[test]
fn hook_errors_carry_their_text() {
    let mut t = record();
    t.pre = Some("echo 'open".to_string());
    match t.pre_exec() {
        Err(TemplateErr::PreExec(text)) => assert_eq!(text, "missing closing quote"),
        _ => panic!("expected a pre hook error"),
    }
    t.post = Some("echo {{ name".to_string());
    match t.post_exec() {
        Err(TemplateErr::PostExec(text)) => assert_eq!(text, "code block not closed"),
        _ => panic!("expected a post hook error"),
    }
    assert_eq!(
        TemplateErr::NotFound("x".to_string()).message(),
        "template 'x' not found"
    );
    assert_eq!(
        TemplateErr::PostExec("boom".to_string()).message(),
        "executing post script: boom"
    );
}

#[test]
fn commands_from_words() {
    assert!(HookCommand::from_words(vec![]).is_none());
    let c = HookCommand::from_words(vec!["ls".to_string(), "-l".to_string()]).unwrap();
    assert_eq!(c.program, "ls");
    assert_eq!(c.args, vec!["-l".to_string()]);
}

#[test]
fn list_names_directories() {
    let entries = vec![
        ("rust".to_string(), true),
        ("notes.txt".to_string(), false),
        ("web".to_string(), true),
    ];
    assert_eq!(Template::list(&entries), vec!["rust".to_string(), "web".to_string()]);
    assert!(Template::list(&[]).is_empty());
}

#[test]
fn empty_record() {
    let t = Template::new();
    assert!(t.pre.is_none() && t.post.is_none());
    assert!(t.file_options.entries().is_empty());
    assert!(t.vars.entries().is_empty());
}

#[test]
fn file_action_basics() {
    assert!(FileAction::Copy.is_copy());
    assert!(!FileAction::Make.is_copy());
    assert_eq!(FileAction::default(), FileAction::Make);
}

#[test]
fn prompts() {
    assert_eq!(replace_prompt("web", true), None);
    assert_eq!(
        replace_prompt("web", false),
        Some("Template 'web' already exists.\nDo you want to replace it?".to_string())
    );
    assert_eq!(not_empty_prompt(true), None);
    assert!(not_empty_prompt(false).is_some());
    assert!(answer_is_yes(""));
    assert!(answer_is_yes("y"));
    assert!(answer_is_yes("nope"));
    assert!(!answer_is_yes("n"));
    assert!(!answer_is_yes("No"));
    assert!(!answer_is_yes("NO"));
}

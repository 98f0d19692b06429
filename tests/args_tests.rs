use makeit::args::{Action, Args};
use makeit::error::ArgsErr;

fn words(ws: &[&str]) -> Vec<String> {
    ws.iter().map(|w| w.to_string()).collect()
}

#[test]
fn parses_a_load() {
    let args = Args::parse(words(&["makeit", "rust", "-d", "out", "-Dauthor=me=you", "-Dflag", "-y"]))
        .ok()
        .unwrap();
    assert_eq!(args.template, Some("rust".to_string()));
    assert_eq!(args.dst, Some("out".to_string()));
    assert_eq!(args.action, None);
    assert!(args.yes);
    assert_eq!(args.vars.get("author"), Some(&"me=you".to_string()));
    assert_eq!(args.vars.get("flag"), Some(&"".to_string()));
}

#[test]
fn parses_actions_and_hooks() {
    let args = Args::parse(words(&["makeit", "--create", "web", "--pre", "git init", "--post", "ls"]))
        .ok()
        .unwrap();
    assert_eq!(args.action, Some(Action::Create));
    assert_eq!(args.pre, Some("git init".to_string()));
    assert_eq!(args.post, Some("ls".to_string()));
    assert!(Args::parse(words(&["makeit"])).ok().unwrap().template.is_none());
}

#[test]
fn argument_errors() {
    assert!(matches!(Args::parse(words(&["m", "-l", "-h"])), Err(ArgsErr::MultipleActions)));
    assert!(matches!(Args::parse(words(&["m", "a", "b"])), Err(ArgsErr::MultipleTemplates)));
    assert!(matches!(Args::parse(words(&["m", "-d", "x", "--dir", "y"])), Err(ArgsErr::MultiplePaths)));
    assert!(matches!(Args::parse(words(&["m", "--pre"])), Err(ArgsErr::MissingParam)));
    let args = Args::parse(words(&["m"])).ok().unwrap();
    assert!(matches!(args.check_template(), Err(ArgsErr::NoTemplate)));
    assert_eq!(ArgsErr::MissingParam.message(), "missing argument parameter");
}

#[test]
fn add_var_keeps_existing() {
    let mut args = Args::parse(words(&["m", "t", "-D_PNAME=mine"])).ok().unwrap();
    assert!(args.check_template().is_ok());
    args.add_var("_PNAME", "dir".to_string());
    args.add_var("_OS", "linux".to_string());
    assert_eq!(args.vars.get("_PNAME"), Some(&"mine".to_string()));
    assert_eq!(args.vars.get("_OS"), Some(&"linux".to_string()));
}

#[test]
fn setters_refuse_a_second_value() {
    let mut args = Args::new();
    assert!(args.set_template("a".to_string()).is_ok());
    assert!(matches!(args.set_template("b".to_string()), Err(ArgsErr::MultipleTemplates)));
    assert!(args.set_action(Action::List).is_ok());
    assert!(matches!(args.set_action(Action::Help), Err(ArgsErr::MultipleActions)));
    assert!(args.set_path("p".to_string()).is_ok());
    assert!(matches!(args.set_path("q".to_string()), Err(ArgsErr::MultiplePaths)));
    args.parse_var("-Dk=v");
    assert_eq!(args.vars.get("k"), Some(&"v".to_string()));
}

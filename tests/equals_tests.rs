use makeit::parser::Parser;
use makeit::table::Vars;

#[test]
fn string_equals() {
    let input = "{{ \"test\" == \"test\" }}
{{ \"test\" == \"hello\" }}";
    let vars = Vars::new();

    let mut result = String::new();
    _ = Parser::string(input, &vars, &mut result);
    assert_eq!(result, "true\nfalse");
}

#[test]
fn var_equals() {
    let input = "{{ a == b }}
{{ a == c }}
{{ a == \"hello\" }}
{{ b == \"test\" }}
{{ \"test\" == c }}";
    let mut vars = Vars::new();
    vars.insert("a".to_string(), "hello".to_string());
    vars.insert("b".to_string(), "hello".to_string());
    vars.insert("c".to_string(), "test".to_string());

    let mut result = String::new();
    _ = Parser::string(input, &vars, &mut result);
    assert_eq!(result, "true\nfalse\ntrue\nfalse\ntrue");
}

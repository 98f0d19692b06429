use makeit::parser::Parser;
use makeit::table::Vars;

#[test]
fn null_check_tests_null_check_tests() {
    let input = "{{ a ?? \"a null\" }}
{{ b ?? \"b null\" }}
{{ test ?? \"test null\" }}
{{ hello ?? c }}
{{ name ?? test ?? b }}
{{ name ?? a ?? \"ops\" }}";
    let mut vars = Vars::new();
    vars.insert("a".to_string(), "a not null".to_string());
    vars.insert("b".to_string(), "behave".to_string());
    vars.insert("c".to_string(), "test".to_string());

    let mut result = String::new();
    _ = Parser::string(input, &vars, &mut result);
    assert_eq!(
        result,
        "a not null\nbehave\ntest null\ntest\nbehave\na not null"
    );
}

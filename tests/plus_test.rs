use makeit::parser::Parser;
use makeit::table::Vars;

#[test]
fn plus_test() {
    let input = "{{ a + \" \" + b == \"hello world\" }}
{{ \"this \" + b + \" \" + (c ?? \"crazy\") }}";
    let mut vars = Vars::new();
    vars.insert("a".to_string(), "hello".to_string());
    vars.insert("b".to_string(), "world".to_string());

    let mut result = String::new();
    _ = Parser::string(input, &vars, &mut result);
    assert_eq!(result, "true\nthis world crazy");
}

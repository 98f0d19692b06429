use makeit::parser::Parser;
use makeit::table::Vars;

#[test]
fn paren_test() {
    let input = "{{b==(c?\"hello\":\"test\")}}
{{ \"hello\" == (b ? \"hello\" : \"what\") }}";
    let mut vars = Vars::new();
    vars.insert("b".to_string(), "test".to_string());
    vars.insert("c".to_string(), "test".to_string());

    let mut result = String::new();
    _ = Parser::string(input, &vars, &mut result);
    assert_eq!(result, "false\ntrue");
}

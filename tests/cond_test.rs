use makeit::parser::Parser;
use makeit::table::Vars;

#[test]
fn cond_test_null_check_tests() {
    let input = "{{ a ? \"a not null\" : \"a null\" }}
{{ b == \"hello\" ? \"hello b\" : \"what\" }}
{{ test ? \"test not null\" : \"test null\" }}
{{ a == b ? \"equal\" : \"not equal\" }}
{{ b == c ? \"equal\" : \"not equal\" }}";
    let mut vars = Vars::new();
    vars.insert("a".to_string(), "hello".to_string());
    vars.insert("b".to_string(), "test".to_string());
    vars.insert("c".to_string(), "test".to_string());

    let mut result = String::new();
    _ = Parser::string(input, &vars, &mut result);
    assert_eq!(result, "a not null\nwhat\ntest null\nnot equal\nequal");
}

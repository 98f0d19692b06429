use makeit::ast::{Expr, Value};
use makeit::error::LexerErr;
use makeit::lexer::{Lexer, Token};
use makeit::parser::Parser;
use makeit::table::Vars;

fn vars_of(pairs: &[(&str, &str)]) -> Vars {
    let mut vars = Vars::new();
    for (k, v) in pairs {
        vars.insert(k.to_string(), v.to_string());
    }
    vars
}

fn render(text: &str, pairs: &[(&str, &str)]) -> (String, Result<(), LexerErr>) {
    let vars = vars_of(pairs);
    let mut out = String::new();
    let r = Parser::string(text, &vars, &mut out);
    (out, r)
}

#[test]
fn ternary_on_defined_variable() {
    let (out, r) = render("{{ a ? \"a not null\" : \"a null\" }}", &[("a", "hello")]);
    assert_eq!(r, Ok(()));
    assert_eq!(out, "a not null");
}

#[test]
fn literal_equality() {
    assert_eq!(render("{{ \"test\" == \"test\" }}", &[]).0, "true");
    assert_eq!(render("{{ \"test\" == \"hello\" }}", &[]).0, "false");
}

#[test]
fn null_check_chain_takes_first_defined() {
    let (out, _) = render("{{ a ?? b ?? \"ops\" }}", &[("b", "behave")]);
    assert_eq!(out, "behave");
    let (out, _) = render("{{ a ?? b ?? \"ops\" }}", &[]);
    assert_eq!(out, "ops");
    let (out, _) = render("{{ a ?? b ?? \"ops\" }}", &[("a", "first"), ("b", "behave")]);
    assert_eq!(out, "first");
    assert_eq!(render("{{ x ?? y ?? z }}", &[]), ("null".to_string(), Ok(())));
    assert_eq!(render("{{ x ?? y ?? z }}", &[("z", "last")]).0, "last");
}

#[test]
fn equals_against_parenthesised_ternary() {
    let (out, _) = render("{{b==(c?\"hello\":\"test\")}}", &[("b", "test"), ("c", "test")]);
    assert_eq!(out, "false");
}

#[test]
fn concatenation_then_equality() {
    let (out, _) = render("{{ a + \" \" + b == \"hello world\" }}", &[("a", "hello"), ("b", "world")]);
    assert_eq!(out, "true");
}

#[test]
fn different_kinds_are_not_equal() {
    assert_eq!(render("{{ a == b == \"true\" }}", &[("a", "x"), ("b", "x")]).0, "false");
    assert_eq!(render("{{ x == \"null\" }}", &[]).0, "false");
    assert_eq!(render("{{ x == y }}", &[]).0, "true");
}

#[test]
fn only_false_and_null_are_falsy() {
    assert_eq!(render("{{ e ? \"yes\" : \"no\" }}", &[("e", "")]).0, "yes");
    assert_eq!(render("{{ x ? \"yes\" : \"no\" }}", &[]).0, "no");
    assert_eq!(render("{{ a == b ? \"yes\" : \"no\" }}", &[("a", "1"), ("b", "2")]).0, "no");
    assert_eq!(render("{{ a == a ? \"yes\" : \"no\" }}", &[("a", "1")]).0, "yes");
}

#[test]
fn concatenation_uses_display_text() {
    assert_eq!(render("{{ x + a }}", &[("a", "hello")]).0, "nullhello");
    assert_eq!(render("{{ \"v:\" + (a == a) }}", &[("a", "1")]).0, "v:true");
}

#[test]
fn parenthesised_operand_is_transparent() {
    let pairs = [("a", "same"), ("b", "same"), ("c", "other")];
    assert_eq!(render("{{ a == (b) }}", &pairs).0, render("{{ a == b }}", &pairs).0);
    assert_eq!(render("{{ a == (c) }}", &pairs).0, render("{{ a == c }}", &pairs).0);
    assert_eq!(render("{{ a + (b) }}", &pairs).0, "samesame");
}

#[test]
fn leading_parenthesis_ends_the_expression() {
    let (out, r) = render("{{ (a) }}", &[("a", "hello")]);
    assert_eq!(r, Ok(()));
    assert_eq!(out, "hello}}");
}

#[test]
fn escaped_delimiters_stay_literal() {
    assert_eq!(render("\\{{ a }}", &[("a", "x")]), ("{{ a }}".to_string(), Ok(())));
    assert_eq!(render("\\{{", &[]), ("{{".to_string(), Ok(())));
    assert_eq!(render("a\\nb\\}", &[]).0, "a\\nb\\}");
    assert_eq!(render("{x} { ", &[]).0, "{x} { ");
    assert_eq!(render("\\{x", &[]), ("\\{x".to_string(), Ok(())));
    assert_eq!(render("\\{", &[]), ("\\{".to_string(), Ok(())));
    assert_eq!(render("\\{{{ a }}", &[("a", "x")]), ("{{{ a }}".to_string(), Ok(())));
    assert_eq!(render("\\{{\\{{ a }}", &[("a", "x")]).0, "{{{{ a }}");
    assert_eq!(render("p\\qr", &[]).0, "p\\qr");
    assert_eq!(render("end{", &[]).0, "end{");
}

#[test]
fn trailing_backslash_is_an_error() {
    let (out, r) = render("abc\\", &[]);
    assert_eq!(out, "abc");
    assert_eq!(r, Err(LexerErr::UnclosedBlock));
}

#[test]
fn lexical_errors() {
    assert_eq!(render("{{ a = b }}", &[]).1, Err(LexerErr::InvalidToken));
    assert_eq!(render("{{ \"abc }}", &[]).1, Err(LexerErr::UnclosedLit));
    assert_eq!(render("{{ a ", &[]).1, Err(LexerErr::UnclosedBlock));
    assert_eq!(render("{{ a b }}", &[]).1, Err(LexerErr::UnexpectedToken));
    assert_eq!(render("{{ a } }}", &[]).1, Err(LexerErr::InvalidToken));
    assert_eq!(render("{{ a ? b }}", &[]).1, Err(LexerErr::UnexpectedToken));
    assert_eq!(render("{{ a == (b }}", &[]).1, Err(LexerErr::UnexpectedToken));
    assert_eq!(render("{{ # }}", &[]).1, Err(LexerErr::InvalidToken));
}

#[test]
fn output_before_an_error_is_kept() {
    let (out, r) = render("one {{ a }} two {{ a b }} three", &[("a", "A")]);
    assert_eq!(out, "one A two ");
    assert_eq!(r, Err(LexerErr::UnexpectedToken));
}

#[test]
fn literal_escapes() {
    assert_eq!(render("{{ \"a\\\"b\" }}", &[]).0, "a\"b");
    assert_eq!(render("{{ \"x\\ny\\tz\\rw\\\\v\\q\" }}", &[]).0, "x\ny\tz\rw\\vq");
}

#[test]
fn empty_block_is_null() {
    assert_eq!(render("[{{ }}]", &[]).0, "[null]");
    assert_eq!(render("", &[]), (String::new(), Ok(())));
}

#[test]
fn identifiers_stop_at_other_characters() {
    assert_eq!(render("{{a_1+b}}", &[("a_1", "x"), ("b", "y")]).0, "xy");
    assert_eq!(render("{{ _u }}", &[("_u", "under")]).0, "under");
}

#[test]
fn appends_to_existing_output() {
    let vars = vars_of(&[("n", "1")]);
    let mut out = "pre:".to_string();
    assert_eq!(Parser::string("{{ n }}", &vars, &mut out), Ok(()));
    assert_eq!(out, "pre:1");
}

#[test]
fn lexer_reads_tokens() {
    let mut lexer = Lexer::new(" ?? ? : == ( ) + name \"lit\" }}");
    assert!(matches!(lexer.next(), Ok(Token::NullCheck)));
    assert!(matches!(lexer.next(), Ok(Token::Question)));
    assert!(matches!(lexer.next(), Ok(Token::Colon)));
    assert!(matches!(lexer.next(), Ok(Token::Equals)));
    assert!(matches!(lexer.next(), Ok(Token::OpenParen)));
    assert!(matches!(lexer.next(), Ok(Token::CloseParen)));
    assert!(matches!(lexer.next(), Ok(Token::Plus)));
    match lexer.next() {
        Ok(Token::Ident(s)) => assert_eq!(s, "name"),
        _ => panic!("expected an identifier"),
    }
    match lexer.next() {
        Ok(Token::Literal(s)) => assert_eq!(s, "lit"),
        _ => panic!("expected a literal"),
    }
    assert!(matches!(lexer.next(), Ok(Token::End)));
    assert_eq!(lexer.cur(), Some('}'));
    lexer.next_char();
    assert_eq!(lexer.cur(), None);
    assert!(matches!(lexer.next(), Err(LexerErr::UnclosedBlock)));
}

#[test]
fn evaluates_trees() {
    let vars = vars_of(&[("a", "A")]);
    let e = Expr::Add(
        Box::new(Expr::Var("a".to_string())),
        Box::new(Expr::Lit(Value::Bool(false))),
    );
    assert!(e.eval(&vars) == Value::String("Afalse".to_string()));
    assert!(Expr::Empty.eval(&vars) == Value::Null);
    assert_eq!(Value::Null.text(), "null");
    assert_eq!(Value::Bool(true).text(), "true");
}

#[test]
fn error_messages() {
    assert_eq!(LexerErr::InvalidToken.message(), "invalid token found");
    assert_eq!(LexerErr::UnclosedLit.message(), "unclosed literal");
    assert_eq!(LexerErr::UnclosedBlock.message(), "code block not closed");
    assert_eq!(LexerErr::UnexpectedToken.message(), "unexpected token");
}

#[test]
fn table_keeps_one_value_per_key() {
    let mut vars = Vars::new();
    vars.insert("k".to_string(), "1".to_string());
    vars.insert("j".to_string(), "2".to_string());
    vars.insert("k".to_string(), "3".to_string());
    assert_eq!(vars.get("k"), Some(&"3".to_string()));
    assert!(vars.contains_key("j"));
    assert!(!vars.contains_key("x"));
    assert_eq!(vars.entries().len(), 2);
    let mut more = Vars::new();
    more.insert("x".to_string(), "9".to_string());
    more.insert("k".to_string(), "0".to_string());
    vars.extend(&more);
    assert_eq!(vars.get("k"), Some(&"0".to_string()));
    assert_eq!(vars.get("x"), Some(&"9".to_string()));
}

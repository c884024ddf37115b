use rs_chat::client::trivial::{inp_to_package, lex_args};
use rs_chat::package::Package;

fn test_arg_lexer(args: &str, expected: &[&str]) {
    let res = lex_args(args);
    assert_eq!(&res, expected);
}

#[test]
fn arg_lexing() {
    test_arg_lexer("args", &["args"]);
    test_arg_lexer("a b c", &["a", "b", "c"]);
    test_arg_lexer(r#""a" "b""#, &["a", "b"]);
    test_arg_lexer(r#""a \" b""#, &["a \" b"]);
    test_arg_lexer(r#"a "b c" \a"#, &["a", "b c", "\\a"]);
    test_arg_lexer("a\"b c\"d\"", &["a\"b", "c\"d\""]);
    test_arg_lexer("\" \"args \"a  bc", &[" args", "a  bc"]);
    test_arg_lexer("\"\" \"a b c", &["", "a b c"]);
    test_arg_lexer("\"\"", &[""]);
}

#[test]
fn lexing_keeps_empty_words_between_spaces() {
    test_arg_lexer("a  b", &["a", "", "b"]);
    test_arg_lexer("", &[]);
    test_arg_lexer(" ", &[""]);
}

#[test]
fn lexing_escapes_inside_quotes_only() {
    test_arg_lexer(r#""a\\b""#, &["a\\b"]);
    test_arg_lexer(r#""a\nb""#, &["a\\nb"]);
    test_arg_lexer("\"a\\", &["a\\"]);
    test_arg_lexer(r#"a\"b"#, &["a\\\"b"]);
}

#[test]
fn input_line_without_space_is_a_bare_command() {
    assert_eq!(inp_to_package("ping"), Package { cmd: "ping".to_string(), args: vec![] });
    assert_eq!(inp_to_package(""), Package { cmd: String::new(), args: vec![] });
}

#[test]
fn input_line_splits_at_the_first_space() {
    assert_eq!(
        inp_to_package("post \"\" \"hi there\""),
        Package { cmd: "post".to_string(), args: vec![String::new(), "hi there".to_string()] }
    );
    assert_eq!(
        inp_to_package("login alice"),
        Package { cmd: "login".to_string(), args: vec!["alice".to_string()] }
    );
}

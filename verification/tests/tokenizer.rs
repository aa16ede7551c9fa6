use specker::lexer::{tokenize, Iter, Options, TokenRef, TokenValue};

fn default_options() -> Options<'static> {
    Options { skip_lines: b"..", marker: b"##", var_start: b"${", var_end: b"}" }
}

fn expect_next(iter: &mut Iter) -> TokenValue {
    match iter.next() {
        Some(Ok(TokenRef { value, .. })) => value,
        o => panic!("expected token value but got {:?}", o),
    }
}

#[test]
fn test_single_param_line() {
    let mut tokens = tokenize(default_options(), b"## lib: hello");

    assert_eq!(expect_next(&mut tokens), TokenValue::Key("lib".into()));
    assert_eq!(expect_next(&mut tokens), TokenValue::Value("hello".into()));
    assert!(tokens.next().is_none());
}

#[test]
fn test_single_content_line() {
    let mut tokens = tokenize(default_options(), b"Blah blah blah");

    assert_eq!(expect_next(&mut tokens), TokenValue::MatchText("Blah blah blah".into()));
    assert!(tokens.next().is_none());
}

#[test]
fn test_single_line_with_var() {
    let mut tokens = tokenize(default_options(), b"${ haha, yay }");
    assert_eq!(expect_next(&mut tokens), TokenValue::Var("haha, yay".into()));
    assert!(tokens.next().is_none());
}

#[test]
fn test_single_line_with_content_and_var() {
    let mut tokens = tokenize(default_options(), b"Foo ${ haha, yay }");
    assert_eq!(expect_next(&mut tokens), TokenValue::MatchText("Foo ".into()));
    assert_eq!(expect_next(&mut tokens), TokenValue::Var("haha, yay".into()));
    assert!(tokens.next().is_none());
}

#[test]
fn test_single_line_with_var_and_content() {
    let mut tokens = tokenize(default_options(), b"${ haha, yay } Bar");
    assert_eq!(expect_next(&mut tokens), TokenValue::Var("haha, yay".into()));
    assert_eq!(expect_next(&mut tokens), TokenValue::MatchText(" Bar".into()));
    assert!(tokens.next().is_none());
}

#[test]
fn test_single_line_mixed() {
    let mut tokens;

    tokens = tokenize(default_options(), b"Foo ${ haha, yay } Bar");
    assert_eq!(expect_next(&mut tokens), TokenValue::MatchText("Foo ".into()));
    assert_eq!(expect_next(&mut tokens), TokenValue::Var("haha, yay".into()));
    assert_eq!(expect_next(&mut tokens), TokenValue::MatchText(" Bar".into()));
    assert!(tokens.next().is_none());

    tokens = tokenize(default_options(), b"Foo ${zai} Bar${x}");
    assert_eq!(expect_next(&mut tokens), TokenValue::MatchText("Foo ".into()));
    assert_eq!(expect_next(&mut tokens), TokenValue::Var("zai".into()));
    assert_eq!(expect_next(&mut tokens), TokenValue::MatchText(" Bar".into()));
    assert_eq!(expect_next(&mut tokens), TokenValue::Var("x".into()));
    assert!(tokens.next().is_none());

    tokens = tokenize(default_options(), b"Foo ${}");
    assert_eq!(expect_next(&mut tokens), TokenValue::MatchText("Foo ".into()));
    assert_eq!(expect_next(&mut tokens), TokenValue::Var("".into()));
    assert!(tokens.next().is_none());
}

#[test]
fn test_multi_line_params_and_content() {
    let mut tokens = tokenize(
        default_options(),
        b"## lib: hello
${ X }",
    );
    assert_eq!(expect_next(&mut tokens), TokenValue::Key("lib".into()));
    assert_eq!(expect_next(&mut tokens), TokenValue::Value("hello".into()));
    assert_eq!(expect_next(&mut tokens), TokenValue::Var("X".into()));
    assert!(tokens.next().is_none());
}

#[test]
fn test_multi_line_params_and_content_with_skipped_lines() {
    let mut tokens;

    tokens = tokenize(
        default_options(),
        b"## lib: hello
..
${ X }
..",
    );
    assert_eq!(expect_next(&mut tokens), TokenValue::Key("lib".into()));
    assert_eq!(expect_next(&mut tokens), TokenValue::Value("hello".into()));
    assert_eq!(expect_next(&mut tokens), TokenValue::MatchAnyNumberOfLines);
    assert_eq!(expect_next(&mut tokens), TokenValue::Var("X".into()));
    assert_eq!(expect_next(&mut tokens), TokenValue::MatchAnyNumberOfLines);
    assert!(tokens.next().is_none());

    tokens = tokenize(
        default_options(),
        b"## lib: hello
${ X }
..
",
    );
    assert_eq!(expect_next(&mut tokens), TokenValue::Key("lib".into()));
    assert_eq!(expect_next(&mut tokens), TokenValue::Value("hello".into()));
    assert_eq!(expect_next(&mut tokens), TokenValue::Var("X".into()));
    assert_eq!(expect_next(&mut tokens), TokenValue::MatchAnyNumberOfLines);
    assert!(tokens.next().is_none());
}

#[test]
fn test_multi_line_content_with_params() {
    let mut tokens = tokenize(
        default_options(),
        b"..
${ X }
..
## a: b
## c: d
",
    );
    assert_eq!(expect_next(&mut tokens), TokenValue::MatchAnyNumberOfLines);
    assert_eq!(expect_next(&mut tokens), TokenValue::Var("X".into()));
    assert_eq!(expect_next(&mut tokens), TokenValue::MatchAnyNumberOfLines);
    assert_eq!(expect_next(&mut tokens), TokenValue::Key("a".into()));
    assert_eq!(expect_next(&mut tokens), TokenValue::Value("b".into()));
    assert_eq!(expect_next(&mut tokens), TokenValue::Key("c".into()));
    assert_eq!(expect_next(&mut tokens), TokenValue::Value("d".into()));
    assert!(tokens.next().is_none());
}

#[test]
fn test_multi_line_varying_content_and_params() {
    let mut tokens = tokenize(
        default_options(),
        b"## a: b
f ${ X } b
..
## c: d
..
k ${ Y } z
",
    );
    assert_eq!(expect_next(&mut tokens), TokenValue::Key("a".into()));
    assert_eq!(expect_next(&mut tokens), TokenValue::Value("b".into()));
    assert_eq!(expect_next(&mut tokens), TokenValue::MatchText("f ".into()));
    assert_eq!(expect_next(&mut tokens), TokenValue::Var("X".into()));
    assert_eq!(expect_next(&mut tokens), TokenValue::MatchText(" b".into()));
    assert_eq!(expect_next(&mut tokens), TokenValue::MatchAnyNumberOfLines);
    assert_eq!(expect_next(&mut tokens), TokenValue::Key("c".into()));
    assert_eq!(expect_next(&mut tokens), TokenValue::Value("d".into()));
    assert_eq!(expect_next(&mut tokens), TokenValue::MatchAnyNumberOfLines);
    assert_eq!(expect_next(&mut tokens), TokenValue::MatchText("k ".into()));
    assert_eq!(expect_next(&mut tokens), TokenValue::Var("Y".into()));
    assert_eq!(expect_next(&mut tokens), TokenValue::MatchText(" z".into()));
    assert!(tokens.next().is_none());
}

#[test]
fn test_newline_match_tokens() {
    let mut tokens = tokenize(
        default_options(),
        b"..
a
b
..
",
    );
    assert_eq!(expect_next(&mut tokens), TokenValue::MatchAnyNumberOfLines);
    assert_eq!(expect_next(&mut tokens), TokenValue::MatchText("a".into()));
    assert_eq!(expect_next(&mut tokens), TokenValue::MatchNewline);
    assert_eq!(expect_next(&mut tokens), TokenValue::MatchText("b".into()));
    assert_eq!(expect_next(&mut tokens), TokenValue::MatchAnyNumberOfLines);
    assert!(tokens.next().is_none());
}

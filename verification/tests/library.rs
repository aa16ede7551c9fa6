use specker::lexer::{tokenize, Options as LexOptions, TokenRef, TokenValue};
use specker::{Item, LexError, Match, Options, ParseError, Spec, TemplateMatchError};

fn default_options() -> Options<'static> {
    Options { skip_lines: "..", marker: "##", var_start: "${", var_end: "}" }
}

fn lex_options() -> LexOptions<'static> {
    LexOptions { skip_lines: b"..", marker: b"##", var_start: b"${", var_end: b"}" }
}

fn item(template: &[Match]) -> Item<'_> {
    Item { params: &[], template }
}

#[test]
fn literal_template_round_trip() {
    let template = vec![
        Match::Text("first".into()),
        Match::NewLine,
        Match::NewLine,
        Match::Text("last".into()),
    ];
    let it = item(&template);
    let rendered = it.write_contents(&[]).unwrap();
    assert_eq!(rendered, b"first\n\nlast".to_vec());
    item(&template).match_contents(&rendered, &[]).expect("expected round-trip match");
}

#[test]
fn parse_iterate_and_match() {
    let source = b"## file: out/a.txt
..
<body>
..
## file: out/b.css
body {
..
}
";
    let spec = Spec::parse(default_options(), source).unwrap();
    let mut names: Vec<String> = Vec::new();
    let mut iter = spec.iter_item_values("file");
    while let Some((it, value)) = iter.next() {
        names.push(value.to_string());
        if value == "out/a.txt" {
            it.match_contents(b"x\n<body>\ny\nz", &[]).expect("expected match");
            let err = it.match_contents(b"x\n<bddy>\ny", &[]).err().expect("expected error");
            err.assert_matches(
                &TemplateMatchError::ExpectedTextFoundEof("<body>".into()),
                (2, 1),
                (2, 1),
            )
            .unwrap();
        }
    }
    assert_eq!(names, vec!["out/a.txt".to_string(), "out/b.css".to_string()]);
}

#[test]
fn get_param_first_value_wins() {
    let params = vec![
        specker::Param { key: "a".into(), value: None },
        specker::Param { key: "a".into(), value: Some("x".into()) },
        specker::Param { key: "a".into(), value: Some("y".into()) },
    ];
    let it = Item { params: &params, template: &[] };
    assert_eq!(it.get_param("a"), Some("x"));
    assert_eq!(it.get_param("b"), None);
}

#[test]
fn to_string_renders_without_variables() {
    let template = vec![Match::Text("hello".into()), Match::NewLine];
    assert_eq!(item(&template).to_string().unwrap(), "hello\n".to_string());
    let template = vec![Match::Var("x".into())];
    assert_eq!(
        item(&template).to_string().err().expect("expected error"),
        specker::TemplateWriteError::MissingParam("x".into())
    );
}

#[test]
fn unterminated_variable_is_a_lex_error() {
    let mut tokens = tokenize(lex_options(), b"a ${ never closed");
    match tokens.next() {
        Some(Ok(TokenRef { value, .. })) => {
            assert_eq!(value, TokenValue::MatchText("a ".into()))
        },
        o => panic!("expected text token, got {:?}", o),
    }
    match tokens.next() {
        Some(Err(e)) => {
            assert_eq!(
                e.desc,
                LexError::ExpectedSequenceFoundNewline { expected: b"}".to_vec() }
            );
            assert_eq!(e.lo.byte, 17);
        },
        o => panic!("expected lex error, got {:?}", o),
    }
    assert!(tokens.next().is_none());
}

#[test]
fn skip_marker_must_fill_its_line() {
    let err = Spec::parse(default_options(), b"...\n").err().expect("expected error");
    assert_eq!(err.desc, ParseError::Lex(LexError::ExpectedNewline));
    assert_eq!(err.lo.byte, 2);
}

#[test]
fn invalid_utf8_content_is_a_lex_error() {
    let err = Spec::parse(default_options(), b"ok\n\xff\xfe\n").err().expect("expected error");
    assert_eq!(err.desc, ParseError::Lex(LexError::Utf8));
}

#[test]
fn multibyte_text_token_survives_decoding() {
    let mut tokens = tokenize(lex_options(), "caf\u{e9} ${x}".as_bytes());
    match tokens.next() {
        Some(Ok(TokenRef { value, .. })) => {
            assert_eq!(value, TokenValue::MatchText("caf\u{e9} ".into()))
        },
        o => panic!("expected text token, got {:?}", o),
    }
}

#[test]
fn mismatch_in_invalid_utf8_target_uses_replacement_chars() {
    let template = vec![Match::Text("x".into())];
    let err = item(&template).match_contents(b"\xff\xfe", &[]).err().expect("expected error");
    err.assert_matches(
        &TemplateMatchError::ExpectedText {
            expected: "x".into(),
            found: "\u{fffd}\u{fffd}".into(),
        },
        (0, 0),
        (0, 2),
    )
    .unwrap();
}

#[test]
fn assert_matches_rejects_wrong_positions() {
    let template = vec![Match::Text("hi".into())];
    let err = item(&template).match_contents(b"ho", &[]).err().expect("expected error");
    assert!(err.assert_matches(
        &TemplateMatchError::ExpectedText { expected: "hi".into(), found: "ho".into() },
        (0, 0),
        (0, 2),
    )
    .is_ok());
    assert!(err.assert_matches(
        &TemplateMatchError::ExpectedText { expected: "hi".into(), found: "ho".into() },
        (1, 0),
        (0, 2),
    )
    .is_err());
    assert!(err.assert_matches(&TemplateMatchError::ExpectedEof, (0, 0), (0, 2)).is_err());
}

#[test]
fn carriage_return_line_endings_match() {
    let template = vec![Match::Text("a".into()), Match::NewLine, Match::Text("b".into())];
    item(&template).match_contents(b"a\r\nb", &[]).expect("expected match");
    let err = item(&template).match_contents(b"a\rb", &[]).err().expect("expected error");
    err.assert_matches(&TemplateMatchError::ExpectedEol, (0, 1), (0, 1)).unwrap();
}

#[test]
fn variable_values_substitute_in_matching() {
    let template = vec![Match::Text("v=".into()), Match::Var("a".into())];
    let vars = vec![("a".to_string(), "1".to_string())];
    item(&template).match_contents(b"v=1", &vars).expect("expected match");
    let err = item(&template).match_contents(b"v=2", &vars).err().expect("expected error");
    err.assert_matches(
        &TemplateMatchError::ExpectedText { expected: "1".into(), found: "2".into() },
        (0, 2),
        (0, 3),
    )
    .unwrap();
}

#[test]
fn missing_variable_reported_even_after_wildcard() {
    let template = vec![Match::MultipleLines, Match::Var("nope".into())];
    let err = item(&template).match_contents(b"a\nb", &[]).err().expect("expected error");
    err.assert_matches(&TemplateMatchError::MissingParam("nope".into()), (0, 0), (0, 0)).unwrap();
}

#[test]
fn crlf_line_endings_lex_like_lf() {
    let mut tokens = tokenize(lex_options(), b"## a: b\r\nx\r\ny\r\n");
    let mut values = Vec::new();
    while let Some(r) = tokens.next() {
        values.push(r.expect("expected token").value);
    }
    assert_eq!(
        values,
        vec![
            TokenValue::Key("a".into()),
            TokenValue::Value("b".into()),
            TokenValue::MatchText("x".into()),
            TokenValue::MatchNewline,
            TokenValue::MatchText("y".into()),
        ]
    );
}

#[test]
fn param_keys_and_values_are_trimmed() {
    let spec = Spec::parse(default_options(), b"##   spaced key  :   spaced value  \nbody\n")
        .unwrap();
    let mut iter = spec.iter();
    let it = iter.next().expect("expected one item");
    assert_eq!(it.get_param("spaced key"), Some("spaced value"));
    assert!(iter.next().is_none());
}

#[test]
fn items_iterate_in_file_order() {
    let spec = Spec::parse(default_options(), b"## n: one\na\n## n: two\nb\n").unwrap();
    let mut iter = spec.iter();
    let first = iter.next().expect("expected first item");
    assert_eq!(first.get_param("n"), Some("one"));
    assert_eq!(first.template, &[Match::Text("a".into())]);
    let second = iter.next().expect("expected second item");
    assert_eq!(second.get_param("n"), Some("two"));
    assert_eq!(second.template, &[Match::Text("b".into())]);
    assert!(iter.next().is_none());
}

#[test]
fn wildcard_takes_earliest_matching_line() {
    // The skip is not revisited: the first line that matches the next
    // group is taken, even when a later alignment would also work.
    let template = vec![
        Match::MultipleLines,
        Match::Text("a".into()),
        Match::NewLine,
        Match::Text("end".into()),
    ];
    item(&template).match_contents(b"x\na\nend", &[]).expect("expected match");
    let err = item(&template).match_contents(b"x\na\nmid\na\nend", &[]).err()
        .expect("expected error");
    err.assert_matches(
        &TemplateMatchError::ExpectedText { expected: "end".into(), found: "mid".into() },
        (2, 0),
        (2, 3),
    )
    .unwrap();
}

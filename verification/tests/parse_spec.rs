use specker::ast::{Item, Param, Spec};
use specker::lexer::{tokenize, Options};
use specker::{Match, Parser};

fn default_options() -> Options<'static> {
    Options { skip_lines: b"..", marker: b"##", var_start: b"${", var_end: b"}" }
}

#[test]
fn test_parser() {
    let tokens = tokenize(
        default_options(),
        b"## a: x
..
Hello ${ X }
Bye
..
## a: y
## bbbb
${ X } woooo
${ Y }
",
    );
    let mut parser = Parser::new(tokens);
    let spec = parser.parse_spec();

    assert_eq!(
        spec.unwrap(),
        Spec {
            items: vec![
                Item {
                    params: vec![Param { key: "a".into(), value: Some("x".into()) }],
                    template: vec![
                        Match::MultipleLines,
                        Match::Text("Hello ".into()),
                        Match::Var("X".into()),
                        Match::NewLine,
                        Match::Text("Bye".into()),
                        Match::MultipleLines,
                    ],
                },
                Item {
                    params: vec![
                        Param { key: "a".into(), value: Some("y".into()) },
                        Param { key: "bbbb".into(), value: None },
                    ],
                    template: vec![
                        Match::Var("X".into()),
                        Match::Text(" woooo".into()),
                        Match::NewLine,
                        Match::Var("Y".into()),
                    ],
                },
            ],
        }
    );
}

//! End-to-end tests: token inputs through `derive_error` to emitted text
//! or diagnostics.

use onlyerror::derive_error;
use onlyerror::model::DiagnosticKind;
use onlyerror::tokens::{Delim, Token};

fn id(s: &str, p: u32) -> Token {
    Token::Ident { text: s.to_string(), pos: p }
}

fn pu(c: char, p: u32) -> Token {
    Token::Punct { ch: c, pos: p }
}

fn lit(s: &str, p: u32) -> Token {
    Token::Literal { repr: s.to_string(), pos: p }
}

fn grp(d: Delim, tokens: Vec<Token>, p: u32) -> Token {
    Token::Group { delim: d, tokens, pos: p }
}

fn attr(name: &str, rest: Vec<Token>, p: u32) -> Vec<Token> {
    let mut inner = vec![id(name, p)];
    inner.extend(rest);
    vec![pu('#', p), grp(Delim::Bracket, inner, p)]
}

fn doc(line: &str, p: u32) -> Vec<Token> {
    attr("doc", vec![pu('=', p), lit(&format!("\"{}\"", line), p)], p)
}

fn error_attr(template: &str, p: u32) -> Vec<Token> {
    attr(
        "error",
        vec![grp(Delim::Paren, vec![lit(&format!("\"{}\"", template), p)], p)],
        p,
    )
}

fn enum_input(name: &str, body: Vec<Token>) -> Vec<Token> {
    vec![id("enum", 1), id(name, 2), grp(Delim::Brace, body, 3)]
}

fn error_impl(name: &str, arms: &str) -> String {
    format!(
        "impl ::std::error::Error for {name} {{ fn source(&self) -> \
         Option<&(dyn ::std::error::Error + 'static)> {{ match self {{ {arms} _ => None, }} }} }}"
    )
}

fn display_impl(name: &str, body: &str) -> String {
    format!(
        "impl ::std::fmt::Display for {name} {{ fn fmt(&self, f: &mut \
         ::std::fmt::Formatter<'_>) -> ::std::result::Result<(), ::std::fmt::Error> \
         {{ {body} }} }}"
    )
}

#[test]
fn empty_enum() {
    let out = derive_error(&enum_input("Error", vec![]), 99).unwrap();
    let expected = format!("{}\n{}\n", error_impl("Error", ""), display_impl("Error", "Ok(())"));
    assert_eq!(out, expected);
}

#[test]
fn one_comment_variant() {
    let mut body = doc(" First", 10);
    body.push(id("First", 11));
    body.push(pu(',', 12));
    let out = derive_error(&enum_input("Error", body), 99).unwrap();
    let arms = "Self::First => write!(f, \" First\"),";
    let expected = format!(
        "{}\n{}\n",
        error_impl("Error", ""),
        display_impl("Error", &format!("match self {{ {arms} }}"))
    );
    assert_eq!(out, expected);
}

#[test]
fn multiple_variants() {
    let mut body = doc(" First", 10);
    body.push(id("First", 11));
    body.push(pu(',', 12));
    body.extend(error_attr("Second with {0}", 13));
    body.push(id("Second", 14));
    body.push(grp(Delim::Paren, vec![id("usize", 15)], 16));
    body.push(pu(',', 17));
    body.extend(error_attr("Third with {key} and {value:?}", 18));
    body.push(id("Third", 19));
    body.push(grp(
        Delim::Brace,
        vec![
            id("key", 20),
            pu(':', 21),
            id("String", 22),
            pu(',', 23),
            id("value", 24),
            pu(':', 25),
            id("Vec", 26),
            pu('<', 27),
            id("usize", 28),
            pu('>', 29),
            pu(',', 30),
        ],
        31,
    ));
    body.push(pu(',', 32));
    let out = derive_error(&enum_input("Error", body), 99).unwrap();
    let arms = "Self::First => write!(f, \" First\"),\
Self::Second(field_0,) => write!(f, \"Second with {field_0}\", field_0,),\
Self::Third { key,value, .. } => write!(f, \"Third with {key} and {value:?}\", key,value,),";
    let expected = format!(
        "{}\n{}\n",
        error_impl("Error", ""),
        display_impl("Error", &format!("match self {{ {arms} }}"))
    );
    assert_eq!(out, expected);
}

#[test]
fn from_and_source_markers() {
    // IoContext { #[source] source: std::io::Error, ctx: String }, Parse(#[from] f)
    let mut sfields = attr("source", vec![], 40);
    sfields.push(id("source", 41));
    sfields.push(pu(':', 42));
    sfields.push(id("std", 43));
    sfields.push(pu(':', 43));
    sfields.push(pu(':', 43));
    sfields.push(id("io", 43));
    sfields.push(pu(':', 43));
    sfields.push(pu(':', 43));
    sfields.push(id("Error", 43));
    sfields.push(pu(',', 44));
    sfields.push(id("ctx", 45));
    sfields.push(pu(':', 46));
    sfields.push(id("String", 47));
    sfields.push(pu(',', 48));

    let mut tfield = attr("from", vec![], 50);
    tfield.push(id("std", 51));
    tfield.push(pu(':', 51));
    tfield.push(pu(':', 51));
    tfield.push(id("num", 51));
    tfield.push(pu(':', 51));
    tfield.push(pu(':', 51));
    tfield.push(id("ParseFloatError", 51));

    let mut body = error_attr("I/O error: {ctx}.", 60);
    body.push(id("IoContext", 61));
    body.push(grp(Delim::Brace, sfields, 62));
    body.push(pu(',', 63));
    body.extend(error_attr("Parse error.", 64));
    body.push(id("Parse", 65));
    body.push(grp(Delim::Paren, tfield, 66));
    body.push(pu(',', 67));

    let out = derive_error(&enum_input("Error", body), 99).unwrap();
    let src_arms = "Self::IoContext { source, ..} => Some(source),\
Self::Parse(field,) => Some(field),";
    let disp_arms = "Self::IoContext { ctx, .. } => write!(f, \"I/O error: {ctx}.\", ctx,),\
Self::Parse(_,) => write!(f, \"Parse error.\", ),";
    let from_impls = "impl ::std::convert::From<std::num::ParseFloatError> for Error \
{ fn from(value: std::num::ParseFloatError) -> Self { Self::Parse(value) } }";
    let expected = format!(
        "{}\n{}\n{}",
        error_impl("Error", src_arms),
        display_impl("Error", &format!("match self {{ {disp_arms} }}")),
        from_impls
    );
    assert_eq!(out, expected);
}

#[test]
fn no_display_suppresses_formatting() {
    let mut body = vec![id("First", 11), pu(',', 12)];
    body.push(id("Second", 14));
    body.push(grp(Delim::Paren, vec![id("usize", 15)], 16));
    body.push(pu(',', 17));
    let mut input = attr("no_display", vec![], 1);
    input.extend(enum_input("Error", body));
    let out = derive_error(&input, 99).unwrap();
    let expected = format!("{}\n\n", error_impl("Error", ""));
    assert_eq!(out, expected);
}

#[test]
fn missing_message_rejected() {
    // same enum without no_display: the first variant has no message
    let body = vec![id("First", 11), pu(',', 12)];
    let err = derive_error(&enum_input("Error", body), 99).unwrap_err();
    assert!(matches!(err.kind, DiagnosticKind::MissingDisplayMessage));
    assert_eq!(err.pos, 11);
    assert_eq!(err.message(), "Required error message is missing");
}

#[test]
fn duplicate_marker_rejected() {
    // struct variant with two #[source] fields
    let mut fields = attr("source", vec![], 40);
    fields.push(id("a", 41));
    fields.push(pu(':', 41));
    fields.push(id("X", 41));
    fields.push(pu(',', 41));
    fields.extend(attr("source", vec![], 42));
    fields.push(id("b", 43));
    fields.push(pu(':', 43));
    fields.push(id("Y", 43));
    let mut body = doc(" V", 9);
    body.push(id("V", 10));
    body.push(grp(Delim::Brace, fields, 11));
    body.push(pu(',', 12));
    let err = derive_error(&enum_input("Error", body), 99).unwrap_err();
    match &err.kind {
        DiagnosticKind::DuplicateCauseMarker { first_field } => assert_eq!(first_field, "a"),
        _ => panic!("wrong kind"),
    }
    assert_eq!(err.pos, 42);
    assert_eq!(
        err.message(),
        "#[from] | #[source] can only be used once. Previously seen on field `a`"
    );
}

#[test]
fn conversion_arity_rejected() {
    // two-field tuple variant with #[from]
    let mut fields = attr("from", vec![], 40);
    fields.push(id("A", 41));
    fields.push(pu(',', 41));
    fields.push(id("B", 42));
    let mut body = doc(" V", 9);
    body.push(id("V", 10));
    body.push(grp(Delim::Paren, fields, 11));
    body.push(pu(',', 12));
    let err = derive_error(&enum_input("Error", body), 99).unwrap_err();
    assert!(matches!(err.kind, DiagnosticKind::ConversionArityError));
    assert_eq!(err.pos, 10);
    assert_eq!(err.message(), "#[from] can only be used with a single field");
}

#[test]
fn unexpected_token_rejected() {
    let err = derive_error(&vec![id("struct", 5)], 99).unwrap_err();
    assert!(matches!(err.kind, DiagnosticKind::UnexpectedToken));
    assert_eq!(err.pos, 5);
    assert_eq!(err.message(), "Unexpected token");
}

#[test]
fn trailing_tokens_rejected() {
    let mut input = enum_input("Error", vec![]);
    input.push(id("extra", 77));
    let err = derive_error(&input, 99).unwrap_err();
    assert!(matches!(err.kind, DiagnosticKind::TrailingTokens));
    assert_eq!(err.pos, 77);
}

#[test]
fn end_of_input_uses_end_position() {
    let err = derive_error(&vec![], 99).unwrap_err();
    assert!(matches!(err.kind, DiagnosticKind::UnexpectedToken));
    assert_eq!(err.pos, 99);
}

#[test]
fn visibility_is_skipped() {
    let mut input = vec![id("pub", 1)];
    input.extend(enum_input("Error", vec![]));
    assert!(derive_error(&input, 99).is_ok());
    let mut input2 = vec![
        id("pub", 1),
        grp(Delim::Paren, vec![id("crate", 1)], 1),
    ];
    input2.extend(enum_input("Error", vec![]));
    assert!(derive_error(&input2, 99).is_ok());
}

#[test]
fn template_quotes_are_escaped() {
    // #[error("a \"b\"")] — the literal's source text carries the escapes
    let mut body = attr(
        "error",
        vec![grp(Delim::Paren, vec![lit("\"a \\\"b\\\"\"", 13)], 13)],
        13,
    );
    body.push(id("V", 14));
    body.push(pu(',', 15));
    let out = derive_error(&enum_input("Error", body), 99).unwrap();
    let arms = "Self::V => write!(f, \"a \\\"b\\\"\"),";
    let expected = format!(
        "{}\n{}\n",
        error_impl("Error", ""),
        display_impl("Error", &format!("match self {{ {arms} }}"))
    );
    assert_eq!(out, expected);
}

#[test]
fn compile_tests() {
    // the enums of the compile-pass and compile-fail inputs, fed as tokens
    // empty.rs
    assert!(derive_error(&enum_input("Error", vec![]), 99).is_ok());
    // one_comment.rs
    let mut body = doc(" First", 10);
    body.push(id("First", 11));
    body.push(pu(',', 12));
    assert!(derive_error(&enum_input("Error", body), 99).is_ok());
    // one_param.rs: #[error("message {0}")] V(usize)
    let mut body = error_attr("message {0}", 13);
    body.push(id("V", 14));
    body.push(grp(Delim::Paren, vec![id("usize", 15)], 16));
    body.push(pu(',', 17));
    assert!(derive_error(&enum_input("Error", body), 99).is_ok());
    // one_non_signed.rs: a variant with no message while formatting is on
    let body = vec![id("First", 11), pu(',', 12)];
    assert!(derive_error(&enum_input("Error", body), 99).is_err());
    // multiple_non_signed.rs: several variants, none with a message
    let body = vec![
        id("First", 11),
        pu(',', 12),
        id("Second", 13),
        pu(',', 14),
    ];
    assert!(derive_error(&enum_input("Error", body), 99).is_err());
    // multiple_one_non_signed.rs: one message missing among several
    let mut body = doc(" First", 10);
    body.push(id("First", 11));
    body.push(pu(',', 12));
    body.push(id("Second", 13));
    body.push(pu(',', 14));
    let err = derive_error(&enum_input("Error", body), 99).unwrap_err();
    assert!(matches!(err.kind, DiagnosticKind::MissingDisplayMessage));
    assert_eq!(err.pos, 13);
    // no_display.rs and no_display_no_impl.rs: both succeed here and omit
    // the formatting routine; whether a hand-written Display exists is the
    // host's affair
    let mut input = attr("no_display", vec![], 1);
    input.extend(enum_input(
        "Error",
        vec![id("First", 11), pu(',', 12)],
    ));
    let out = derive_error(&input, 99).unwrap();
    assert!(!out.contains("Display"));
}

#[test]
fn bracket_variant_group_rejected() {
    let body = vec![id("V", 10), grp(Delim::Bracket, vec![], 11), pu(',', 12)];
    let err = derive_error(&enum_input("Error", body), 99).unwrap_err();
    assert!(matches!(err.kind, DiagnosticKind::UnexpectedToken));
    assert_eq!(err.pos, 11);
}

#[test]
fn doc_comment_lines_concatenate() {
    let mut body = doc(" A", 8);
    body.extend(doc(" B", 9));
    body.push(id("V", 10));
    body.push(pu(',', 11));
    let out = derive_error(&enum_input("Error", body), 99).unwrap();
    let arms = "Self::V => write!(f, \" A B\"),";
    let expected = format!(
        "{}\n{}\n",
        error_impl("Error", ""),
        display_impl("Error", &format!("match self {{ {arms} }}"))
    );
    assert_eq!(out, expected);
}

#[test]
fn message_attribute_overrides_doc_comment() {
    let mut body = doc(" ignored", 8);
    body.extend(error_attr("used", 9));
    body.push(id("V", 10));
    body.push(pu(',', 11));
    let out = derive_error(&enum_input("Error", body), 99).unwrap();
    let arms = "Self::V => write!(f, \"used\"),";
    let expected = format!(
        "{}\n{}\n",
        error_impl("Error", ""),
        display_impl("Error", &format!("match self {{ {arms} }}"))
    );
    assert_eq!(out, expected);
}

#[test]
fn tuple_type_field_path() {
    // P(#[from] (u8, u8)) — a parenthesized tuple type as the field's type
    let mut tfield = attr("from", vec![], 40);
    tfield.push(grp(
        Delim::Paren,
        vec![id("u8", 41), pu(',', 42), id("u8", 43)],
        44,
    ));
    let mut body = error_attr("pair", 45);
    body.push(id("P", 46));
    body.push(grp(Delim::Paren, tfield, 47));
    body.push(pu(',', 48));
    let out = derive_error(&enum_input("Error", body), 99).unwrap();
    let src_arms = "Self::P(field,) => Some(field),";
    let disp_arms = "Self::P(_,) => write!(f, \"pair\", ),";
    let from_impls = "impl ::std::convert::From<(u8, u8)> for Error \
{ fn from(value: (u8, u8)) -> Self { Self::P(value) } }";
    let expected = format!(
        "{}\n{}\n{}",
        error_impl("Error", src_arms),
        display_impl("Error", &format!("match self {{ {disp_arms} }}")),
        from_impls
    );
    assert_eq!(out, expected);
}

#[test]
fn array_type_field_path() {
    // A(#[from] [u8; 4]) — a bracketed array type as the field's type
    let mut tfield = attr("from", vec![], 40);
    tfield.push(grp(
        Delim::Bracket,
        vec![id("u8", 41), pu(';', 42), lit("4", 43)],
        44,
    ));
    let mut body = error_attr("bytes", 45);
    body.push(id("A", 46));
    body.push(grp(Delim::Paren, tfield, 47));
    body.push(pu(',', 48));
    let out = derive_error(&enum_input("Error", body), 99).unwrap();
    assert!(out.contains(
        "impl ::std::convert::From<[u8; 4]> for Error { fn from(value: [u8; 4]) -> Self { Self::A(value) } }"
    ));
}

#[test]
fn tuple_type_trailing_comma_and_unit() {
    // T(#[from] (u8, )) — a trailing separator collapses to `(u8,)`
    let mut tfield = attr("from", vec![], 40);
    tfield.push(grp(Delim::Paren, vec![id("u8", 41), pu(',', 42)], 43));
    let mut body = error_attr("one", 44);
    body.push(id("T", 45));
    body.push(grp(Delim::Paren, tfield, 46));
    body.push(pu(',', 47));
    let out = derive_error(&enum_input("Error", body), 99).unwrap();
    assert!(out.contains("From<(u8,)> for Error"));

    // U(#[from] ()) — the unit type
    let mut ufield = attr("from", vec![], 50);
    ufield.push(grp(Delim::Paren, vec![], 51));
    let mut body2 = error_attr("unit", 52);
    body2.push(id("U", 53));
    body2.push(grp(Delim::Paren, ufield, 54));
    body2.push(pu(',', 55));
    let out2 = derive_error(&enum_input("Error", body2), 99).unwrap();
    assert!(out2.contains("From<()> for Error"));
}

#[test]
fn nested_generic_tuple_type_path() {
    // N(#[from] (Vec<u8>, [i32; 2])) — nesting inside a tuple type
    let mut tfield = attr("from", vec![], 60);
    tfield.push(grp(
        Delim::Paren,
        vec![
            id("Vec", 61),
            pu('<', 62),
            id("u8", 63),
            pu('>', 64),
            pu(',', 65),
            grp(
                Delim::Bracket,
                vec![id("i32", 66), pu(';', 67), lit("2", 68)],
                69,
            ),
        ],
        70,
    ));
    let mut body = error_attr("nested", 71);
    body.push(id("N", 72));
    body.push(grp(Delim::Paren, tfield, 73));
    body.push(pu(',', 74));
    let out = derive_error(&enum_input("Error", body), 99).unwrap();
    assert!(out.contains("From<(Vec<u8>, [i32; 2])> for Error"));
}

#[test]
fn brace_group_in_type_path_rejected() {
    // a braced group has no place in a type path
    let mut tfield: Vec<Token> = Vec::new();
    tfield.push(grp(Delim::Brace, vec![], 41));
    let mut body = error_attr("bad", 44);
    body.push(id("B", 45));
    body.push(grp(Delim::Paren, tfield, 46));
    body.push(pu(',', 47));
    let err = derive_error(&enum_input("Error", body), 99).unwrap_err();
    assert!(matches!(err.kind, DiagnosticKind::UnexpectedToken));
    assert_eq!(err.pos, 41);
}

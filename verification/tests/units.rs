//! Unit tests for the ordered map, the text helpers, and the parser's
//! template passes.

use onlyerror::model::{Diagnostic, DiagnosticKind, OrderedMap};
use onlyerror::text::{extract_placeholders, rewrite_positional, str_eq, unescape, usize_to_string};

#[test]
fn ordered_map_keeps_insertion_order() {
    let mut m: OrderedMap<u32> = OrderedMap::new();
    assert_eq!(m.len(), 0);
    assert!(m.insert("b".to_string(), 1).is_none());
    assert!(m.insert("a".to_string(), 2).is_none());
    assert_eq!(m.len(), 2);
    assert_eq!(m.index_of("b"), Some(0));
    assert_eq!(m.index_of("a"), Some(1));
    assert_eq!(m.index_of("c"), None);
    assert_eq!(m.get("a"), Some(&2));
    assert_eq!(m.get("c"), None);
    let pairs = m.into_iter();
    assert_eq!(pairs.len(), 2);
    assert_eq!(pairs[0].0, "b");
    assert_eq!(pairs[0].1, 1);
    assert_eq!(pairs[1].0, "a");
    assert_eq!(pairs[1].1, 2);
}

#[test]
fn ordered_map_replaces_in_place() {
    let mut m: OrderedMap<u32> = OrderedMap::new();
    assert!(m.insert("b".to_string(), 1).is_none());
    assert!(m.insert("a".to_string(), 2).is_none());
    assert_eq!(m.insert("b".to_string(), 7), Some(1));
    assert_eq!(m.len(), 2);
    let pairs = m.into_iter();
    assert_eq!(pairs[0].0, "b");
    assert_eq!(pairs[0].1, 7);
    assert_eq!(pairs[1].0, "a");
}

#[test]
fn decimal_rendering() {
    assert_eq!(usize_to_string(0), "0");
    assert_eq!(usize_to_string(7), "7");
    assert_eq!(usize_to_string(42), "42");
    assert_eq!(usize_to_string(1000), "1000");
}

#[test]
fn string_equality() {
    assert!(str_eq("abc", "abc"));
    assert!(!str_eq("abc", "abd"));
    assert!(!str_eq("abc", "ab"));
    assert!(str_eq("", ""));
}

#[test]
fn literal_unescaping() {
    assert_eq!(unescape("plain"), "plain");
    assert_eq!(unescape("a\\nb"), "a\nb");
    assert_eq!(unescape("a\\\"b"), "a\"b");
    assert_eq!(unescape("a\\\\b"), "a\\b");
    assert_eq!(unescape("tab\\there"), "tab\there");
}

#[test]
fn positional_rewrite() {
    // a tuple variant's template "{0} then {1:?}" is stored rewritten
    assert_eq!(rewrite_positional("{0} then {1:?}", 2), "{field_0} then {field_1:?}");
    let fields = extract_placeholders("{field_0} then {field_1:?}");
    assert_eq!(fields, vec!["field_0".to_string(), "field_1".to_string()]);
}

#[test]
fn positional_rewrite_leaves_out_of_range_indices() {
    assert_eq!(rewrite_positional("{0} and {1}", 1), "{field_0} and {1}");
    assert_eq!(rewrite_positional("{01}", 5), "{01}");
    assert_eq!(rewrite_positional("{x}", 3), "{x}");
    assert_eq!(rewrite_positional("{10}", 11), "{field_10}");
}

#[test]
fn placeholder_extraction() {
    let fields = extract_placeholders("a {x} b {y:?} c {x}");
    assert_eq!(
        fields,
        vec!["x".to_string(), "y".to_string(), "x".to_string()]
    );
    assert!(extract_placeholders("no holes").is_empty());
}

#[test]
fn code_assembly_message_is_carried() {
    let d = Diagnostic {
        kind: DiagnosticKind::CodeAssemblyError { message: "lexing failed".to_string() },
        pos: 0,
    };
    assert_eq!(d.message(), "lexing failed");
}

use determine_preset::{names_list, pairs_list, parse_string, render_table, split_words, Settings};

#[test]
fn split_is_on_the_first_equals_sign() {
    let s = parse_string("a=b=c");
    assert_eq!(s.get("a").map(|v| v.as_str()), Some("b=c"));
}

#[test]
fn words_without_equals_are_skipped() {
    let s = parse_string("wpp / no-pmode ref=5 /");
    assert_eq!(s.len(), 1);
    assert_eq!(s.get("ref").map(|v| v.as_str()), Some("5"));
}

#[test]
fn later_value_wins_and_keeps_position() {
    let s = parse_string("a=1 b=2 a=3");
    assert_eq!(s.len(), 2);
    let (k0, v0) = s.entry(0);
    assert_eq!((k0.as_str(), v0.as_str()), ("a", "3"));
    let (k1, v1) = s.entry(1);
    assert_eq!((k1.as_str(), v1.as_str()), ("b", "2"));
}

#[test]
fn empty_names_and_values_are_kept() {
    let s = parse_string("=x y=");
    assert_eq!(s.get("").map(|v| v.as_str()), Some("x"));
    assert_eq!(s.get("y").map(|v| v.as_str()), Some(""));
}

#[test]
fn values_keep_punctuation() {
    let s = parse_string("deblock=0:0 cll=0,0");
    assert_eq!(s.get("deblock").map(|v| v.as_str()), Some("0:0"));
    assert_eq!(s.get("cll").map(|v| v.as_str()), Some("0,0"));
}

#[test]
fn unicode_whitespace_separates_words() {
    let w = split_words("a=1\t b=2\n\u{3000}c=3\u{a0}d=4 ");
    assert_eq!(w, vec!["a=1", "b=2", "c=3", "d=4"]);
    assert!(split_words("   ").is_empty());
    assert!(split_words("").is_empty());
}

#[test]
fn settings_insert_get_remove() {
    let mut s = Settings::new();
    s.insert("x".to_string(), "1".to_string());
    s.insert("y".to_string(), "2".to_string());
    s.insert("x".to_string(), "3".to_string());
    assert_eq!(s.len(), 2);
    assert_eq!(s.get("x").map(|v| v.as_str()), Some("3"));
    s.remove("x");
    assert!(s.get("x").is_none());
    assert_eq!(s.len(), 1);
    s.remove("absent");
    assert_eq!(s.len(), 1);
}

#[test]
fn debug_list_quotes_and_escapes() {
    let names = vec!["a\"b".to_string(), "c".to_string()];
    assert_eq!(names_list(&names), "[\"a\\\"b\", \"c\"]");
    assert_eq!(names_list(&Vec::new()), "[]");
}

#[test]
fn debug_pairs_print_counts_in_decimal() {
    let pairs = vec![("x".to_string(), 12usize), ("y".to_string(), 0usize)];
    assert_eq!(pairs_list(&pairs), "[(\"x\", 12), (\"y\", 0)]");
}

#[test]
fn table_pads_columns_to_longest_text() {
    let header = vec![(String::new(), String::new()), ("input".to_string(), "input".to_string())];
    let body = vec![
        vec![("ab".to_string(), "ab".to_string()), ("1234567".to_string(), "1234567".to_string())],
        vec![("c".to_string(), "c".to_string()), ("x".to_string(), "*x*".to_string())],
    ];
    let t = render_table(&header, &body);
    assert_eq!(t, "   | input  \n------------\nab | 1234567\nc  | *x*      \n");
}

#[test]
fn empty_table_is_header_only() {
    let header = vec![(String::new(), String::new()), ("input".to_string(), "input".to_string())];
    let t = render_table(&header, &Vec::new());
    assert_eq!(t, " | input\n--------\n");
}

use movecheck::text::{
    chars_of, contains_text, contains_token, count_char, extract_annotation_from_source, is_word,
    is_whitespace, last_word_of, same_text, split, trim_text,
};

#[test]
fn characters_come_in_order() {
    assert_eq!(chars_of("a*ö"), vec!['a', '*', 'ö']);
    assert_eq!(chars_of(""), Vec::<char>::new());
}

#[test]
fn text_is_found_wherever_it_stands() {
    assert!(contains_text("__MOVE__", "MOVE"));
    assert!(contains_text("MOVE", "MOVE"));
    assert!(contains_text("xxMOVE", "MOVE"));
    assert!(contains_text("MOVExx", "MOVE"));
    assert!(contains_text("MOMOVE", "MOVE"));
    assert!(contains_text("anything", ""));
    assert!(contains_text("", ""));
    assert!(!contains_text("MOV", "MOVE"));
    assert!(!contains_text("M OVE", "MOVE"));
    assert!(!contains_text("move", "MOVE"));
    assert!(!contains_text("", "MOVE"));
    assert!(!contains_text("EVOM", "MOVE"));
}

#[test]
fn characters_are_counted() {
    assert_eq!(count_char("int ***", '*'), 3);
    assert_eq!(count_char("*a*b*", '*'), 3);
    assert_eq!(count_char("int", '*'), 0);
    assert_eq!(count_char("", '*'), 0);
}

#[test]
fn texts_are_compared_character_by_character() {
    assert!(same_text("IfStmt", "IfStmt"));
    assert!(same_text("", ""));
    assert!(!same_text("IfStmt", "IfStm"));
    assert!(!same_text("IfStmt", "IfStmT"));
    assert!(!same_text("", "x"));
}

#[test]
fn last_word_follows_the_last_space() {
    assert_eq!(last_word_of("unsigned long count"), "count");
    assert_eq!(last_word_of("count"), "count");
    assert_eq!(last_word_of("trailing "), "");
    assert_eq!(last_word_of(""), "");
    assert_eq!(last_word_of(" x"), "x");
}

#[test]
fn annotation_is_what_stands_between_the_outer_quotes() {
    let source = vec![
        "first".to_string(),
        "int *p __attribute__((annotate(\"MOVE\")));".to_string(),
        "say(\"a\" \"b\")".to_string(),
        "one \" only".to_string(),
        "\"\"".to_string(),
    ];
    assert_eq!(extract_annotation_from_source(&source, 2, 0, 41), Some("MOVE".to_string()));
    assert_eq!(extract_annotation_from_source(&source, 2, 22, 38), Some("MOVE".to_string()));
    assert_eq!(extract_annotation_from_source(&source, 2, 31, 37), Some("MOVE".to_string()));
    assert_eq!(extract_annotation_from_source(&source, 2, 32, 37), None);
    assert_eq!(extract_annotation_from_source(&source, 2, 31, 36), None);
    assert_eq!(extract_annotation_from_source(&source, 3, 0, 12), Some("a\" \"b".to_string()));
    assert_eq!(extract_annotation_from_source(&source, 3, 0, 7), Some("a".to_string()));
    assert_eq!(extract_annotation_from_source(&source, 4, 0, 10), None);
    assert_eq!(extract_annotation_from_source(&source, 5, 0, 2), Some(String::new()));
    assert_eq!(extract_annotation_from_source(&source, 1, 0, 5), None);
}

#[test]
fn annotation_outside_the_text_is_not_found() {
    let source = vec!["\"ab\"".to_string()];
    assert_eq!(extract_annotation_from_source(&source, 1, 0, 4), Some("ab".to_string()));
    assert_eq!(extract_annotation_from_source(&source, 0, 0, 4), None);
    assert_eq!(extract_annotation_from_source(&source, 2, 0, 4), None);
    assert_eq!(extract_annotation_from_source(&source, 1, 0, 5), None);
    assert_eq!(extract_annotation_from_source(&source, 1, 4, 4), None);
    assert_eq!(extract_annotation_from_source(&source, 1, 3, 2), None);
    assert_eq!(extract_annotation_from_source(&source, u64::MAX, 0, 4), None);
    assert_eq!(extract_annotation_from_source(&source, 1, u64::MAX, u64::MAX), None);
    assert_eq!(extract_annotation_from_source(&Vec::new(), 1, 0, 0), None);
}

#[test]
fn columns_count_bytes() {
    let source = vec!["é \"ü\" é".to_string()];
    assert_eq!(source[0].len(), 10);
    assert_eq!(extract_annotation_from_source(&source, 1, 0, 10), Some("ü".to_string()));
    assert_eq!(extract_annotation_from_source(&source, 1, 3, 7), Some("ü".to_string()));
    assert_eq!(extract_annotation_from_source(&source, 1, 1, 9), Some("ü".to_string()));
    assert_eq!(extract_annotation_from_source(&source, 1, 4, 7), None);
    assert_eq!(extract_annotation_from_source(&source, 1, 3, 6), None);
    assert_eq!(extract_annotation_from_source(&source, 1, 0, 11), None);
    let source = vec!["/* né */ int *p __attribute__((annotate(\"MOVE→\")));".to_string()];
    let line = &source[0];
    let first = line.find('"').unwrap() as u64;
    let last = line.rfind('"').unwrap() as u64;
    assert_eq!(first, 41);
    assert_eq!(extract_annotation_from_source(&source, 1, first, last + 1), Some("MOVE→".to_string()));
    assert_eq!(extract_annotation_from_source(&source, 1, 0, line.len() as u64), Some("MOVE→".to_string()));
    assert_eq!(extract_annotation_from_source(&source, 1, first, last), None);
}

#[test]
fn white_space_is_what_the_standard_library_takes_for_it() {
    for n in 0..=0x10FFFFu32 {
        if let Some(c) = char::from_u32(n) {
            assert_eq!(is_whitespace(c), c.is_whitespace(), "U+{:04X}", n);
        }
    }
}

#[test]
fn text_is_split_at_its_first_colon() {
    let pair = |a: &str, b: &str| Some((a.to_string(), b.to_string()));
    assert_eq!(split("kind: VarDecl".to_string()), pair("kind", "VarDecl"));
    assert_eq!(split("  key :val:ue  ".to_string()), pair("key", "val:ue"));
    assert_eq!(split(":".to_string()), pair("", ""));
    assert_eq!(split(" : ".to_string()), pair("", ""));
    assert_eq!(split("a b : c d".to_string()), pair("a b", "c d"));
    assert_eq!(split("\u{3000}x\u{a0}:\ty\r\n".to_string()), pair("x", "y"));
    assert_eq!(split("no colon".to_string()), None);
    assert_eq!(split(String::new()), None);
    for text in ["a:b", " a : b ", "::", "x :  ", "\n\tlabel\u{2003}:\u{85}value\u{205f}"] {
        let (label, value) = text.split_once(":").unwrap();
        assert_eq!(split(text.to_string()), pair(label.trim(), value.trim()));
    }
}

#[test]
fn token_stands_apart_from_the_characters_of_identifiers() {
    assert!(contains_token("const int", "const"));
    assert!(contains_token("int const", "const"));
    assert!(contains_token("const", "const"));
    assert!(contains_token("char *const*", "const"));
    assert!(contains_token("(const)", "const"));
    assert!(contains_token("constant const", "const"));
    assert!(contains_token("xconst const_ const", "const"));
    assert!(!contains_token("constant_t", "const"));
    assert!(!contains_token("my_const", "const"));
    assert!(!contains_token("const2", "const"));
    assert!(!contains_token("Xconst", "const"));
    assert!(!contains_token("cons t", "const"));
    assert!(!contains_token("", "const"));
    assert!(is_word('a') && is_word('Z') && is_word('0') && is_word('_'));
    assert!(!is_word(' ') && !is_word('*') && !is_word('é') && !is_word('('));
}

#[test]
fn white_space_around_a_text_is_taken_off() {
    assert_eq!(trim_text("  void \t"), "void");
    assert_eq!(trim_text("void"), "void");
    assert_eq!(trim_text(" a b "), "a b");
    assert_eq!(trim_text(" \n "), "");
    assert_eq!(trim_text(""), "");
    for text in ["  x", "x  ", "\u{a0}x\u{3000}", " \t\r\n", "a  b"] {
        assert_eq!(trim_text(text), text.trim());
    }
}

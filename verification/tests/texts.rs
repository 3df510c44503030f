use omp_manager::text::{
    chars_of, contains_char, decimal_text, is_white_space, join_texts, same_text,
    same_texts, split_at_each, strip_prefix, trim, with_suffix,
};

fn list(items: &[&str]) -> Vec<String> {
    items.iter().map(|item| item.to_string()).collect()
}

#[test]
fn white_space_is_that_of_unicode() {
    for code in 0..=0x10ffffu32 {
        if let Some(c) = char::from_u32(code) {
            assert_eq!(is_white_space(c), c.is_whitespace(), "{:?}", c);
        }
    }
}

#[test]
fn trimming_takes_white_space_from_both_ends_only() {
    for text in [
        "",
        " ",
        "\n\t \u{3000}",
        "plain",
        "  two words \r\n",
        "\u{a0}é ü\u{2028}",
        "x \u{200b}",
    ] {
        assert_eq!(trim(text), text.trim());
        assert_eq!(trim(trim(text)), trim(text));
    }
    assert_eq!(trim(" a b \n"), "a b");
}

#[test]
fn numbers_are_written_in_decimal() {
    for n in 0..=u16::MAX {
        assert_eq!(decimal_text(n), n.to_string());
    }
    assert_eq!(decimal_text(47821), "47821");
}

#[test]
fn splitting_and_joining_undo_each_other() {
    for text in ["", ":", "a", "a:b", ":a:", "a::b", "é:ü:"] {
        let pieces = split_at_each(text, ':');
        let expected: Vec<String> = text.split(':').map(|piece| piece.to_string()).collect();
        assert_eq!(pieces, expected);
        assert_eq!(join_texts(&pieces, ":"), text);
    }
    assert_eq!(join_texts(&Vec::new(), ", "), "");
    assert_eq!(join_texts(&list(&["a", "b", "c"]), ", "), "a, b, c");
    let pieces = list(&["x", "", "y"]);
    assert_eq!(split_at_each(&join_texts(&pieces, ":"), ':'), pieces);
}

#[test]
fn prefixes_are_stripped_where_they_stand() {
    assert_eq!(strip_prefix("npm:left-pad", "npm:"), Some("left-pad"));
    assert_eq!(strip_prefix("npm", "npm:"), None);
    assert_eq!(strip_prefix("mpn:x", "npm:"), None);
    assert_eq!(strip_prefix("éa", "é"), Some("a"));
    assert_eq!(strip_prefix("a", ""), Some("a"));
}

#[test]
fn texts_are_compared_and_searched() {
    assert!(same_text("é", "é"));
    assert!(!same_text("e", "é"));
    assert!(same_texts(&list(&["a", "b"]), &list(&["a", "b"])));
    assert!(!same_texts(&list(&["a", "b"]), &list(&["a"])));
    assert!(!same_texts(&list(&["a", "b"]), &list(&["a", "c"])));
    assert!(contains_char("a b", ' '));
    assert!(!contains_char("ab", ' '));
    assert_eq!(with_suffix("a", "é"), "aé");
    assert_eq!(chars_of("aé"), vec!['a', 'é']);
}

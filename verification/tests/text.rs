use roomchat::text::{
    chars_of, compare_text, concatenate, eq_ignore_ascii_case, insert_sorted, is_whitespace, join,
    join_range, same_text, strip_prefix, text_less, trim, TextOrder,
};

#[test]
fn whitespace_agrees_with_std_on_every_char() {
    for u in 0u32..=0x10ffff {
        if let Some(c) = char::from_u32(u) {
            assert_eq!(is_whitespace(c), c.is_whitespace(), "code point {:x}", u);
        }
    }
}

#[test]
fn trim_agrees_with_std() {
    let samples = [
        "",
        "   ",
        "abc",
        "  abc  ",
        "\t\n a b \r\n",
        "\u{3000}x\u{2028}",
        "\u{a0}\u{85}mid dle\u{205f}",
        "é ",
        " 日本 ",
        "\u{200b}zero width\u{200b}",
    ];
    for s in samples {
        assert_eq!(trim(s), s.trim().to_string(), "sample {:?}", s);
    }
}

#[test]
fn trim_twice_is_trim_once() {
    let once = trim("  \t hello world \n");
    assert_eq!(once, "hello world");
    assert_eq!(trim(&once), once);
}

#[test]
fn chars_of_lists_characters() {
    assert_eq!(chars_of("aé日"), vec!['a', 'é', '日']);
    assert!(chars_of("").is_empty());
}

#[test]
fn concat_appends() {
    assert_eq!(concatenate("ab", "cd"), "abcd");
    assert_eq!(concatenate("", "x"), "x");
}

#[test]
fn ignore_ascii_case_agrees_with_std() {
    let pairs = [
        ("Alice", "alice"),
        ("ALICE", "alicE"),
        ("alice", "alicf"),
        ("alice", "alic"),
        ("Émile", "émile"),
        ("Straße", "STRASSE"),
        ("a1_B", "A1_b"),
        ("", ""),
        ("[", "{"),
    ];
    for (a, b) in pairs {
        assert_eq!(eq_ignore_ascii_case(a, b), a.eq_ignore_ascii_case(b), "{:?} {:?}", a, b);
    }
}

#[test]
fn strip_prefix_cases() {
    assert_eq!(strip_prefix("/join room", "/join "), Some("room".to_string()));
    assert_eq!(strip_prefix("/join ", "/join "), Some(String::new()));
    assert_eq!(strip_prefix("/joi", "/join "), None);
    assert_eq!(strip_prefix("/leave", "/join "), None);
}

#[test]
fn join_with_separator() {
    let parts = vec!["a".to_string(), "bc".to_string(), "d".to_string()];
    assert_eq!(join(&parts, ", "), "a, bc, d");
    assert_eq!(join(&Vec::new(), ", "), "");
    assert_eq!(join_range(&parts, 1, 3, "\n"), "bc\nd");
    assert_eq!(join_range(&parts, 2, 2, "\n"), "");
}

#[test]
fn text_order_agrees_with_std() {
    let words = ["", "a", "b", "ab", "abc", "abd", "B", "é", "z", "日本", "aé"];
    for a in words {
        for b in words {
            let expected = a.cmp(b);
            let got = compare_text(a, b);
            match expected {
                std::cmp::Ordering::Less => assert!(matches!(got, TextOrder::Less)),
                std::cmp::Ordering::Equal => assert!(matches!(got, TextOrder::Equal)),
                std::cmp::Ordering::Greater => assert!(matches!(got, TextOrder::Greater)),
            }
            assert_eq!(text_less(a, b), a < b);
            assert_eq!(same_text(a, b), a == b);
        }
    }
}

#[test]
fn insert_sorted_keeps_order_and_drops_repeats() {
    let mut v: Vec<String> = Vec::new();
    for w in ["lobby", "rust", "art", "lobby", "zoo", "art"] {
        insert_sorted(&mut v, w.to_string());
    }
    assert_eq!(v, vec!["art", "lobby", "rust", "zoo"]);
}

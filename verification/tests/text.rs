use smart_rg::layout::{decimal_text, push_left, push_right, timestamp};
use smart_rg::order::{sort_texts, tally, text_less};
use smart_rg::paths::{extension_of, name_of};
use smart_rg::text::{
    chars_of, has_piece, is_whitespace, join_texts, replace_all, same_text, split_lines,
    split_text, split_words, string_of, trimmed, without_char, without_trailing,
};

const SAMPLES: [&str; 14] = [
    "",
    "a",
    "\n",
    "a\nb",
    "a\r\nb\r\n",
    "a\r\n\n\rb\r",
    "  a b\t c\u{a0}\u{3000}d ",
    "\u{2028}x\u{85}",
    "one,two,,three,",
    "</script></SCRIPT>",
    "aaa",
    "ab/cd/../é.rs",
    "ÄÖ 漢字",
    ",",
];

#[test]
fn white_space_is_unicodes() {
    for n in 0..=0x10ffffu32 {
        if let Some(c) = char::from_u32(n) {
            assert_eq!(is_whitespace(c), c.is_whitespace(), "U+{n:04X}");
        }
    }
}

#[test]
fn lines_words_and_pieces_are_those_of_str() {
    for s in SAMPLES {
        assert_eq!(split_lines(s), s.lines().collect::<Vec<_>>());
        assert_eq!(split_words(&chars_of(s)), s.split_whitespace().collect::<Vec<_>>());
        assert_eq!(split_text(s, ','), s.split(',').collect::<Vec<_>>());
        assert_eq!(string_of(&trimmed(&chars_of(s))), s.trim());
        assert_eq!(string_of(&chars_of(s)), s);
    }
}

#[test]
fn replacing_and_trimming_are_those_of_str() {
    for s in SAMPLES {
        assert_eq!(replace_all(s, "</", "<\\/"), s.replace("</", "<\\/"));
        assert_eq!(replace_all(s, "aa", "b"), s.replace("aa", "b"));
        assert_eq!(string_of(&without_trailing(&chars_of(s), 'a')), s.trim_end_matches('a'));
        assert_eq!(string_of(&without_char(&chars_of(s), 'a')), s.replace('a', ""));
        assert_eq!(has_piece(&chars_of(s), "/c"), s.contains("/c"));
        assert_eq!(has_piece(&chars_of(s), ""), s.contains(""));
    }
}

#[test]
fn the_order_of_texts_is_that_of_str() {
    for a in SAMPLES {
        for b in SAMPLES {
            assert_eq!(text_less(a, b), a < b, "{a:?} {b:?}");
            assert_eq!(same_text(a, b), a == b);
        }
    }
}

#[test]
fn sorting_leaves_each_text_once() {
    let list: Vec<String> = ["b", "a", "c", "a", "B"].iter().map(|s| s.to_string()).collect();
    assert_eq!(sort_texts(&list), vec!["B", "a", "b", "c"]);
    assert!(sort_texts(&[]).is_empty());
}

#[test]
fn a_tally_counts_every_text() {
    let list: Vec<String> = ["b", "a", "b", "b"].iter().map(|s| s.to_string()).collect();
    assert_eq!(tally(&list), vec![("a".to_string(), 1), ("b".to_string(), 3)]);
}

#[test]
fn joining_puts_the_separator_between() {
    let list: Vec<String> = ["a", "", "c"].iter().map(|s| s.to_string()).collect();
    assert_eq!(join_texts(&list, ","), "a,,c");
    assert_eq!(join_texts(&list[..1], ","), "a");
    assert_eq!(join_texts(&[], ","), "");
}

#[test]
fn numbers_are_written_in_decimal() {
    for n in [0, 7, 10, 99, 100, 12_345, u64::MAX] {
        assert_eq!(decimal_text(n), n.to_string());
    }
}

#[test]
fn columns_are_counted_in_characters() {
    let mut out = String::new();
    push_left(&mut out, "é", 3);
    push_right(&mut out, "7", 3, '.');
    push_left(&mut out, "too wide", 2);
    assert_eq!(out, "é  ..7too wide");
}

#[test]
fn a_moment_has_three_digits_of_milliseconds() {
    assert_eq!(timestamp(1_750_000_000, 7), "1750000000.007Z");
    assert_eq!(timestamp(0, 999), "0.999Z");
}

#[test]
fn file_names_and_extensions_are_those_of_path() {
    for s in [
        "a.rs", "src/a.tar.gz", "src/", "src//", "./a.rs", ".", "..", "a/..", "a/.", "a/./", "/",
        "", ".env", "src/.env", "a.", "a.b/c", "x/..hidden", "./.", "a/b.", "...", "é.漢",
        "/usr/bin/smart-rg", "smart-rg", "a/../b.py", "./", "a//b.c//.",
    ] {
        let path = std::path::Path::new(s);
        assert_eq!(name_of(s), path.file_name().map(|n| n.to_str().unwrap().to_string()), "{s:?}");
        assert_eq!(
            extension_of(s),
            path.extension().map(|n| n.to_str().unwrap().to_string()),
            "{s:?}"
        );
    }
}

#[test]
fn decimal_digits_read_back() {
    for n in [0u64, 9, 10, 1_000_007, u64::MAX] {
        assert_eq!(decimal_text(n).parse::<u64>(), Ok(n));
    }
}

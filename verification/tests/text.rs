use cmvp_checker::text::{
    bytes_len, collapse, concat_texts, contains_text, decimal_text, ends_with,
    eq_ignore_ascii_case, first_chars, is_text_le, is_white_space, join_texts,
    normalize_for_match, repeat_char, replace_form_feeds, slice_bytes, split_lines, split_words,
    starts_with, strip_prefix, to_ascii_lowercase, trim, trim_end, trim_start_set,
};

fn owned(texts: &[&str]) -> Vec<String> {
    texts.iter().map(|text| text.to_string()).collect()
}

#[test]
fn white_space_is_that_of_unicode() {
    for code in 0u32..=0x10ffff {
        if let Some(c) = char::from_u32(code) {
            assert_eq!(is_white_space(c), c.is_whitespace(), "{:x}", code);
        }
    }
}

#[test]
fn collapse_parts_words_by_one_space() {
    assert_eq!(collapse("  ML-KEM \u{a0} Key\t\nGen "), "ML-KEM Key Gen");
    assert_eq!(collapse(" \t "), "");
    let once = collapse(" a  b ");
    assert_eq!(collapse(&once), once);
    assert_eq!(trim(&once), once);
}

#[test]
fn words_have_no_white_space() {
    assert_eq!(split_words("a  bc\td"), owned(&["a", "bc", "d"]));
    assert_eq!(split_words(""), owned(&[]));
}

#[test]
fn lines_end_as_in_the_standard_library() {
    for text in ["", "\n", "a", "a\n", "a\r\nb\n\nc\r", "\r\n", "a\r", "x\ny\r\r\nz"] {
        let expected: Vec<String> = text.lines().map(str::to_string).collect();
        assert_eq!(split_lines(text), expected, "{:?}", text);
    }
}

#[test]
fn joined_lines_are_the_lines() {
    let lines = owned(&["ML-KEM KeyGen", "A6650", "Parameter sets"]);
    assert_eq!(split_lines(&join_texts(&lines, "\n")), lines);
}

#[test]
fn trimming_takes_white_space_from_both_ends() {
    for text in ["", "  ", " a b\u{2003}", "\ta", "b\n"] {
        assert_eq!(trim(text), text.trim());
        assert_eq!(trim_end(text), text.trim_end());
        assert_eq!(trim(&trim(text)), text.trim());
    }
    assert_eq!(trim_start_set(" -: ;x- ", " -:;,."), "x- ");
    assert_eq!(trim_start_set("EE12E", "E"), "12E");
}

#[test]
fn case_is_ignored_for_ascii_letters_alone() {
    assert!(eq_ignore_ascii_case("ml-kem", "ML-KEM"));
    assert!(!eq_ignore_ascii_case("\u{e4}", "\u{c4}"));
    assert!(!eq_ignore_ascii_case("ML-KEM", "ML-KEM "));
    assert_eq!(to_ascii_lowercase("A\u{c4}.PDF"), "a\u{c4}.pdf");
}

#[test]
fn normalizing_keeps_letters_and_digits() {
    assert_eq!(normalize_for_match("SHA2-256 (\u{e9})"), "sha2256");
    assert_eq!(normalize_for_match("sha2256"), "sha2256");
    assert_eq!(normalize_for_match("--"), "");
}

#[test]
fn texts_are_found_in_texts() {
    assert!(contains_text("mlkemkeygen", "kem"));
    assert!(contains_text("kem", ""));
    assert!(!contains_text("kem", "kemm"));
    assert!(starts_with("non-iid", "non"));
    assert!(!starts_with("no", "non"));
    assert!(ends_with("/a/b.pdf", ".pdf"));
    assert!(!ends_with("pdf", ".pdf"));
    assert_eq!(strip_prefix("Certificate #12", "Certificate #"), Some("12".to_string()));
    assert_eq!(strip_prefix("Certificate", "Certificate #"), None);
}

#[test]
fn numerals_read_back() {
    for n in [0usize, 9, 10, 99, 100, 1500, 987654321, usize::MAX] {
        assert_eq!(decimal_text(n), n.to_string());
        assert_eq!(decimal_text(n).parse::<usize>(), Ok(n));
    }
}

#[test]
fn texts_are_ordered_as_in_the_standard_library() {
    let texts = ["", "10", "9", "E1", "a", "ab", "\u{e9}", "\u{ffff}", "\u{10000}"];
    for a in texts {
        for b in texts {
            assert_eq!(is_text_le(a, b), a <= b, "{:?} {:?}", a, b);
        }
    }
}

#[test]
fn bytes_and_characters_are_told_apart() {
    assert_eq!(bytes_len("a\u{e9}\u{20ac}"), 6);
    assert_eq!(slice_bytes("a\u{e9}\u{20ac}b", 1, 6), "\u{e9}\u{20ac}");
    assert_eq!(first_chars("\u{20ac}\u{20ac}a", 2), "\u{20ac}\u{20ac}");
    assert_eq!(first_chars("ab", 5), "ab");
}

#[test]
fn small_pieces_are_put_together() {
    assert_eq!(repeat_char('-', 4), "----");
    assert_eq!(repeat_char(' ', 0), "");
    assert_eq!(replace_form_feeds("a\u{c}b\n"), "a\nb\n");
    assert_eq!(concat_texts(&owned(&["a", "", "b"])), "ab");
    assert_eq!(join_texts(&owned(&[]), ", "), "");
    assert_eq!(join_texts(&owned(&["a", "b"]), ", "), "a, b");
}

use zed_context_cleaner::chars::{char_vec, contains_text, text_of_chars};
use zed_context_cleaner::size_label::format_bytes;
use zed_context_cleaner::text::{
    byte_len, floor_char_boundary, joined, push_decimal, same_text, starts_with, truncate_utf8,
};

#[test]
fn a_text_that_fits_is_not_truncated() {
    assert_eq!(truncate_utf8("abc", 3), "abc");
    assert_eq!(truncate_utf8("", 0), "");
    assert_eq!(truncate_utf8("äöü", 6), "äöü");
}

#[test]
fn a_longer_text_keeps_the_prefix_that_fits() {
    assert_eq!(truncate_utf8("abcdef", 4), "abcd\n... [TRUNCATED: 2 bytes omitted]");
    assert_eq!(truncate_utf8("abcdef", 0), "\n... [TRUNCATED: 6 bytes omitted]");
}

#[test]
fn truncation_does_not_split_a_character() {
    // Each of these takes two, three and four bytes.
    assert_eq!(truncate_utf8("aäb", 2), "a\n... [TRUNCATED: 3 bytes omitted]");
    assert_eq!(truncate_utf8("€uro", 2), "\n... [TRUNCATED: 6 bytes omitted]");
    assert_eq!(truncate_utf8("€uro", 3), "€\n... [TRUNCATED: 3 bytes omitted]");
    assert_eq!(truncate_utf8("x😀y", 4), "x\n... [TRUNCATED: 5 bytes omitted]");
    assert_eq!(truncate_utf8("x😀y", 5), "x😀\n... [TRUNCATED: 1 bytes omitted]");
}

#[test]
fn a_truncated_text_can_be_longer_than_the_text() {
    let s = "x".repeat(11);
    assert!(truncate_utf8(&s, 10).len() > s.len());
}

#[test]
fn char_boundaries_are_rounded_down() {
    assert_eq!(floor_char_boundary("aäb", 0), 0);
    assert_eq!(floor_char_boundary("aäb", 1), 1);
    assert_eq!(floor_char_boundary("aäb", 2), 1);
    assert_eq!(floor_char_boundary("aäb", 3), 3);
    assert_eq!(floor_char_boundary("aäb", 99), 4);
    assert_eq!(floor_char_boundary("😀", 3), 0);
}

#[test]
fn numerals_are_decimal() {
    let mut s = String::from("n=");
    push_decimal(&mut s, 0);
    s.push(' ');
    push_decimal(&mut s, 1234567890);
    assert_eq!(s, "n=0 1234567890");
    let mut max = String::new();
    push_decimal(&mut max, usize::MAX);
    assert_eq!(max, usize::MAX.to_string());
}

#[test]
fn texts_are_compared_and_joined() {
    assert!(same_text("añb", "añb"));
    assert!(!same_text("a", "b"));
    assert!(!same_text("a", "ab"));
    assert!(starts_with("iVBORxyz", "iVBOR"));
    assert!(starts_with("x", ""));
    assert!(!starts_with("iVB", "iVBOR"));
    assert_eq!(joined("ab", "cd"), "abcd");
    assert_eq!(byte_len("€"), 3);
}

#[test]
fn a_text_is_found_inside_another() {
    assert!(contains_text("hello world", "lo w"));
    assert!(contains_text("hello", ""));
    assert!(contains_text("", ""));
    assert!(contains_text("aab", "ab"));
    assert!(contains_text("größe", "öß"));
    assert!(!contains_text("hello", "world"));
    assert!(!contains_text("ab", "abc"));
    assert_eq!(char_vec("a€b"), vec!['a', '€', 'b']);
    assert_eq!(text_of_chars(&vec!['a', '€', 'b'], 1, 3), "€b");
}

#[test]
fn sizes_read_as_bytes_kilobytes_and_megabytes() {
    assert_eq!(format_bytes(0), "0 B");
    assert_eq!(format_bytes(1023), "1023 B");
    assert_eq!(format_bytes(1024), "1.0 KB");
    assert_eq!(format_bytes(1536), "1.5 KB");
    assert_eq!(format_bytes(1024 * 1024 - 1), "1024.0 KB");
    assert_eq!(format_bytes(1024 * 1024), "1.0 MB");
    assert_eq!(format_bytes(12_902_400), "12.3 MB");
}

#[test]
fn sizes_are_rounded_as_doubles_are() {
    let by_doubles = |n: usize| {
        if n < 1024 {
            format!("{} B", n)
        } else if n < 1024 * 1024 {
            format!("{:.1} KB", n as f64 / 1024.0)
        } else {
            format!("{:.1} MB", n as f64 / (1024.0 * 1024.0))
        }
    };
    for n in 0..20_000usize {
        assert_eq!(format_bytes(n), by_doubles(n));
    }
    let mut n: usize = 1;
    while n < usize::MAX / 7 {
        for d in 0..3 {
            assert_eq!(format_bytes(n + d), by_doubles(n + d));
        }
        n = n * 7 / 3 + 1;
    }
    assert_eq!(format_bytes(usize::MAX), by_doubles(usize::MAX));
}

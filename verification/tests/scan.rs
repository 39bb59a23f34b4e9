use test_runner::byte_utils::{trim_space, trim_space_end, trim_space_start};
use test_runner::scan::{
    advance, bytes_eq, ends_with, find, find2_from, find_from, find_nth_from, parse_u32,
    read_between, rfind, starts_with, str_eq, text, to_lowercase,
};

#[test]
fn trim_removes_spaces_only() {
    assert_eq!(trim_space_start(b"   a b  "), b"a b  ");
    assert_eq!(trim_space_end(b"   a b  "), b"   a b");
    assert_eq!(trim_space(b"   a b  "), b"a b");
    assert_eq!(trim_space(b"\t a \t"), b"\t a \t");
    assert_eq!(trim_space(b" \n "), b"\n");
}

#[test]
fn trim_of_blank_and_empty() {
    assert_eq!(trim_space_start(b""), b"");
    assert_eq!(trim_space_end(b""), b"");
    assert_eq!(trim_space(b""), b"");
    assert_eq!(trim_space_start(b"    "), b"");
    assert_eq!(trim_space_end(b"    "), b"");
    assert_eq!(trim_space(b"    "), b"");
    assert_eq!(trim_space(b"x"), b"x");
}

#[test]
fn trim_space_is_both_trims() {
    let inputs: [&[u8]; 5] = [b"", b"  ", b" a", b"a ", b"  a  b  "];
    for input in inputs {
        assert_eq!(trim_space(input), trim_space_end(trim_space_start(input)));
        assert_eq!(trim_space(input), trim_space_start(trim_space_end(input)));
    }
}

#[test]
fn find_gives_first_occurrence() {
    assert_eq!(find(b'k', b"the quick brown fox"), Some(8));
    assert_eq!(find(b'o', b"the quick brown fox"), Some(12));
    assert_eq!(find(b'z', b"the quick brown fox"), None);
    assert_eq!(find(b'a', b""), None);
}

#[test]
fn find_from_gives_absolute_offsets() {
    assert_eq!(find_from(b'o', b"the quick brown fox", 13), Some(17));
    assert_eq!(find_from(b'o', b"the quick brown fox", 12), Some(12));
    assert_eq!(find_from(b'o', b"the quick brown fox", 18), None);
    assert_eq!(find_from(b'o', b"the quick brown fox", 19), None);
}

#[test]
fn rfind_gives_last_occurrence() {
    assert_eq!(rfind(b'o', b"the quick brown fox"), Some(17));
    assert_eq!(rfind(b't', b"the quick brown fox"), Some(0));
    assert_eq!(rfind(b'z', b"the quick brown fox"), None);
}

#[test]
fn find2_gives_first_of_either() {
    assert_eq!(find2_from(b'k', b'q', b"the quick brown fox", 0), Some(4));
    assert_eq!(find2_from(b'k', b'q', b"the quick brown fox", 5), Some(8));
    assert_eq!(find2_from(b'k', b'q', b"the quick brown fox", 9), None);
}

#[test]
fn find_nth_counts_from_zero() {
    let line = b"a:b:c:d";
    assert_eq!(find_nth_from(b':', line, 0, 0), Some(1));
    assert_eq!(find_nth_from(b':', line, 0, 1), Some(3));
    assert_eq!(find_nth_from(b':', line, 0, 2), Some(5));
    assert_eq!(find_nth_from(b':', line, 0, 3), None);
    assert_eq!(find_nth_from(b':', line, 2, 1), Some(5));
}

#[test]
fn advance_stays_within_length() {
    assert_eq!(advance(10, 3, 2), Some(5));
    assert_eq!(advance(10, 8, 2), Some(10));
    assert_eq!(advance(10, 9, 2), None);
    assert_eq!(advance(usize::MAX, usize::MAX, 1), None);
}

#[test]
fn decimal_numbers() {
    assert_eq!(parse_u32(b"0"), Some(0));
    assert_eq!(parse_u32(b"18"), Some(18));
    assert_eq!(parse_u32(b"007"), Some(7));
    assert_eq!(parse_u32(b"+42"), Some(42));
    assert_eq!(parse_u32(b"4294967295"), Some(u32::MAX));
    assert_eq!(parse_u32(b"4294967296"), None);
    assert_eq!(parse_u32(b"99999999999999999999999"), None);
    assert_eq!(parse_u32(b""), None);
    assert_eq!(parse_u32(b"+"), None);
    assert_eq!(parse_u32(b"-1"), None);
    assert_eq!(parse_u32(b"1 "), None);
    assert_eq!(parse_u32(b" 1"), None);
    assert_eq!(parse_u32(b"1a"), None);
    assert_eq!(parse_u32(b"++1"), None);
}

#[test]
fn decimal_numbers_agree_with_std() {
    let inputs: [&str; 9] = ["", "+", "0", "+0", "12", "4294967295", "4294967296", "1_0", "0x10"];
    for input in inputs {
        assert_eq!(parse_u32(input.as_bytes()), input.parse::<u32>().ok(), "{input}");
    }
}

#[test]
fn prefixes_and_suffixes() {
    assert!(starts_with(b"=== a.ts ===", b"=== "));
    assert!(!starts_with(b"== a.ts ===", b"=== "));
    assert!(!starts_with(b"==", b"=== "));
    assert!(starts_with(b"abc", b""));
    assert!(ends_with(b"=== a.ts ===", b" ==="));
    assert!(!ends_with(b"=== a.ts ==", b" ==="));
    assert!(ends_with(b"abc", b"abc"));
    assert!(!ends_with(b"bc", b"abc"));
}

#[test]
fn equality_of_bytes_and_text() {
    assert!(bytes_eq(b"abc", b"abc"));
    assert!(!bytes_eq(b"abc", b"abd"));
    assert!(!bytes_eq(b"abc", b"ab"));
    assert!(bytes_eq(b"", b""));
    assert!(str_eq("a.ts", "a.ts"));
    assert!(!str_eq("a.ts", "b.ts"));
    assert!(!str_eq("a.ts", "a.tsx"));
}

#[test]
fn lower_case_of_ascii_letters_only() {
    assert_eq!(to_lowercase(b"FileName"), b"filename".to_vec());
    assert_eq!(to_lowercase(b"@[`{AZaz09"), b"@[`{azaz09".to_vec());
    assert_eq!(to_lowercase("\u{c4}".as_bytes()), "\u{c4}".as_bytes().to_vec());
    assert_eq!(to_lowercase(b""), Vec::<u8>::new());
}

#[test]
fn text_is_checked_utf8() {
    assert_eq!(text(b"const a = 5;"), Some("const a = 5;"));
    assert_eq!(text("\u{fc}\u{1D4F1}".as_bytes()), Some("\u{fc}\u{1D4F1}"));
    assert_eq!(text(b""), Some(""));
    assert_eq!(text(b"\xff"), None);
    assert_eq!(text(b"a\xc3"), None);
    assert_eq!(text(b"\xed\xa0\x80"), None);
}

#[test]
fn text_between_offsets() {
    let data = "a\u{fc}b".as_bytes();
    assert_eq!(read_between(data, 0, 4), Some("a\u{fc}b"));
    assert_eq!(read_between(data, 1, 3), Some("\u{fc}"));
    assert_eq!(read_between(data, 2, 2), Some(""));
    assert_eq!(read_between(data, 1, 2), None);
    assert_eq!(read_between(data, 3, 2), None);
    assert_eq!(read_between(data, 0, 5), None);
}

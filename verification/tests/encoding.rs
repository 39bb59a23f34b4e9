use test_runner::encoding::{code_units, decode, detect, has_whole_units, DecodeError, Encoding};

#[test]
fn byte_order_marks() {
    assert_eq!(detect(b"let x;"), Encoding::Utf8);
    assert_eq!(detect(b""), Encoding::Utf8);
    assert_eq!(detect(b"\xef\xbb\xbflet x;"), Encoding::Utf8Bom);
    assert_eq!(detect(b"\xef\xbb\xbf"), Encoding::Utf8Bom);
    assert_eq!(detect(b"\xef\xbb"), Encoding::Utf8);
    assert_eq!(detect(b"\xfe\xff\x00a"), Encoding::Utf16Be);
    assert_eq!(detect(b"\xff\xfea\x00"), Encoding::Utf16Le);
    assert_eq!(detect(b"\xfe\xff"), Encoding::Utf8);
    assert_eq!(detect(b"\xff\xfe"), Encoding::Utf8);
    assert_eq!(detect(b"\xff\xff\xfe"), Encoding::Utf8);
}

#[test]
fn code_units_in_both_byte_orders() {
    assert_eq!(code_units(b"\x00a\x12\x34", true), vec![0x0061, 0x1234]);
    assert_eq!(code_units(b"\x00a\x12\x34", false), vec![0x6100, 0x3412]);
    assert_eq!(code_units(b"\xff\xff", true), vec![0xffff]);
    assert_eq!(code_units(b"", true), Vec::<u16>::new());
}

#[test]
fn text_in_utf8() {
    assert_eq!(decode(b"let x;"), Ok("let x;".to_string()));
    assert_eq!(decode(b""), Ok(String::new()));
    assert_eq!(decode("\u{feff}let \u{fc};".as_bytes()), Ok("let \u{fc};".to_string()));
    assert_eq!(decode(b"\xef\xbb\xbf"), Ok(String::new()));
    assert_eq!(decode(b"let \xff;"), Err(DecodeError::Utf8));
    assert_eq!(decode(b"\xef\xbb\xbf\xff"), Err(DecodeError::Utf8));
    assert_eq!(decode(b"\xfe\xff"), Err(DecodeError::Utf8));
}

#[test]
fn text_in_utf16() {
    assert_eq!(decode(b"\xfe\xff\x00a\x00b"), Ok("ab".to_string()));
    assert_eq!(decode(b"\xff\xfea\x00b\x00"), Ok("ab".to_string()));
    assert_eq!(decode(b"\xff\xfe\x35\xd8\xf1\xdc"), Ok("\u{1D4F1}".to_string()));
    assert_eq!(decode(b"\xfe\xff\xd8\x35\xdc\xf1"), Ok("\u{1D4F1}".to_string()));
    assert_eq!(decode(b"\xff\xfe\x35\xd8"), Err(DecodeError::Utf16));
}

#[test]
fn files_in_utf16_have_whole_code_units() {
    assert!(has_whole_units(b"\xfe\xff\x00a"));
    assert!(!has_whole_units(b"\xfe\xff\x00"));
    assert!(!has_whole_units(b"\xff\xfea\x00b"));
    assert!(has_whole_units(b"\xff\xfea\x00"));
    assert!(has_whole_units(b"abc"));
    assert!(has_whole_units(b"\xef\xbb\xbfa"));
    assert!(has_whole_units(b"\xfe\xff"));
}

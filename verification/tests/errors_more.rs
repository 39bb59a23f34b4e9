use std::{path::PathBuf, str::FromStr};

use test_runner::baseline::errors_baseline::{ConfigError, ErrorsBaseline, FileError};

fn path() -> PathBuf {
    PathBuf::from_str("tests/baselines/reference/unit1.errors.txt").unwrap()
}

fn error<'a>(
    file: &'a str,
    loc: Option<(u32, u32)>,
    length: Option<u32>,
    code: &'a str,
    message: &'a str,
) -> FileError<'a> {
    FileError { file, loc, length, code, message, hint: vec![], related: vec![] }
}

#[test]
fn config_error_line() {
    assert_eq!(
        ConfigError::try_parse(b"error TS5102: Option 'x' has been removed."),
        Some(ConfigError { code: "5102", message: "Option 'x' has been removed.", hint: vec![] })
    );
    assert_eq!(
        ConfigError::try_parse(b"error TS1:"),
        None
    );
    assert_eq!(
        ConfigError::try_parse(b"error TS1: "),
        Some(ConfigError { code: "1", message: "", hint: vec![] })
    );
    assert_eq!(ConfigError::try_parse(b"error TS5102 no colon"), None);
    assert_eq!(ConfigError::try_parse(b"error"), None);
    assert_eq!(ConfigError::try_parse(b"error TS\xff: message"), None);
}

#[test]
fn file_error_line() {
    assert_eq!(
        FileError::try_parse(b"a.ts(2,18): error TS1440: Variable declaration not allowed."),
        Some(error("a.ts", Some((2, 18)), None, "1440", "Variable declaration not allowed."))
    );
    assert_eq!(
        FileError::try_parse(b"dir/a b.ts(+2,018): error TS1: m: n"),
        Some(error("dir/a b.ts", Some((2, 18)), None, "1", "m: n"))
    );
}

#[test]
fn file_error_without_line_number_has_no_location() {
    assert_eq!(
        FileError::try_parse(b"a.ts(x,18): error TS1440: message"),
        Some(error("a.ts", None, None, "1440", "message"))
    );
    assert_eq!(
        FileError::try_parse(b"a.ts(,): error TS1440: message"),
        Some(error("a.ts", None, None, "1440", "message"))
    );
}

#[test]
fn file_error_line_that_is_malformed() {
    assert_eq!(FileError::try_parse(b"a.ts 2,18: error TS1440: message"), None);
    assert_eq!(FileError::try_parse(b"a.ts(2 18): error TS1440: message"), None);
    assert_eq!(FileError::try_parse(b"a.ts(2,18: error TS1440 message"), None);
    assert_eq!(FileError::try_parse(b"a.ts(2,x): error TS1440: message"), None);
    assert_eq!(FileError::try_parse(b"a.ts(2,18)"), None);
    assert_eq!(FileError::try_parse(b"a.ts(2,18): error TS1440"), None);
    assert_eq!(FileError::try_parse(b"a.ts(2,18): error TS1440:"), None);
    assert_eq!(FileError::try_parse(b"a.ts(2,4294967296): error TS1440: message"), None);
    assert_eq!(FileError::try_parse(b"\xff.ts(2,18): error TS1440: message"), None);
}

#[test]
fn related_annotation_with_its_own_place() {
    let parent = error("a.ts", Some((1, 8)), Some(3), "1259", "parent");
    assert_eq!(
        FileError::try_parse_related(b"!!! related TS2594 b.d.ts:4:1: This module is declared.", &parent),
        Some(error("b.d.ts", Some((4, 1)), None, "2594", "This module is declared."))
    );
    assert_eq!(
        FileError::try_parse_related(b"!!! related TS2594 b.d.ts:x:1: text", &parent),
        Some(error("b.d.ts", None, None, "2594", "text"))
    );
    assert_eq!(FileError::try_parse_related(b"!!! related TS2594 b.d.ts:4:1", &parent), None);
    assert_eq!(FileError::try_parse_related(b"!!! related TS2594 b.d.ts:4:y: text", &parent), None);
    assert_eq!(FileError::try_parse_related(b"!!! related", &parent), None);
    assert_eq!(FileError::try_parse_related(b"!!! related TS2594", &parent), None);
}

#[test]
fn related_annotation_at_the_place_of_its_parent() {
    let parent = error("a.ts", Some((1, 27)), Some(3), "1532", "parent");
    assert_eq!(
        FileError::try_parse_related(b"!!! related TS1369: Did you mean 'foo'?", &parent),
        Some(error("a.ts", Some((1, 27)), Some(3), "1369", "Did you mean 'foo'?"))
    );
    let parent = error("a.ts", None, None, "1532", "parent");
    assert_eq!(
        FileError::try_parse_related(b"!!! related TS1369: text", &parent),
        Some(error("a.ts", None, None, "1369", "text"))
    );
}

#[test]
fn pretty_head() {
    let line = b"\x1b[96mindex.ts\x1b[0m:\x1b[93m3\x1b[0m:\x1b[93m8\x1b[0m - \x1b[91merror\x1b[0m\x1b[90m TS2345: \x1b[0mArgument of type.";
    assert_eq!(
        FileError::try_parse_pretty(line),
        Some(error("index.ts", Some((3, 8)), None, "2345", "Argument of type."))
    );
    assert_eq!(FileError::try_parse_pretty(b"\x1b[96mindex.ts\x1b[0m:\x1b[93m3\x1b[0m"), None);
    assert_eq!(FileError::try_parse_pretty(b"\x1b[9"), None);
}

#[test]
fn pretty_related_block() {
    let head = b"  \x1b[96mindex.ts\x1b[0m:\x1b[93m1\x1b[0m:\x1b[93m11\x1b[0m";
    let underline = b"    \x1b[7m \x1b[0m \x1b[96m          ~\x1b[0m";
    let message = b"    The parser expected to find a '}'.";
    assert_eq!(
        FileError::try_parse_pretty_related(head, underline, message),
        Some(error("index.ts", Some((1, 11)), Some(1), "", "The parser expected to find a '}'."))
    );
    let wide = b"    \x1b[7m   \x1b[0m \x1b[96m          ~~~~\x1b[0m";
    assert_eq!(
        FileError::try_parse_pretty_related(head, wide, message),
        Some(error("index.ts", Some((1, 11)), Some(4), "", "The parser expected to find a '}'."))
    );
    let none = b"    \x1b[7m \x1b[0m \x1b[96m\x1b[0m";
    assert_eq!(
        FileError::try_parse_pretty_related(head, none, message),
        Some(error("index.ts", Some((1, 11)), None, "", "The parser expected to find a '}'."))
    );
    let short = b"    \x1b[7m \x1b[0m \x1b[96m  ~\x1b[0m";
    assert_eq!(FileError::try_parse_pretty_related(head, short, message), None);
    assert_eq!(FileError::try_parse_pretty_related(head, underline, b"abc"), None);
}

#[test]
fn empty_data_is_no_baseline() {
    assert!(!ErrorsBaseline::accepts(b""));
    assert_eq!(ErrorsBaseline::try_parse(&path(), b""), None);
}

#[test]
fn summary_has_to_end_with_two_empty_lines() {
    let ok = b"a.ts(1,1): error TS1: m\n\n\n";
    assert!(ErrorsBaseline::accepts(ok));
    assert!(!ErrorsBaseline::accepts(b"a.ts(1,1): error TS1: m\n\nx\n"));
    assert!(!ErrorsBaseline::accepts(b"a.ts(1,1): error TS1: m\n"));
    assert!(!ErrorsBaseline::accepts(b"a.ts(1,1): error TS1: m"));
    assert!(ErrorsBaseline::accepts(b"a.ts(1,1): error TS1: m\n\n"));
}

#[test]
fn summary_without_sections() {
    let baseline = ErrorsBaseline::parse(&path(), b"error TS5: c\na.ts(1,2): error TS1: m\n  hint\n\n\n");
    assert_eq!(
        baseline,
        ErrorsBaseline {
            config_errors: vec![ConfigError { code: "5", message: "c", hint: vec![] }],
            file_errors: vec![FileError {
                file: "a.ts",
                loc: Some((1, 2)),
                length: None,
                code: "1",
                message: "m",
                hint: vec![(1, "hint")],
                related: vec![]
            }]
        }
    );
}

#[test]
fn config_errors_come_before_file_errors() {
    assert!(!ErrorsBaseline::accepts(b"a.ts(1,1): error TS1: m\nerror TS5: c\n\n\n"));
    assert!(ErrorsBaseline::accepts(b"error TS5: c\nerror TS6: d\na.ts(1,1): error TS1: m\n\n\n"));
}

#[test]
fn hint_needs_an_error_before_it() {
    assert!(!ErrorsBaseline::accepts(b"  hint\n\n\n"));
}

#[test]
fn hints_of_config_errors_and_depth() {
    let baseline = ErrorsBaseline::parse(&path(), b"error TS5: c\n hint0\n      hint3\n       hint3 too\n\n\n");
    assert_eq!(
        baseline.config_errors,
        vec![ConfigError {
            code: "5",
            message: "c",
            hint: vec![(0, "hint0"), (3, "hint3"), (3, "hint3 too")]
        }]
    );
}

#[test]
fn hint_depth_is_kept_in_a_byte() {
    let mut data = b"error TS5: c\n".to_vec();
    data.extend(std::iter::repeat(b' ').take(514));
    data.extend_from_slice(b"deep\n\n\n");
    let baseline = ErrorsBaseline::parse(&path(), &data);
    assert_eq!(baseline.config_errors[0].hint, vec![(1, "deep")]);
}

#[test]
fn errors_have_to_be_grouped_by_file() {
    let grouped = b"a.ts(1,1): error TS1: m\nb.ts(1,1): error TS1: m\n\n\n==== a.ts (1 errors) ====\n    x\n    ~\n!!! error TS1: m\n";
    assert!(ErrorsBaseline::accepts(grouped));
    let mixed = b"b.ts(1,1): error TS1: m\na.ts(1,1): error TS1: m\n\n\n==== a.ts (1 errors) ====\n    x\n    ~\n!!! error TS1: m\n";
    assert!(!ErrorsBaseline::accepts(mixed));
    let split = b"a.ts(1,1): error TS1: m\nb.ts(1,1): error TS1: m\na.ts(2,1): error TS1: m\n\n\n==== a.ts (2 errors) ====\n    x\n";
    assert!(!ErrorsBaseline::accepts(split));
}

#[test]
fn section_name_without_leading_dot_slash() {
    let data = b"a.ts(1,1): error TS1: m\n\n\n==== ./a.ts (1 errors) ====\n    x\n    ~~\n!!! error TS1: m\n";
    let baseline = ErrorsBaseline::parse(&path(), data);
    assert_eq!(baseline.file_errors, vec![error("a.ts", Some((1, 1)), Some(2), "1", "m")]);
}

#[test]
fn section_line_that_is_malformed() {
    assert!(!ErrorsBaseline::accepts(b"a.ts(1,1): error TS1: m\n\n\n====\n"));
    assert!(!ErrorsBaseline::accepts(b"a.ts(1,1): error TS1: m\n\n\n==== a.ts\n"));
    assert!(!ErrorsBaseline::accepts(b"a.ts(1,1): error TS1: m\n\n\n==== \xff.ts (1 errors) ====\n"));
}

#[test]
fn underline_length_formula() {
    // column 3 starts at offset 6 of the indented line; the last tilde at
    // offset 9 ends a span of 9 - 2 - 3 = 4 columns
    let data = b"a.ts(1,3): error TS1: m\n\n\n==== a.ts (1 errors) ====\n    abcdefgh\n      ~~~~\n!!! error TS1: m\n";
    let baseline = ErrorsBaseline::parse(&path(), data);
    assert_eq!(baseline.file_errors[0].length, Some(4));
    assert_eq!(baseline.file_errors[0].loc, Some((1, 3)));
}

#[test]
fn underline_left_of_the_column_is_rejected() {
    let data = b"a.ts(1,9): error TS1: m\n\n\n==== a.ts (1 errors) ====\n    abcdefgh\n      ~~~~\n!!! error TS1: m\n";
    assert!(!ErrorsBaseline::accepts(data));
}

#[test]
fn underline_without_tilde_gives_no_length() {
    let data = b"a.ts(1,3): error TS1: m\n\n\n==== a.ts (1 errors) ====\n    abcdefgh\n\n!!! error TS1: m\n";
    let baseline = ErrorsBaseline::parse(&path(), data);
    assert_eq!(baseline.file_errors[0].length, None);
    assert_eq!(baseline.file_errors[0].loc, Some((1, 3)));
}

#[test]
fn span_over_several_lines_has_no_length() {
    let data = b"a.ts(1,3): error TS1: m\n\n\n==== a.ts (1 errors) ====\n    abcdefgh\n      ~~~~~~\n    ij\n    ~~\n!!! error TS1: m\n    kl\n";
    let baseline = ErrorsBaseline::parse(&path(), data);
    assert_eq!(baseline.file_errors, vec![error("a.ts", Some((1, 3)), None, "1", "m")]);
}

#[test]
fn error_without_location_cannot_be_placed() {
    let data = b"a.ts(x,3): error TS1: m\n\n\n==== a.ts (1 errors) ====\n    abcdefgh\n      ~~~~\n!!! error TS1: m\n";
    assert!(!ErrorsBaseline::accepts(data));
}

#[test]
fn underline_has_to_be_followed_by_a_line() {
    let data = b"a.ts(1,3): error TS1: m\n\n\n==== a.ts (1 errors) ====\n    abcdefgh\n      ~~~~";
    assert!(!ErrorsBaseline::accepts(data));
    let data = b"a.ts(1,3): error TS1: m\n\n\n==== a.ts (1 errors) ====\n    abcdefgh";
    assert!(!ErrorsBaseline::accepts(data));
}

#[test]
fn annotation_that_is_too_short_is_rejected() {
    let data = b"a.ts(1,3): error TS1: m\n\n\n==== a.ts (1 errors) ====\n    abcdefgh\n      ~~~~\n!!!\n";
    assert!(!ErrorsBaseline::accepts(data));
}

#[test]
fn related_annotations_in_plain_rendering_are_counted() {
    let data = b"a.ts(1,3): error TS1: m\n\n\n==== a.ts (1 errors) ====\n    abcdefgh\n      ~~~~\n!!! error TS1: m\n!!! related TS2 b.ts:1:1: one\n!!! error TS1: more\n!!! related TS3: two\n    x\n";
    let baseline = ErrorsBaseline::parse(&path(), data);
    assert_eq!(
        baseline.file_errors[0].related,
        vec![
            error("b.ts", Some((1, 1)), None, "2", "one"),
            error("a.ts", Some((1, 3)), Some(4), "3", "two")
        ]
    );
}

fn pretty_with_related(annotations: &str) -> Vec<u8> {
    let mut data = String::new();
    data.push_str("\x1b[96mindex.ts\x1b[0m:\x1b[93m2\x1b[0m:\x1b[93m1\x1b[0m - \x1b[91merror\x1b[0m\x1b[90m TS1005: \x1b[0m'}' expected.\n");
    data.push_str("\n\x1b[7m2\x1b[0m \n\x1b[7m \x1b[0m \x1b[91m\x1b[0m\n\n");
    data.push_str("  \x1b[96mindex.ts\x1b[0m:\x1b[93m1\x1b[0m:\x1b[93m11\x1b[0m\n");
    data.push_str("    \x1b[7m1\x1b[0m if (true) {\n");
    data.push_str("    \x1b[7m \x1b[0m \x1b[96m          ~\x1b[0m\n");
    data.push_str("    The parser expected to find a '}' to match the '{' token here.\n");
    data.push_str("\n\n==== index.ts (1 errors) ====\n    if (true) {\n    \n");
    data.push_str(annotations);
    data.into_bytes()
}

#[test]
fn related_annotations_in_pretty_rendering_have_to_match() {
    let one = pretty_with_related("!!! error TS1005: '}' expected.\n!!! related TS1007 index.ts:1:11: The parser expected.\n");
    let baseline = ErrorsBaseline::parse(&path(), &one);
    assert_eq!(baseline.file_errors.len(), 1);
    assert_eq!(baseline.file_errors[0].related.len(), 1);
    assert_eq!(baseline.file_errors[0].related[0].code, "1007");
    assert_eq!(baseline.file_errors[0].related[0].length, Some(1));
    assert_eq!(baseline.file_errors[0].length, None);
    assert_eq!(baseline.file_errors[0].loc, Some((2, 1)));

    let none = pretty_with_related("!!! error TS1005: '}' expected.\n");
    assert!(!ErrorsBaseline::accepts(&none));
    let two = pretty_with_related("!!! error TS1005: '}' expected.\n!!! related TS1007 index.ts:1:11: a\n!!! related TS1008 index.ts:1:11: b\n");
    assert!(!ErrorsBaseline::accepts(&two));
}

#[test]
fn pretty_rendering_is_told_by_the_escape_character() {
    let plain = b"a.ts(1,1): error TS1: m\n\n\n";
    assert_eq!(ErrorsBaseline::try_parse_formatted(plain).map(|b| b.file_errors.len()), Some(0));
    assert_eq!(ErrorsBaseline::parse(&path(), plain).file_errors.len(), 1);
    let pretty = pretty_with_related("!!! error TS1005: '}' expected.\n!!! related TS1007 index.ts:1:11: x\n");
    assert_eq!(ErrorsBaseline::try_parse_formatted(&pretty), Some(ErrorsBaseline::parse(&path(), &pretty)));
}

#[test]
fn pretty_diagnostics_that_follow_each_other_at_once() {
    let mut data = String::new();
    for (line, code) in [(1, "1"), (2, "2")] {
        data.push_str(&format!("\x1b[96ma.ts\x1b[0m:\x1b[93m{line}\x1b[0m:\x1b[93m1\x1b[0m - \x1b[91merror\x1b[0m\x1b[90m TS{code}: \x1b[0mm{code}\n"));
        data.push_str(&format!("\n\x1b[7m{line}\x1b[0m x\n\x1b[7m \x1b[0m \x1b[91m~\x1b[0m\n"));
    }
    data.push_str("\n\n==== a.ts (2 errors) ====\n    x\n    ~\n!!! error TS1: m1\n    y\n    ~\n!!! error TS2: m2\n");
    let baseline = ErrorsBaseline::parse(&path(), data.as_bytes());
    assert_eq!(
        baseline.file_errors,
        vec![
            error("a.ts", Some((1, 1)), Some(1), "1", "m1"),
            error("a.ts", Some((2, 1)), Some(1), "2", "m2")
        ]
    );
}

#[test]
fn errors_try_parse_agrees_with_parse() {
    let data = b"a.ts(1,3): error TS1: m\n\n\n==== a.ts (1 errors) ====\n    abcdefgh\n      ~~~~\n!!! error TS1: m\n";
    assert_eq!(ErrorsBaseline::try_parse(&path(), data), Some(ErrorsBaseline::parse(&path(), data)));
    assert_eq!(ErrorsBaseline::default(), ErrorsBaseline { config_errors: vec![], file_errors: vec![] });
}

#[test]
fn one_file_error_without_hints_or_related() {
    let data = b"ClassDeclaration26.ts(2,18): error TS1440: Variable declaration not allowed at this location.\n\n\n==== ClassDeclaration26.ts (1 errors) ====\n    class C {\n        public const var export foo = 10;\n                     ~~~\n!!! error TS1440: Variable declaration not allowed at this location.\n    }\n";
    let baseline = ErrorsBaseline::parse(&path(), data);
    assert_eq!(
        baseline,
        ErrorsBaseline {
            config_errors: vec![],
            file_errors: vec![FileError {
                file: "ClassDeclaration26.ts",
                loc: Some((2, 18)),
                length: Some(3),
                code: "1440",
                message: "Variable declaration not allowed at this location.",
                hint: vec![],
                related: vec![]
            }]
        }
    );
}

#[test]
fn well_formed_lines_are_parsed_directly() {
    let path = path();
    assert_eq!(
        FileError::parse(&path, b"a.ts(12,3): error TS1005: ',' expected."),
        error("a.ts", Some((12, 3)), None, "1005", "',' expected.")
    );
    assert_eq!(
        ConfigError::parse(&path, b"error TS5102: Option 'x' has been removed."),
        ConfigError { code: "5102", message: "Option 'x' has been removed.", hint: vec![] }
    );
    let parent = error("a.ts", Some((1, 27)), Some(3), "1532", "parent");
    assert_eq!(
        FileError::parse_related(&path, b"!!! related TS2594 b.d.ts:4:1: text", &parent),
        error("b.d.ts", Some((4, 1)), None, "2594", "text")
    );
    assert_eq!(
        FileError::parse_related(&path, b"!!! related TS1369: Did you mean 'foo'?", &parent),
        error("a.ts", Some((1, 27)), Some(3), "1369", "Did you mean 'foo'?")
    );
    assert_eq!(
        FileError::parse_pretty(
            &path,
            b"\x1b[96mindex.ts\x1b[0m:\x1b[93m3\x1b[0m:\x1b[93m8\x1b[0m - \x1b[91merror\x1b[0m\x1b[90m TS2345: \x1b[0mArgument of type."
        ),
        error("index.ts", Some((3, 8)), None, "2345", "Argument of type.")
    );
    assert_eq!(
        FileError::parse_pretty_related(
            &path,
            b"  \x1b[96mindex.ts\x1b[0m:\x1b[93m1\x1b[0m:\x1b[93m11\x1b[0m",
            b"    \x1b[7m \x1b[0m \x1b[96m          ~\x1b[0m",
            b"    The parser expected to find a '}'."
        ),
        error("index.ts", Some((1, 11)), Some(1), "", "The parser expected to find a '}'.")
    );
}

#[test]
fn well_formed_pretty_baseline_is_parsed_directly() {
    let pretty = pretty_with_related("!!! error TS1005: '}' expected.\n!!! related TS1007 index.ts:1:11: x\n");
    let baseline = ErrorsBaseline::parse_formatted(&path(), &pretty);
    assert_eq!(Some(&baseline), ErrorsBaseline::try_parse_formatted(&pretty).as_ref());
    assert_eq!(baseline.file_errors.len(), 1);
    assert_eq!(baseline.file_errors[0].code, "1005");
    assert_eq!(baseline.file_errors[0].related[0].code, "1007");
}

#[test]
fn pretty_baseline_with_other_count_of_related_annotations_is_none() {
    let more = pretty_with_related("!!! error TS1005: '}' expected.\n!!! related TS1007 index.ts:1:11: a\n!!! related TS1008 index.ts:1:11: b\n");
    assert_eq!(ErrorsBaseline::try_parse_formatted(&more), None);
    let fewer = pretty_with_related("!!! error TS1005: '}' expected.\n");
    assert_eq!(ErrorsBaseline::try_parse_formatted(&fewer), None);
    assert_eq!(FileError::try_parse(b"no paren here"), None);
}

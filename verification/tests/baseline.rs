use std::path::Path;

use test_runner::baseline::types_baseline::{Assertion, TypeBaselineFile, TypesBaseline};
use test_runner::Baseline;

const TYPES: &[u8] = b"//// [tests/cases/compiler/unit1.ts] ////\n\n=== a.ts ===\nconst a = 5;\n>a : number\n>  : ^^^^^^\n>5 : 5\n>  : ^\n\n=== b.ts ===\nlet b;\n>b : any\n";
const ERRORS: &[u8] = b"a.ts(1,7): error TS1: m\n\n\n==== a.ts (1 errors) ====\n    const a = 5;\n          ~\n!!! error TS1: m\n";

#[test]
fn types_of_one_statement() {
    let baseline = TypesBaseline::parse(Path::new("unit1.types"), TYPES);
    assert_eq!(baseline.names, vec!["a.ts", "b.ts"]);
    assert_eq!(
        baseline.files[0],
        TypeBaselineFile {
            statements: vec!["const a = 5;"],
            assertions: vec![vec![
                Assertion { expr: "a", expected_type: "number" },
                Assertion { expr: "5", expected_type: "5" }
            ]]
        }
    );
    assert_eq!(baseline.position("a.ts"), Some(0));
    assert_eq!(baseline.position("b.ts"), Some(1));
    assert_eq!(baseline.position("c.ts"), None);
    assert_eq!(baseline.position(""), None);
}

#[test]
fn defaults_are_empty() {
    assert_eq!(TypesBaseline::default(), TypesBaseline { names: vec![], files: vec![] });
    assert_eq!(
        TypeBaselineFile::default(),
        TypeBaselineFile { statements: vec![], assertions: vec![] }
    );
    assert_eq!(Assertion::default(), Assertion { expr: "", expected_type: "" });
}

#[test]
fn baselines_with_and_without_errors() {
    let types_path = Path::new("unit1.types");
    let errors_path = Path::new("unit1.errors.txt");
    let baseline = Baseline::parse(types_path, TYPES, errors_path, None);
    assert_eq!(baseline.types, TypesBaseline::parse(types_path, TYPES));
    assert_eq!(baseline.errors, None);
    let baseline = Baseline::parse(types_path, TYPES, errors_path, Some(ERRORS));
    let errors = baseline.errors.unwrap();
    assert_eq!(errors.file_errors.len(), 1);
    assert_eq!(errors.file_errors[0].length, Some(1));
    assert_eq!(errors.file_errors[0].loc, Some((1, 7)));
}

#[test]
fn baselines_that_are_not_well_formed() {
    let types_path = Path::new("unit1.types");
    let errors_path = Path::new("unit1.errors.txt");
    assert!(Baseline::accepts(TYPES, None));
    assert!(Baseline::accepts(TYPES, Some(ERRORS)));
    assert!(!Baseline::accepts(b"no header", None));
    assert!(!Baseline::accepts(TYPES, Some(b"no summary")));
    assert!(!Baseline::accepts(b"no header", Some(ERRORS)));
    assert_eq!(Baseline::try_parse(types_path, TYPES, errors_path, Some(b"")), None);
    assert_eq!(
        Baseline::try_parse(types_path, TYPES, errors_path, Some(ERRORS)),
        Some(Baseline::parse(types_path, TYPES, errors_path, Some(ERRORS)))
    );
}

#[test]
fn names_files_statements_and_groups_stand_index_by_index() {
    let documents: [&[u8]; 4] = [
        TYPES,
        b"//// [unit1.ts] ////\n",
        b"//// [unit1.ts] ////\n=== a.ts ===\n\n=== b.ts ===\nx\n\n=== c.ts ===\n",
        b"//// [unit1.ts] ////\n=== a.ts ===\nlet a;\n>a : any\n>a : any\n\nlet b;\n>b : any\n>  : ^^^\n",
    ];
    for data in documents {
        let baseline = TypesBaseline::parse(Path::new("unit1.types"), data);
        assert_eq!(baseline.names.len(), baseline.files.len());
        for file in &baseline.files {
            assert_eq!(file.statements.len(), file.assertions.len());
        }
    }
}

#[test]
fn sections_leave_the_diagnostics_of_the_summary_as_they_are() {
    let summary = b"error TS5: c\na.ts(1,7): error TS1: m\n  hint\nb.ts(x,1): error TS2: n\n\n\n";
    let mut data = summary.to_vec();
    data.extend_from_slice(b"==== a.ts (1 errors) ====\n    const a = 5;\n          ~\n!!! error TS1: m\n!!! related TS9 b.ts:1:1: r\n    const b = 6;\n");
    let head = Baseline::parse(Path::new("t"), TYPES, Path::new("e"), Some(summary)).errors.unwrap();
    let all = Baseline::parse(Path::new("t"), TYPES, Path::new("e"), Some(&data)).errors.unwrap();
    assert_eq!(head.config_errors, all.config_errors);
    assert_eq!(head.file_errors.len(), all.file_errors.len());
    for (a, b) in head.file_errors.iter().zip(&all.file_errors) {
        assert_eq!((a.file, a.loc, a.code, a.message, &a.hint), (b.file, b.loc, b.code, b.message, &b.hint));
    }
    assert_eq!(head.file_errors[0].length, None);
    assert_eq!(all.file_errors[0].length, Some(1));
    assert_eq!(all.file_errors[0].related.len(), 1);
    assert_eq!(all.file_errors[1].loc, None);
}

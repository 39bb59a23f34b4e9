use std::{path::PathBuf, str::FromStr};

use test_runner::baseline::types_baseline::{
    opens_assertion, Assertion, TypeBaselineFile, TypesBaseline,
};

#[test]
fn types_baseline_single_file() {
    let path = PathBuf::from_str("tests/baselines/reference/unit1.types").unwrap();
    let data = br"//// [tests/cases/compiler/unit1.ts] ////

=== a.ts ===
// type parameter type is not a valid operand of addition operator
enum E { a, b }
>E : E
>  : ^
>a : E.a
>  : ^^^
>b : E.b
>  : ^^^

function foo<T, U>(t: T, u: U) {
>foo : <T, U>(t: T, u: U) => void
>    : ^ ^^ ^^ ^^ ^^ ^^ ^^^^^^^^^
>t : T
>  : ^
>u : U
>  : ^
";
    let baseline = TypesBaseline::parse(&path, data);
    assert_eq!(
        baseline,
        TypesBaseline {
            names: vec!["a.ts"],
            files: vec![TypeBaselineFile {
                statements: vec![
                    "// type parameter type is not a valid operand of addition operator\nenum E { a, b }",
                    "function foo<T, U>(t: T, u: U) {"
                ],
                assertions: vec![
                    vec![
                        Assertion { expr: "E", expected_type: "E" },
                        Assertion { expr: "a", expected_type: "E.a" },
                        Assertion { expr: "b", expected_type: "E.b" },
                    ],
                    vec![
                        Assertion { expr: "foo", expected_type: "<T, U>(t: T, u: U) => void" },
                        Assertion { expr: "t", expected_type: "T" },
                        Assertion { expr: "u", expected_type: "U" },
                    ]
                ]
            }]
        }
    );
}

#[test]
fn types_baseline_multiple_files() {
    let path = PathBuf::from_str("tests/baselines/reference/unit1.types").unwrap();
    let data = br"//// [tests/cases/compiler/unit1.ts] ////

=== a.ts ===
const a = 5;
>a : number
>  : ^^^^^^
>5 : 5
>  : ^

=== b.ts ===
const b = 123;
>b : number
>  : ^^^^^^
>123 : 123
>    : ^^^

";
    let baseline = TypesBaseline::parse(&path, data);
    assert_eq!(
        baseline,
        TypesBaseline {
            names: vec!["a.ts", "b.ts"],
            files: vec![
                TypeBaselineFile {
                    statements: vec!["const a = 5;"],
                    assertions: vec![vec![
                        Assertion { expr: "a", expected_type: "number" },
                        Assertion { expr: "5", expected_type: "5" },
                    ],]
                },
                TypeBaselineFile {
                    statements: vec!["const b = 123;"],
                    assertions: vec![vec![
                        Assertion { expr: "b", expected_type: "number" },
                        Assertion { expr: "123", expected_type: "123" },
                    ],]
                }
            ]
        }
    );
}

#[test]
fn scoped_assertions() {
    let path = PathBuf::from_str("tests/baselines/reference/unit1.types").unwrap();
    let data = br"//// [tests/cases/compiler/unit1.ts] ////

=== a.ts ===
const a = 5;
>a : number
>  : ^^^^^^
>5 : 5
>  : ^

=== b.ts ===
const b = 123;
>b : number
>  : ^^^^^^
>123 : 123
>    : ^^^

";
    let baseline = TypesBaseline::parse(&path, data);
    assert_eq!(
        baseline,
        TypesBaseline {
            names: vec!["a.ts", "b.ts"],
            files: vec![
                TypeBaselineFile {
                    statements: vec!["const a = 5;"],
                    assertions: vec![vec![
                        Assertion { expr: "a", expected_type: "number" },
                        Assertion { expr: "5", expected_type: "5" },
                    ],]
                },
                TypeBaselineFile {
                    statements: vec!["const b = 123;"],
                    assertions: vec![vec![
                        Assertion { expr: "b", expected_type: "number" },
                        Assertion { expr: "123", expected_type: "123" },
                    ],]
                }
            ]
        }
    );
}

#[test]
fn empty_fie() {
    let path = PathBuf::from_str("tests/baselines/reference/unit1.types").unwrap();
    let data = br"//// [tests/cases/compiler/unit1.ts] ////

=== a.ts ===

=== b.ts ===
const b = 123;
>b : number
>  : ^^^^^^
>123 : 123
>    : ^^^

";
    let baseline = TypesBaseline::parse(&path, data);
    assert_eq!(
        baseline,
        TypesBaseline {
            names: vec!["a.ts", "b.ts"],
            files: vec![
                TypeBaselineFile { statements: vec![""], assertions: vec![vec![]] },
                TypeBaselineFile {
                    statements: vec!["const b = 123;"],
                    assertions: vec![vec![
                        Assertion { expr: "b", expected_type: "number" },
                        Assertion { expr: "123", expected_type: "123" },
                    ]]
                }
            ]
        }
    );
}

#[test]
fn end_of_scope_on_last_line() {
    let path = PathBuf::from_str("tests/baselines/reference/unit1.types").unwrap();
    let data = br#"//// [tests/cases/compiler/unit1.ts] ////

=== a.ts ===
declare module 'demoModule' {
>'demoModule' : typeof import("demoModule")
>             : ^^^^^^^^^^^^^^^^^^^^^^^^^^^

    export = alias;
>alias : typeof alias
>      : ^^^^^^^^^^^^
}
=== b.ts ===
const a = 5;
>a : number
>  : ^^^^^^
>5 : 5
>  : ^
"#;
    let baseline = TypesBaseline::parse(&path, data);
    assert_eq!(
        baseline,
        TypesBaseline {
            names: vec!["a.ts", "b.ts"],
            files: vec![
                TypeBaselineFile {
                    statements: vec![
                        "declare module 'demoModule' {",
                        "    export = alias;"
                    ],
                    assertions: vec![
                        vec![Assertion {
                            expr: "'demoModule'",
                            expected_type: r#"typeof import("demoModule")"#
                        },],
                        vec![Assertion { expr: "alias", expected_type: "typeof alias" },]
                    ]
                },
                TypeBaselineFile {
                    statements: vec!["const a = 5;"],
                    assertions: vec![vec![
                        Assertion { expr: "a", expected_type: "number" },
                        Assertion { expr: "5", expected_type: "5" },
                    ]]
                }
            ]
        }
    );
}

#[test]
fn assertion_without_underline() {
    let path = PathBuf::from_str("tests/baselines/reference/unit1.types").unwrap();
    let data = br#"//// [tests/cases/compiler/unit1.ts] ////

=== a.ts ===
class C {
>C : C
>  : ^

    public x;
>x : any

    public a = '';
>a : string
>  : ^^^^^^
>'' : ""
}

const a = 5;
>a : number
>  : ^^^^^^
>5 : 5
>  : ^
"#;
    let baseline = TypesBaseline::parse(&path, data);
    assert_eq!(
        baseline,
        TypesBaseline {
            names: vec!["a.ts"],
            files: vec![TypeBaselineFile {
                statements: vec![
                    "class C {",
                    "    public x;",
                    "    public a = '';",
                    "}\n\nconst a = 5;"
                ],
                assertions: vec![
                    vec![Assertion { expr: "C", expected_type: "C" }],
                    vec![Assertion { expr: "x", expected_type: "any" }],
                    vec![
                        Assertion { expr: "a", expected_type: "string" },
                        Assertion { expr: r"''", expected_type: r#""""# },
                    ],
                    vec![
                        Assertion { expr: "a", expected_type: "number" },
                        Assertion { expr: "5", expected_type: "5" },
                    ]
                ]
            }]
        }
    );
}

#[test]
fn middle_assertion_without_underline() {
    let path = PathBuf::from_str("tests/baselines/reference/unit1.types").unwrap();
    let data = br"//// [tests/cases/compiler/unit1.ts] ////

=== a.ts ===
g.prototype.m = function () {
>g.prototype.m = function () {  this;} : () => void
>                                      : ^^^^^^^^^^
>g.prototype.m : any
>g.prototype : any
>            : ^^^
>g : () => void
>  : ^^^^^^^^^^
>prototype : any
>          : ^^^
>m : any
>  : ^^^
>function () {  this;} : () => void
>                      : ^^^^^^^^^^

  this;
>this : any

};
";
    let baseline = TypesBaseline::parse(&path, data);
    assert_eq!(
        baseline,
        TypesBaseline {
            names: vec!["a.ts"],
            files: vec![TypeBaselineFile {
                statements: vec!["g.prototype.m = function () {", "  this;"],
                assertions: vec![
                    vec![
                        Assertion {
                            expr: "g.prototype.m = function () {  this;}",
                            expected_type: "() => void"
                        },
                        Assertion { expr: "g.prototype.m", expected_type: "any" },
                        Assertion { expr: "g.prototype", expected_type: "any" },
                        Assertion { expr: "g", expected_type: "() => void" },
                        Assertion { expr: "prototype", expected_type: "any" },
                        Assertion { expr: "m", expected_type: "any" },
                        Assertion {
                            expr: "function () {  this;}",
                            expected_type: "() => void"
                        }
                    ],
                    vec![Assertion { expr: "this", expected_type: "any" },]
                ]
            }]
        }
    );
}

#[test]
fn comment_on_last_line() {
    let path = PathBuf::from_str("tests/baselines/reference/unit1.types").unwrap();
    let data = br"//// [tests/cases/compiler/unit1.ts] ////

=== a.ts ===
const a = 5;
>a : number
>  : ^^^^^^
>5 : 5
>  : ^

// Separate file
=== b.ts ===
const b = 123;
>b : number
>  : ^^^^^^
>123 : 123
>    : ^^^

";
    let baseline = TypesBaseline::parse(&path, data);
    assert_eq!(
        baseline,
        TypesBaseline {
            names: vec!["a.ts", "b.ts"],
            files: vec![
                TypeBaselineFile {
                    statements: vec!["const a = 5;", "// Separate file",],
                    assertions: vec![
                        vec![
                            Assertion { expr: "a", expected_type: "number" },
                            Assertion { expr: "5", expected_type: "5" },
                        ],
                        vec![]
                    ]
                },
                TypeBaselineFile {
                    statements: vec!["const b = 123;"],
                    assertions: vec![vec![
                        Assertion { expr: "b", expected_type: "number" },
                        Assertion { expr: "123", expected_type: "123" },
                    ]]
                }
            ]
        }
    );
}

#[test]
fn code_line_starts_with_gt() {
    let path = PathBuf::from_str("tests/baselines/reference/unit1.types").unwrap();
    let data = br"//// [tests/cases/compiler/unit1.ts] ////

=== a.ts ===
type GenericStructure<
>GenericStructure : GenericStructure<AcceptableKeyType>
>                 : ^^^^^^^^^^^^^^^^^^^^^^^^^^^^^^^^^^^

  AcceptableKeyType extends string = string
> = Record<AcceptableKeyType, number>;

const a = 5;
>a : number
>  : ^^^^^^
>5 : 5
>  : ^

=== b.ts ===
    any
>
    ? { children?: React.ReactNode }
>children : React.ReactNode
>         : ^^^^^^^^^^^^^^^
>React : any
>      : ^^^
";
    let baseline = TypesBaseline::parse(&path, data);
    assert_eq!(
        baseline,
        TypesBaseline {
            names: vec!["a.ts", "b.ts"],
            files: vec![
                TypeBaselineFile {
                    statements: vec![
                        "type GenericStructure<",
                        "  AcceptableKeyType extends string = string\n> = Record<AcceptableKeyType, number>;\n\nconst a = 5;"
                    ],
                    assertions: vec![
                        vec![Assertion {
                            expr: "GenericStructure",
                            expected_type: "GenericStructure<AcceptableKeyType>"
                        },],
                        vec![
                            Assertion { expr: "a", expected_type: "number" },
                            Assertion { expr: "5", expected_type: "5" },
                        ]
                    ]
                },
                TypeBaselineFile {
                    statements: vec!["    any\n>\n    ? { children?: React.ReactNode }"],
                    assertions: vec![vec![
                        Assertion { expr: "children", expected_type: "React.ReactNode" },
                        Assertion { expr: "React", expected_type: "any" },
                    ]]
                }
            ]
        }
    );
}

#[test]
fn non_ascii() {
    // letters of two, three and four bytes; those of four bytes take two
    // columns each
    let path = PathBuf::from_str("tests/baselines/reference/unit1.types").unwrap();
    let data = [
        "//// [tests/cases/compiler/unit1.ts] ////\n",
        "\n",
        "=== a.ts ===\n",
        "module \u{624d}\u{80fd}\u{30bd}\u{42b}\u{2168}\u{84a4}\u{90f3}\u{930}\u{94d}\u{915}\u{94d}\u{921}\u{94d}\u{930}\u{93e}\u{fc}\u{131}\u{15f}\u{11f}\u{130}li\u{64a}\u{648}\u{646}\u{64a}\u{643}\u{648}\u{62f}\u{f6}\u{c4}\u{fc}\u{df}\u{624d}\u{80fd}\u{30bd}\u{42b}\u{2168}\u{84a4}\u{90f3}\u{930}\u{94d}\u{915}\u{94d}\u{921}\u{94d}\u{930}\u{93e}\u{fc}\u{131}\u{15f}\u{11f}\u{130}li\u{64a}\u{648}\u{646}\u{64a}\u{643}\u{648}\u{62f}\u{f6}\u{c4}\u{fc}\u{df}Abcd123 {\n",
        ">\u{624d}\u{80fd}\u{30bd}\u{42b}\u{2168}\u{84a4}\u{90f3}\u{930}\u{94d}\u{915}\u{94d}\u{921}\u{94d}\u{930}\u{93e}\u{fc}\u{131}\u{15f}\u{11f}\u{130}li\u{64a}\u{648}\u{646}\u{64a}\u{643}\u{648}\u{62f}\u{f6}\u{c4}\u{fc}\u{df}\u{624d}\u{80fd}\u{30bd}\u{42b}\u{2168}\u{84a4}\u{90f3}\u{930}\u{94d}\u{915}\u{94d}\u{921}\u{94d}\u{930}\u{93e}\u{fc}\u{131}\u{15f}\u{11f}\u{130}li\u{64a}\u{648}\u{646}\u{64a}\u{643}\u{648}\u{62f}\u{f6}\u{c4}\u{fc}\u{df}Abcd123 : typeof globalThis.\u{624d}\u{80fd}\u{30bd}\u{42b}\u{2168}\u{84a4}\u{90f3}\u{930}\u{94d}\u{915}\u{94d}\u{921}\u{94d}\u{930}\u{93e}\u{fc}\u{131}\u{15f}\u{11f}\u{130}li\u{64a}\u{648}\u{646}\u{64a}\u{643}\u{648}\u{62f}\u{f6}\u{c4}\u{fc}\u{df}\u{624d}\u{80fd}\u{30bd}\u{42b}\u{2168}\u{84a4}\u{90f3}\u{930}\u{94d}\u{915}\u{94d}\u{921}\u{94d}\u{930}\u{93e}\u{fc}\u{131}\u{15f}\u{11f}\u{130}li\u{64a}\u{648}\u{646}\u{64a}\u{643}\u{648}\u{62f}\u{f6}\u{c4}\u{fc}\u{df}Abcd123\n",
        ">                                                                          : ^^^^^^^^^^^^^^^^^^^^^^^^^^^^^^^^^^^^^^^^^^^^^^^^^^^^^^^^^^^^^^^^^^^^^^^^^^^^^^^^^^^^^^^^^^^\n",
        "\n",
        "const \u{1d4f1}\u{1d4ee}\u{1d4f5}\u{1d4f5}\u{1d4f8} = \"\u{1d500}\u{1d4f8}\u{1d4fb}\u{1d4f5}\u{1d4ed}\";\n",
        ">\u{1d4f1}\u{1d4ee}\u{1d4f5}\u{1d4f5}\u{1d4f8} : \"\u{1d500}\u{1d4f8}\u{1d4fb}\u{1d4f5}\u{1d4ed}\"\n",
        ">           : ^^^^^^^^^^^^\n",
        ">\"\u{1d500}\u{1d4f8}\u{1d4fb}\u{1d4f5}\u{1d4ed}\" : \"\u{1d500}\u{1d4f8}\u{1d4fb}\u{1d4f5}\u{1d4ed}\"\n",
        ">             : ^^^^^^^^^^^^\n",
        "\n",
        "const \u{1d633}\u{1d626}\u{1d628}\u{1d626}\u{1d639} = /(?\u{1d634}\u{1d62a}-\u{1d62e}:^\u{1d627}\u{1d630}\u{1d630}.)/\u{1d628}\u{1d62e}\u{1d636};\n",
        ">\u{1d633}\u{1d626}\u{1d628}\u{1d626}\u{1d639} : RegExp\n",
        ">           : ^^^^^^\n",
        ">/(?\u{1d634}\u{1d62a}-\u{1d62e}:^\u{1d627}\u{1d630}\u{1d630}.)/\u{1d628}\u{1d62e}\u{1d636} : RegExp\n",
        ">                            : ^^^^^^\n",
    ]
    .concat();
    let name = "\u{624d}\u{80fd}\u{30bd}\u{42b}\u{2168}\u{84a4}\u{90f3}\u{930}\u{94d}\u{915}\u{94d}\u{921}\u{94d}\u{930}\u{93e}\u{fc}\u{131}\u{15f}\u{11f}\u{130}li\u{64a}\u{648}\u{646}\u{64a}\u{643}\u{648}\u{62f}\u{f6}\u{c4}\u{fc}\u{df}\u{624d}\u{80fd}\u{30bd}\u{42b}\u{2168}\u{84a4}\u{90f3}\u{930}\u{94d}\u{915}\u{94d}\u{921}\u{94d}\u{930}\u{93e}\u{fc}\u{131}\u{15f}\u{11f}\u{130}li\u{64a}\u{648}\u{646}\u{64a}\u{643}\u{648}\u{62f}\u{f6}\u{c4}\u{fc}\u{df}Abcd123";
    let module = format!("module {name} {{");
    let global = format!("typeof globalThis.{name}");
    let baseline = TypesBaseline::parse(&path, data.as_bytes());
    assert_eq!(
        baseline,
        TypesBaseline {
            names: vec!["a.ts"],
            files: vec![TypeBaselineFile {
                statements: vec![
                    module.as_str(),
                    "const \u{1d4f1}\u{1d4ee}\u{1d4f5}\u{1d4f5}\u{1d4f8} = \"\u{1d500}\u{1d4f8}\u{1d4fb}\u{1d4f5}\u{1d4ed}\";",
                    "const \u{1d633}\u{1d626}\u{1d628}\u{1d626}\u{1d639} = /(?\u{1d634}\u{1d62a}-\u{1d62e}:^\u{1d627}\u{1d630}\u{1d630}.)/\u{1d628}\u{1d62e}\u{1d636};"
                ],
                assertions: vec![
                    vec![Assertion { expr: name, expected_type: global.as_str() },],
                    vec![
                        Assertion {
                            expr: "\u{1d4f1}\u{1d4ee}\u{1d4f5}\u{1d4f5}\u{1d4f8}",
                            expected_type: "\"\u{1d500}\u{1d4f8}\u{1d4fb}\u{1d4f5}\u{1d4ed}\""
                        },
                        Assertion {
                            expr: "\"\u{1d500}\u{1d4f8}\u{1d4fb}\u{1d4f5}\u{1d4ed}\"",
                            expected_type: "\"\u{1d500}\u{1d4f8}\u{1d4fb}\u{1d4f5}\u{1d4ed}\""
                        },
                    ],
                    vec![
                        Assertion { expr: "\u{1d633}\u{1d626}\u{1d628}\u{1d626}\u{1d639}", expected_type: "RegExp" },
                        Assertion { expr: "/(?\u{1d634}\u{1d62a}-\u{1d62e}:^\u{1d627}\u{1d630}\u{1d630}.)/\u{1d628}\u{1d62e}\u{1d636}", expected_type: "RegExp" },
                    ],
                ]
            }]
        }
    );
}

#[test]
fn supplementary_plane_columns() {
    // Each of these letters takes four bytes and two UTF-16 code units, so
    // the colon of the underline stands in column 12, not 7 or 22.
    let path = PathBuf::from_str("tests/baselines/reference/unit1.types").unwrap();
    let data = "//// [tests/cases/compiler/unit1.ts] ////\n\n=== a.ts ===\nconst \u{1D4F1}\u{1D4EE}\u{1D4F5}\u{1D4F5}\u{1D4F8} = 1;\n>\u{1D4F1}\u{1D4EE}\u{1D4F5}\u{1D4F5}\u{1D4F8} : number\n>           : ^^^^^^\n>1 : 1\n>  : ^\n";
    let baseline = TypesBaseline::parse(&path, data.as_bytes());
    assert_eq!(
        baseline,
        TypesBaseline {
            names: vec!["a.ts"],
            files: vec![TypeBaselineFile {
                statements: vec!["const \u{1D4F1}\u{1D4EE}\u{1D4F5}\u{1D4F5}\u{1D4F8} = 1;"],
                assertions: vec![vec![
                    Assertion {
                        expr: "\u{1D4F1}\u{1D4EE}\u{1D4F5}\u{1D4F5}\u{1D4F8}",
                        expected_type: "number"
                    },
                    Assertion { expr: "1", expected_type: "1" },
                ]]
            }]
        }
    );
}

#[test]
fn columns_that_split_a_character_are_rejected() {
    // the underline puts the colon where the letters would take one column each
    let path = PathBuf::from_str("tests/baselines/reference/unit1.types").unwrap();
    let data = "//// [unit1.ts] ////\n\n=== a.ts ===\nconst \u{1D4F1}\u{1D4EE} = 1;\n>\u{1D4F1}\u{1D4EE} : number\n>   : ^^^^^^\n";
    assert!(TypesBaseline::try_parse(&path, data.as_bytes()).is_none());
}

#[test]
fn one_file_one_statement_two_assertions() {
    let path = PathBuf::from_str("tests/baselines/reference/unit1.types").unwrap();
    let data = b"//// [tests/cases/compiler/unit1.ts] ////\n\n=== a.ts ===\nconst a = 5;\n>a : number\n>  : ^^^^^^\n>5 : 5\n>  : ^\n";
    let baseline = TypesBaseline::parse(&path, data);
    assert_eq!(
        baseline,
        TypesBaseline {
            names: vec!["a.ts"],
            files: vec![TypeBaselineFile {
                statements: vec!["const a = 5;"],
                assertions: vec![vec![
                    Assertion { expr: "a", expected_type: "number" },
                    Assertion { expr: "5", expected_type: "5" },
                ]]
            }]
        }
    );
}

#[test]
fn lines_that_open_an_assertion() {
    assert!(opens_assertion(b">a : number", true));
    assert!(opens_assertion(b">'a' : string", false));
    assert!(!opens_assertion(b"> = Record<K, V>;", false));
    assert!(!opens_assertion(b">", true));
    assert!(!opens_assertion(b"a : number", true));
    assert!(!opens_assertion(b"", true));
}

#[test]
fn two_byte_characters_count_one_column() {
    let path = PathBuf::from_str("tests/baselines/reference/unit1.types").unwrap();
    let data = "//// [unit1.ts] ////\n\n=== a.ts ===\nvar \u{fc}\u{df} = 1;\n>\u{fc}\u{df} : number\n>   : ^^^^^^\n";
    let baseline = TypesBaseline::parse(&path, data.as_bytes());
    assert_eq!(baseline.files[0].assertions[0][0].expr, "\u{fc}\u{df}");
    assert_eq!(baseline.files[0].assertions[0][0].expected_type, "number");
}

#[test]
fn missing_unit_header_is_rejected() {
    let path = PathBuf::from_str("unit1.types").unwrap();
    assert!(TypesBaseline::try_parse(&path, b"=== a.ts ===\nconst a = 5;\n").is_none());
    assert!(!TypesBaseline::accepts(b""));
    assert!(TypesBaseline::accepts(b"//// [unit1.ts] ////"));
}

#[test]
fn assertion_before_any_file_is_rejected() {
    let path = PathBuf::from_str("unit1.types").unwrap();
    assert!(TypesBaseline::try_parse(&path, b"//// [unit1.ts] ////\n>a : number\n").is_none());
}

#[test]
fn assertion_without_delimiter_is_rejected() {
    let path = PathBuf::from_str("unit1.types").unwrap();
    let data = b"//// [unit1.ts] ////\n=== a.ts ===\nconst a = 5;\n>a number\n\n";
    assert!(TypesBaseline::try_parse(&path, data).is_none());
}

#[test]
fn file_header_without_closing_marker_is_rejected() {
    let path = PathBuf::from_str("unit1.types").unwrap();
    let data = b"//// [unit1.ts] ////\n=== a.ts\nconst a = 5;\n";
    assert!(TypesBaseline::try_parse(&path, data).is_none());
    assert!(TypesBaseline::try_parse(&path, b"//// [unit1.ts] ////\n=== ===\n").is_none());
}

#[test]
fn statement_that_is_not_utf8_is_rejected() {
    let path = PathBuf::from_str("unit1.types").unwrap();
    let data = b"//// [unit1.ts] ////\n=== a.ts ===\nconst \xff = 5;\n>a : number\n\n";
    assert!(TypesBaseline::try_parse(&path, data).is_none());
}

#[test]
fn crlf_line_endings() {
    let path = PathBuf::from_str("unit1.types").unwrap();
    let data = b"//// [unit1.ts] ////\r\n\r\n=== a.ts ===\r\nconst a = 5;\r\n>a : number\r\n>  : ^^^^^^\r\n\r\n";
    let baseline = TypesBaseline::parse(&path, data);
    assert_eq!(baseline.names, vec!["a.ts"]);
    assert_eq!(baseline.files[0].statements, vec!["const a = 5;"]);
    assert_eq!(
        baseline.files[0].assertions,
        vec![vec![Assertion { expr: "a", expected_type: "number" }]]
    );
}

#[test]
fn try_parse_agrees_with_parse() {
    let path = PathBuf::from_str("unit1.types").unwrap();
    let data = b"//// [unit1.ts] ////\n\n=== a.ts ===\nconst a = 5;\n>a : number\n>  : ^^^^^^\n";
    assert_eq!(TypesBaseline::try_parse(&path, data), Some(TypesBaseline::parse(&path, data)));
}

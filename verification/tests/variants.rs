use compact_str::CompactString;
use test_runner::variation_iter::{RestartableIterator, VariationIter};
use test_runner::variations::{TestVariant, TestVariationProp, TestVariations, AXIS_COUNT};

fn values(list: &[&str]) -> Vec<CompactString> {
    list.iter().map(|s| CompactString::new(s)).collect()
}

fn variants(variations: &TestVariations) -> Vec<TestVariant<'_>> {
    let mut iter = variations.iter();
    let mut result = Vec::new();
    while let Some(variant) = iter.next() {
        result.push(variant);
    }
    assert_eq!(iter.next(), None);
    assert_eq!(iter.next(), None);
    result
}

#[test]
fn options_have_their_places() {
    for i in 0..AXIS_COUNT {
        let prop = TestVariationProp::from_index(i);
        assert_eq!(prop.ordinal(), i);
        assert_eq!(TestVariationProp::try_from(prop.as_str().as_bytes()), Ok(prop));
    }
    assert_eq!(TestVariationProp::from_index(0), TestVariationProp::AllowArbitraryExtensions);
    assert_eq!(TestVariationProp::from_index(7), TestVariationProp::Module);
    assert_eq!(TestVariationProp::from_index(25), TestVariationProp::VerbatimModuleSyntax);
    assert_eq!(TestVariationProp::Target.ordinal(), 22);
}

#[test]
fn option_names_are_in_lower_case() {
    assert_eq!(TestVariationProp::AllowJS.as_str(), "allowjs");
    assert_eq!(TestVariationProp::ESModuleInterop.as_str(), "esmoduleinterop");
    assert_eq!(
        TestVariationProp::NoPropertyAccessFromIndexSignature.as_str(),
        "nopropertyaccessfromindexsignature"
    );
    assert_eq!(TestVariationProp::try_from(b"jsx"), Ok(TestVariationProp::Jsx));
    assert_eq!(TestVariationProp::try_from(b"strict"), Ok(TestVariationProp::Strict));
    assert_eq!(
        TestVariationProp::try_from(b"strictnullchecks"),
        Ok(TestVariationProp::StrictNullChecks)
    );
    assert_eq!(TestVariationProp::try_from(b"Jsx"), Err(()));
    assert_eq!(TestVariationProp::try_from(b"declaration"), Err(()));
    assert_eq!(TestVariationProp::try_from(b""), Err(()));
}

#[test]
fn wildcard_values() {
    assert_eq!(TestVariationProp::Module.try_expand_wildcard().map(|v| v.len()), Some(13));
    assert_eq!(TestVariationProp::Strict.try_expand_wildcard(), Some(values(&["true", "false"])));
    assert_eq!(
        TestVariationProp::StrictBuiltinIteratorReturn.try_expand_wildcard(),
        Some(values(&["true", "false"]))
    );
    assert_eq!(
        TestVariationProp::UseDefineForClassFields.try_expand_wildcard(),
        Some(values(&["true", "false"]))
    );
    assert_eq!(TestVariationProp::Strict.expand_wildcard(), values(&["true", "false"]));
    assert_eq!(TestVariationProp::Module.expand_wildcard()[12], "preserve");
    assert_eq!(TestVariationProp::Target.try_expand_wildcard(), None);
    assert_eq!(TestVariationProp::StrictNullChecks.try_expand_wildcard(), None);
}

#[test]
fn values_of_each_option_are_kept_apart() {
    let mut variations = TestVariations::default();
    for i in 0..AXIS_COUNT {
        let prop = TestVariationProp::from_index(i);
        assert!(variations.get(prop).is_empty());
        variations.push(prop, CompactString::new(prop.as_str()));
        variations.push(prop, CompactString::new("x"));
    }
    for i in 0..AXIS_COUNT {
        let prop = TestVariationProp::from_index(i);
        assert_eq!(variations.get(prop), &values(&[prop.as_str(), "x"]));
    }
    assert_eq!(variations.no_emit, values(&["noemit", "x"]));
    variations.clear(TestVariationProp::NoEmit);
    assert!(variations.no_emit.is_empty());
    assert!(variations.get(TestVariationProp::NoEmit).is_empty());
    assert_eq!(variations.no_implicit_any, values(&["noimplicitany", "x"]));
}

#[test]
fn chosen_values_of_each_option_are_kept_apart() {
    let mut variant = TestVariant::default();
    assert_eq!(variant.name, "");
    for i in 0..AXIS_COUNT {
        let prop = TestVariationProp::from_index(i);
        assert_eq!(variant.get(prop), None);
        variant.set(prop, Some(prop.as_str()));
    }
    for i in 0..AXIS_COUNT {
        let prop = TestVariationProp::from_index(i);
        assert_eq!(variant.get(prop), Some(prop.as_str()));
    }
    assert_eq!(variant.jsx, Some("jsx"));
    variant.set(TestVariationProp::Jsx, None);
    assert_eq!(variant.jsx, None);
    assert_eq!(variant.module, Some("module"));
    assert_eq!(variant.duplicate(), variant);
}

#[test]
fn names_of_variants() {
    let mut variant = TestVariant::default();
    variant.set(TestVariationProp::Target, Some("es5"));
    variant.set(TestVariationProp::Module, Some("amd"));
    variant.set(TestVariationProp::Strict, Some("true"));
    variant.update_name(&[]);
    assert_eq!(variant.name, "");
    variant.update_name(&[TestVariationProp::Module]);
    assert_eq!(variant.name, "(module=amd)");
    variant.update_name(&[
        TestVariationProp::Module,
        TestVariationProp::Strict,
        TestVariationProp::Target,
    ]);
    assert_eq!(variant.name, "(module=amd,strict=true,target=es5)");
    variant.update_name(&[TestVariationProp::Target, TestVariationProp::Module]);
    assert_eq!(variant.name, "(target=es5,module=amd)");
}

#[test]
fn iterator_over_no_values() {
    let arr = values(&[]);
    let mut iter = RestartableIterator::new(&arr);
    assert_eq!(iter.next(), None);
    assert_eq!(iter.next(), None);
    let arr = values(&["a"]);
    let mut iter = RestartableIterator::new(&arr);
    assert_eq!(iter.next(), Some(Some("a")));
    assert_eq!(iter.next(), None);
    assert_eq!(iter.next(), Some(Some("a")));
    assert_eq!(iter.next(), None);
}

#[test]
fn no_variation_gives_one_variant_without_name() {
    let variations = TestVariations::default();
    assert_eq!(variants(&variations), vec![TestVariant::default()]);
}

#[test]
fn options_with_one_value_are_in_every_variant_but_in_no_name() {
    let variations = TestVariations {
        strict: values(&["true"]),
        target: values(&["es5"]),
        ..Default::default()
    };
    assert_eq!(
        variants(&variations),
        vec![TestVariant {
            name: String::new(),
            strict: Some("true"),
            target: Some("es5"),
            ..Default::default()
        }]
    );
    let variations = TestVariations {
        strict: values(&["true"]),
        jsx: values(&["react", "preserve"]),
        ..Default::default()
    };
    assert_eq!(
        variants(&variations),
        vec![
            TestVariant {
                name: "(jsx=react)".to_string(),
                strict: Some("true"),
                jsx: Some("react"),
                ..Default::default()
            },
            TestVariant {
                name: "(jsx=preserve)".to_string(),
                strict: Some("true"),
                jsx: Some("preserve"),
                ..Default::default()
            }
        ]
    );
}

#[test]
fn variants_are_the_product_with_the_last_option_fastest() {
    let variations = TestVariations {
        target: values(&["es5", "es6"]),
        module: values(&["amd", "umd", "esnext"]),
        allow_js: values(&["true", "false"]),
        no_emit: values(&["true"]),
        ..Default::default()
    };
    let all = variants(&variations);
    assert_eq!(all.len(), 2 * 3 * 2);
    let mut expected = Vec::new();
    for allow_js in ["true", "false"] {
        for module in ["amd", "umd", "esnext"] {
            for target in ["es5", "es6"] {
                expected.push(TestVariant {
                    name: format!("(allowjs={allow_js},module={module},target={target})"),
                    allow_js: Some(allow_js),
                    module: Some(module),
                    target: Some(target),
                    no_emit: Some("true"),
                    ..Default::default()
                });
            }
        }
    }
    assert_eq!(all, expected);
    assert_eq!(all[0].name, "(allowjs=true,module=amd,target=es5)");
    assert_eq!(all[1].name, "(allowjs=true,module=amd,target=es6)");
    assert_eq!(all[2].name, "(allowjs=true,module=umd,target=es5)");
    assert_eq!(all[11].name, "(allowjs=false,module=esnext,target=es6)");
    for i in 0..all.len() {
        for j in 0..i {
            assert_ne!(all[i], all[j]);
        }
    }
}

#[test]
fn variants_of_all_options() {
    let mut variations = TestVariations::default();
    for i in 0..10 {
        let prop = TestVariationProp::from_index(i * 2);
        variations.push(prop, CompactString::new("a"));
        variations.push(prop, CompactString::new("b"));
    }
    let all = variants(&variations);
    assert_eq!(all.len(), 1024);
    assert_eq!(all[0].allow_arbitrary_extensions, Some("a"));
    assert_eq!(all[511].allow_arbitrary_extensions, Some("a"));
    assert_eq!(all[512].allow_arbitrary_extensions, Some("b"));
    assert_eq!(all[1].resolve_package_json_exports, Some("b"));
    assert_eq!(all[2].resolve_package_json_exports, Some("a"));
    assert_eq!(all[1023].name.matches("=b").count(), 10);
}

#[test]
fn new_iterator_is_the_iterator_of_the_variations() {
    let variations = TestVariations { jsx: values(&["a", "b"]), ..Default::default() };
    let mut one = VariationIter::new(&variations);
    let mut other = variations.iter();
    assert_eq!(one.next(), other.next());
    assert_eq!(one.next(), other.next());
    assert_eq!(one.next(), None);
    assert_eq!(other.next(), None);
}

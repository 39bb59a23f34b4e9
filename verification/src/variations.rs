//! The compiler options that a test unit can vary, the values it declares
//! for each of them, and the variants that result: one for every combination
//! of the values of the options that have several.

use vstd::prelude::*;
use vstd::string::StringExecFns;
use vstd::utf8::{valid_utf8, decode_utf8};
use core::str::Utf8Error;
use compact_str::CompactString;
use crate::scan::bytes_eq;

verus! {

/// `compact_str::CompactString`, a string whose text is known as
/// `compact_chars`.
#[verifier::external_type_specification]
#[verifier::external_body]
pub struct ExCompactString(CompactString);

/// The text that a `CompactString` holds.
pub uninterp spec fn compact_chars(s: CompactString) -> Seq<char>;

/// The texts that a sequence of `CompactString`s holds.
pub open spec fn compact_texts(v: Seq<CompactString>) -> Seq<Seq<char>> {
    v.map_values(|s: CompactString| compact_chars(s))
}

/// `CompactString::from_utf8`: fails exactly where the bytes are no
/// well-formed UTF-8, and else holds the text that they encode.
#[verifier::external_body]
pub(crate) fn compact_from_utf8(bytes: &[u8]) -> (r: Result<CompactString, Utf8Error>)
    ensures
        r is Ok <==> valid_utf8(bytes@),
        r is Ok ==> compact_chars(r->Ok_0) == decode_utf8(bytes@),
{
    CompactString::from_utf8(bytes)
}

/// `CompactString::new`: holds the text it is made from.
#[verifier::external_body]
pub(crate) fn compact_from_str(s: &str) -> (r: CompactString)
    ensures
        compact_chars(r) == s@,
{
    CompactString::new(s)
}

/// `CompactString::as_str`: the text that the string holds.
#[verifier::external_body]
pub(crate) fn compact_as_str<'a>(s: &'a CompactString) -> (r: &'a str)
    ensures
        r@ == compact_chars(*s),
{
    s.as_str()
}

/// Number of options that can vary.
pub const AXIS_COUNT: usize = 26;

/// A compiler option that a test unit can vary. The order of the variants is
/// the order of the options in a variant's name.
#[derive(Debug, PartialEq, Eq, Clone, Copy)]
pub enum TestVariationProp {
    AllowArbitraryExtensions,
    AllowImportingTsExtensions,
    AllowJS,
    ESModuleInterop,
    ExactOptionalPropertyTypes,
    IsolatedModules,
    Jsx,
    Module,
    ModuleDetection,
    ModuleResolution,
    NoEmit,
    NoImplicitAny,
    NoImplicitOverride,
    NoPropertyAccessFromIndexSignature,
    NoUncheckedIndexedAccess,
    NoUncheckedSideEffectImports,
    PreserveConstEnums,
    ResolveJsonModule,
    ResolvePackageJsonExports,
    Strict,
    StrictBuiltinIteratorReturn,
    StrictNullChecks,
    Target,
    UseDefineForClassFields,
    UseUnknownInCatchVariables,
    VerbatimModuleSyntax,
}

impl TestVariationProp {
    /// The option's place in the order of the options.
    pub open spec fn index(self) -> int {
        match self {
            TestVariationProp::AllowArbitraryExtensions => 0,
            TestVariationProp::AllowImportingTsExtensions => 1,
            TestVariationProp::AllowJS => 2,
            TestVariationProp::ESModuleInterop => 3,
            TestVariationProp::ExactOptionalPropertyTypes => 4,
            TestVariationProp::IsolatedModules => 5,
            TestVariationProp::Jsx => 6,
            TestVariationProp::Module => 7,
            TestVariationProp::ModuleDetection => 8,
            TestVariationProp::ModuleResolution => 9,
            TestVariationProp::NoEmit => 10,
            TestVariationProp::NoImplicitAny => 11,
            TestVariationProp::NoImplicitOverride => 12,
            TestVariationProp::NoPropertyAccessFromIndexSignature => 13,
            TestVariationProp::NoUncheckedIndexedAccess => 14,
            TestVariationProp::NoUncheckedSideEffectImports => 15,
            TestVariationProp::PreserveConstEnums => 16,
            TestVariationProp::ResolveJsonModule => 17,
            TestVariationProp::ResolvePackageJsonExports => 18,
            TestVariationProp::Strict => 19,
            TestVariationProp::StrictBuiltinIteratorReturn => 20,
            TestVariationProp::StrictNullChecks => 21,
            TestVariationProp::Target => 22,
            TestVariationProp::UseDefineForClassFields => 23,
            TestVariationProp::UseUnknownInCatchVariables => 24,
            TestVariationProp::VerbatimModuleSyntax => 25,
        }
    }

    /// The option at place `i`.
    pub open spec fn at(i: int) -> TestVariationProp {
        if i == 0 {
            TestVariationProp::AllowArbitraryExtensions
        } else if i == 1 {
            TestVariationProp::AllowImportingTsExtensions
        } else if i == 2 {
            TestVariationProp::AllowJS
        } else if i == 3 {
            TestVariationProp::ESModuleInterop
        } else if i == 4 {
            TestVariationProp::ExactOptionalPropertyTypes
        } else if i == 5 {
            TestVariationProp::IsolatedModules
        } else if i == 6 {
            TestVariationProp::Jsx
        } else if i == 7 {
            TestVariationProp::Module
        } else if i == 8 {
            TestVariationProp::ModuleDetection
        } else if i == 9 {
            TestVariationProp::ModuleResolution
        } else if i == 10 {
            TestVariationProp::NoEmit
        } else if i == 11 {
            TestVariationProp::NoImplicitAny
        } else if i == 12 {
            TestVariationProp::NoImplicitOverride
        } else if i == 13 {
            TestVariationProp::NoPropertyAccessFromIndexSignature
        } else if i == 14 {
            TestVariationProp::NoUncheckedIndexedAccess
        } else if i == 15 {
            TestVariationProp::NoUncheckedSideEffectImports
        } else if i == 16 {
            TestVariationProp::PreserveConstEnums
        } else if i == 17 {
            TestVariationProp::ResolveJsonModule
        } else if i == 18 {
            TestVariationProp::ResolvePackageJsonExports
        } else if i == 19 {
            TestVariationProp::Strict
        } else if i == 20 {
            TestVariationProp::StrictBuiltinIteratorReturn
        } else if i == 21 {
            TestVariationProp::StrictNullChecks
        } else if i == 22 {
            TestVariationProp::Target
        } else if i == 23 {
            TestVariationProp::UseDefineForClassFields
        } else if i == 24 {
            TestVariationProp::UseUnknownInCatchVariables
        } else {
            TestVariationProp::VerbatimModuleSyntax
        }
    }

    /// The option's name, in lower case.
    pub open spec fn name(self) -> Seq<char> {
        match self {
            TestVariationProp::AllowArbitraryExtensions => "allowarbitraryextensions"@,
            TestVariationProp::AllowImportingTsExtensions => "allowimportingtsextensions"@,
            TestVariationProp::AllowJS => "allowjs"@,
            TestVariationProp::ESModuleInterop => "esmoduleinterop"@,
            TestVariationProp::ExactOptionalPropertyTypes => "exactoptionalpropertytypes"@,
            TestVariationProp::IsolatedModules => "isolatedmodules"@,
            TestVariationProp::Jsx => "jsx"@,
            TestVariationProp::Module => "module"@,
            TestVariationProp::ModuleDetection => "moduledetection"@,
            TestVariationProp::ModuleResolution => "moduleresolution"@,
            TestVariationProp::NoEmit => "noemit"@,
            TestVariationProp::NoImplicitAny => "noimplicitany"@,
            TestVariationProp::NoImplicitOverride => "noimplicitoverride"@,
            TestVariationProp::NoPropertyAccessFromIndexSignature => "nopropertyaccessfromindexsignature"@,
            TestVariationProp::NoUncheckedIndexedAccess => "nouncheckedindexedaccess"@,
            TestVariationProp::NoUncheckedSideEffectImports => "nouncheckedsideeffectimports"@,
            TestVariationProp::PreserveConstEnums => "preserveconstenums"@,
            TestVariationProp::ResolveJsonModule => "resolvejsonmodule"@,
            TestVariationProp::ResolvePackageJsonExports => "resolvepackagejsonexports"@,
            TestVariationProp::Strict => "strict"@,
            TestVariationProp::StrictBuiltinIteratorReturn => "strictbuiltiniteratorreturn"@,
            TestVariationProp::StrictNullChecks => "strictnullchecks"@,
            TestVariationProp::Target => "target"@,
            TestVariationProp::UseDefineForClassFields => "usedefineforclassfields"@,
            TestVariationProp::UseUnknownInCatchVariables => "useunknownincatchvariables"@,
            TestVariationProp::VerbatimModuleSyntax => "verbatimmodulesyntax"@,
        }
    }

    /// Every option has a place, and stands at its place.
    pub proof fn lemma_index(p: TestVariationProp)
        ensures
            0 <= p.index() < AXIS_COUNT,
            TestVariationProp::at(p.index()) == p,
    {
    }

    /// Every place has an option, which has that place.
    pub proof fn lemma_at(i: int)
        requires
            0 <= i < AXIS_COUNT,
        ensures
            TestVariationProp::at(i).index() == i,
    {
    }

    /// The option's place in the order of the options.
    pub fn ordinal(self) -> (r: usize)
        ensures
            r == self.index(),
            r < AXIS_COUNT,
            TestVariationProp::at(r as int) == self,
    {
        match self {
            TestVariationProp::AllowArbitraryExtensions => 0,
            TestVariationProp::AllowImportingTsExtensions => 1,
            TestVariationProp::AllowJS => 2,
            TestVariationProp::ESModuleInterop => 3,
            TestVariationProp::ExactOptionalPropertyTypes => 4,
            TestVariationProp::IsolatedModules => 5,
            TestVariationProp::Jsx => 6,
            TestVariationProp::Module => 7,
            TestVariationProp::ModuleDetection => 8,
            TestVariationProp::ModuleResolution => 9,
            TestVariationProp::NoEmit => 10,
            TestVariationProp::NoImplicitAny => 11,
            TestVariationProp::NoImplicitOverride => 12,
            TestVariationProp::NoPropertyAccessFromIndexSignature => 13,
            TestVariationProp::NoUncheckedIndexedAccess => 14,
            TestVariationProp::NoUncheckedSideEffectImports => 15,
            TestVariationProp::PreserveConstEnums => 16,
            TestVariationProp::ResolveJsonModule => 17,
            TestVariationProp::ResolvePackageJsonExports => 18,
            TestVariationProp::Strict => 19,
            TestVariationProp::StrictBuiltinIteratorReturn => 20,
            TestVariationProp::StrictNullChecks => 21,
            TestVariationProp::Target => 22,
            TestVariationProp::UseDefineForClassFields => 23,
            TestVariationProp::UseUnknownInCatchVariables => 24,
            TestVariationProp::VerbatimModuleSyntax => 25,
        }
    }

    /// The option at place `i`.
    pub fn from_index(i: usize) -> (r: Self)
        requires
            i < AXIS_COUNT,
        ensures
            r == TestVariationProp::at(i as int),
            r.index() == i,
    {
        if i == 0 {
            TestVariationProp::AllowArbitraryExtensions
        } else if i == 1 {
            TestVariationProp::AllowImportingTsExtensions
        } else if i == 2 {
            TestVariationProp::AllowJS
        } else if i == 3 {
            TestVariationProp::ESModuleInterop
        } else if i == 4 {
            TestVariationProp::ExactOptionalPropertyTypes
        } else if i == 5 {
            TestVariationProp::IsolatedModules
        } else if i == 6 {
            TestVariationProp::Jsx
        } else if i == 7 {
            TestVariationProp::Module
        } else if i == 8 {
            TestVariationProp::ModuleDetection
        } else if i == 9 {
            TestVariationProp::ModuleResolution
        } else if i == 10 {
            TestVariationProp::NoEmit
        } else if i == 11 {
            TestVariationProp::NoImplicitAny
        } else if i == 12 {
            TestVariationProp::NoImplicitOverride
        } else if i == 13 {
            TestVariationProp::NoPropertyAccessFromIndexSignature
        } else if i == 14 {
            TestVariationProp::NoUncheckedIndexedAccess
        } else if i == 15 {
            TestVariationProp::NoUncheckedSideEffectImports
        } else if i == 16 {
            TestVariationProp::PreserveConstEnums
        } else if i == 17 {
            TestVariationProp::ResolveJsonModule
        } else if i == 18 {
            TestVariationProp::ResolvePackageJsonExports
        } else if i == 19 {
            TestVariationProp::Strict
        } else if i == 20 {
            TestVariationProp::StrictBuiltinIteratorReturn
        } else if i == 21 {
            TestVariationProp::StrictNullChecks
        } else if i == 22 {
            TestVariationProp::Target
        } else if i == 23 {
            TestVariationProp::UseDefineForClassFields
        } else if i == 24 {
            TestVariationProp::UseUnknownInCatchVariables
        } else {
            TestVariationProp::VerbatimModuleSyntax
        }
    }

    /// The option's name, in lower case.
    pub fn as_str(self) -> (r: &'static str)
        ensures
            r@ == self.name(),
    {
        match self {
            TestVariationProp::AllowArbitraryExtensions => "allowarbitraryextensions",
            TestVariationProp::AllowImportingTsExtensions => "allowimportingtsextensions",
            TestVariationProp::AllowJS => "allowjs",
            TestVariationProp::ESModuleInterop => "esmoduleinterop",
            TestVariationProp::ExactOptionalPropertyTypes => "exactoptionalpropertytypes",
            TestVariationProp::IsolatedModules => "isolatedmodules",
            TestVariationProp::Jsx => "jsx",
            TestVariationProp::Module => "module",
            TestVariationProp::ModuleDetection => "moduledetection",
            TestVariationProp::ModuleResolution => "moduleresolution",
            TestVariationProp::NoEmit => "noemit",
            TestVariationProp::NoImplicitAny => "noimplicitany",
            TestVariationProp::NoImplicitOverride => "noimplicitoverride",
            TestVariationProp::NoPropertyAccessFromIndexSignature => "nopropertyaccessfromindexsignature",
            TestVariationProp::NoUncheckedIndexedAccess => "nouncheckedindexedaccess",
            TestVariationProp::NoUncheckedSideEffectImports => "nouncheckedsideeffectimports",
            TestVariationProp::PreserveConstEnums => "preserveconstenums",
            TestVariationProp::ResolveJsonModule => "resolvejsonmodule",
            TestVariationProp::ResolvePackageJsonExports => "resolvepackagejsonexports",
            TestVariationProp::Strict => "strict",
            TestVariationProp::StrictBuiltinIteratorReturn => "strictbuiltiniteratorreturn",
            TestVariationProp::StrictNullChecks => "strictnullchecks",
            TestVariationProp::Target => "target",
            TestVariationProp::UseDefineForClassFields => "usedefineforclassfields",
            TestVariationProp::UseUnknownInCatchVariables => "useunknownincatchvariables",
            TestVariationProp::VerbatimModuleSyntax => "verbatimmodulesyntax",
        }
    }

    /// The first option from place `from` on whose name has the bytes `name`.
    pub open spec fn named_from(name: Seq<u8>, from: int) -> Option<TestVariationProp>
        decreases AXIS_COUNT - from,
    {
        if 0 <= from < AXIS_COUNT {
            if vstd::utf8::encode_utf8(TestVariationProp::at(from).name()) == name {
                Some(TestVariationProp::at(from))
            } else {
                TestVariationProp::named_from(name, from + 1)
            }
        } else {
            None
        }
    }

    /// The option whose name has the bytes `name`.
    pub open spec fn named(name: Seq<u8>) -> Option<TestVariationProp> {
        TestVariationProp::named_from(name, 0)
    }

    /// The option with the name `value`, which is in lower case.
    pub fn try_from(value: &[u8]) -> (r: Result<Self, ()>)
        ensures
            match r {
                Ok(prop) => TestVariationProp::named(value@) == Some(prop),
                Err(_) => TestVariationProp::named(value@) is None,
            },
    {
        let mut i: usize = 0;
        while i < AXIS_COUNT
            invariant
                i <= AXIS_COUNT,
                TestVariationProp::named(value@) == TestVariationProp::named_from(value@, i as int),
            decreases AXIS_COUNT - i,
        {
            let prop = TestVariationProp::from_index(i);
            if bytes_eq(prop.as_str().as_bytes(), value) {
                return Ok(prop);
            }
            i += 1;
        }
        Err(())
    }

    /// The values that `*` stands for, for the options that allow it.
    pub open spec fn wildcard(self) -> Option<Seq<Seq<char>>> {
        match self {
            TestVariationProp::Module => Some(
                seq![
                    "amd"@,
                    "es6"@,
                    "umd"@,
                    "none"@,
                    "es2020"@,
                    "es2022"@,
                    "esnext"@,
                    "node16"@,
                    "node18"@,
                    "system"@,
                    "commonjs"@,
                    "nodenext"@,
                    "preserve"@,
                ],
            ),
            TestVariationProp::StrictBuiltinIteratorReturn
            | TestVariationProp::UseDefineForClassFields
            | TestVariationProp::Strict => Some(seq!["true"@, "false"@]),
            _ => None,
        }
    }

    /// The values that `*` stands for, for an option that allows it.
    pub fn expand_wildcard(self) -> (r: Vec<CompactString>)
        requires
            self.wildcard() is Some,
        ensures
            self.wildcard() == Some(compact_texts(r@)),
    {
        self.try_expand_wildcard().unwrap()
    }

    /// The values that `*` stands for, or `None` for an option that does not
    /// allow it.
    pub fn try_expand_wildcard(self) -> (r: Option<Vec<CompactString>>)
        ensures
            match r {
                Some(v) => self.wildcard() == Some(compact_texts(v@)),
                None => self.wildcard() is None,
            },
    {
        match self {
            TestVariationProp::Module => {
                let mut v: Vec<CompactString> = Vec::new();
                v.push(compact_from_str("amd"));
                v.push(compact_from_str("es6"));
                v.push(compact_from_str("umd"));
                v.push(compact_from_str("none"));
                v.push(compact_from_str("es2020"));
                v.push(compact_from_str("es2022"));
                v.push(compact_from_str("esnext"));
                v.push(compact_from_str("node16"));
                v.push(compact_from_str("node18"));
                v.push(compact_from_str("system"));
                v.push(compact_from_str("commonjs"));
                v.push(compact_from_str("nodenext"));
                v.push(compact_from_str("preserve"));
                assert(compact_texts(v@) =~= self.wildcard()->0);
                Some(v)
            },
            TestVariationProp::StrictBuiltinIteratorReturn
            | TestVariationProp::UseDefineForClassFields
            | TestVariationProp::Strict => {
                let mut v: Vec<CompactString> = Vec::new();
                v.push(compact_from_str("true"));
                v.push(compact_from_str("false"));
                assert(compact_texts(v@) =~= self.wildcard()->0);
                Some(v)
            },
            _ => None,
        }
    }
}

/// The values that a test unit declares for each option that can vary.
#[derive(Debug, PartialEq, Eq)]
pub struct TestVariations {
    pub allow_arbitrary_extensions: Vec<CompactString>,
    pub allow_importing_ts_extensions: Vec<CompactString>,
    pub allow_js: Vec<CompactString>,
    pub es_module_interop: Vec<CompactString>,
    pub exact_optional_property_types: Vec<CompactString>,
    pub isolated_modules: Vec<CompactString>,
    pub jsx: Vec<CompactString>,
    pub module: Vec<CompactString>,
    pub module_detection: Vec<CompactString>,
    pub module_resolution: Vec<CompactString>,
    pub no_emit: Vec<CompactString>,
    pub no_implicit_any: Vec<CompactString>,
    pub no_implicit_override: Vec<CompactString>,
    pub no_property_access_from_index_signature: Vec<CompactString>,
    pub no_unchecked_indexed_access: Vec<CompactString>,
    pub no_unchecked_side_effect_imports: Vec<CompactString>,
    pub preserve_const_enums: Vec<CompactString>,
    pub resolve_json_module: Vec<CompactString>,
    pub resolve_package_json_exports: Vec<CompactString>,
    pub strict: Vec<CompactString>,
    pub strict_builtin_iterator_return: Vec<CompactString>,
    pub strict_null_checks: Vec<CompactString>,
    pub target: Vec<CompactString>,
    pub use_define_for_class_fields: Vec<CompactString>,
    pub use_unknown_in_catch_variables: Vec<CompactString>,
    pub verbatim_module_syntax: Vec<CompactString>,
}

impl TestVariations {
    /// The values declared for `prop`.
    pub open spec fn field(&self, prop: TestVariationProp) -> Seq<CompactString> {
        match prop {
            TestVariationProp::AllowArbitraryExtensions => self.allow_arbitrary_extensions@,
            TestVariationProp::AllowImportingTsExtensions => self.allow_importing_ts_extensions@,
            TestVariationProp::AllowJS => self.allow_js@,
            TestVariationProp::ESModuleInterop => self.es_module_interop@,
            TestVariationProp::ExactOptionalPropertyTypes => self.exact_optional_property_types@,
            TestVariationProp::IsolatedModules => self.isolated_modules@,
            TestVariationProp::Jsx => self.jsx@,
            TestVariationProp::Module => self.module@,
            TestVariationProp::ModuleDetection => self.module_detection@,
            TestVariationProp::ModuleResolution => self.module_resolution@,
            TestVariationProp::NoEmit => self.no_emit@,
            TestVariationProp::NoImplicitAny => self.no_implicit_any@,
            TestVariationProp::NoImplicitOverride => self.no_implicit_override@,
            TestVariationProp::NoPropertyAccessFromIndexSignature => self.no_property_access_from_index_signature@,
            TestVariationProp::NoUncheckedIndexedAccess => self.no_unchecked_indexed_access@,
            TestVariationProp::NoUncheckedSideEffectImports => self.no_unchecked_side_effect_imports@,
            TestVariationProp::PreserveConstEnums => self.preserve_const_enums@,
            TestVariationProp::ResolveJsonModule => self.resolve_json_module@,
            TestVariationProp::ResolvePackageJsonExports => self.resolve_package_json_exports@,
            TestVariationProp::Strict => self.strict@,
            TestVariationProp::StrictBuiltinIteratorReturn => self.strict_builtin_iterator_return@,
            TestVariationProp::StrictNullChecks => self.strict_null_checks@,
            TestVariationProp::Target => self.target@,
            TestVariationProp::UseDefineForClassFields => self.use_define_for_class_fields@,
            TestVariationProp::UseUnknownInCatchVariables => self.use_unknown_in_catch_variables@,
            TestVariationProp::VerbatimModuleSyntax => self.verbatim_module_syntax@,
        }
    }

    /// The texts of the values declared for `prop`.
    pub open spec fn values(&self, prop: TestVariationProp) -> Seq<Seq<char>> {
        compact_texts(self.field(prop))
    }

    /// The values declared for `prop`.
    pub fn get(&self, prop: TestVariationProp) -> (r: &Vec<CompactString>)
        ensures
            r@ == self.field(prop),
    {
        match prop {
            TestVariationProp::AllowArbitraryExtensions => &self.allow_arbitrary_extensions,
            TestVariationProp::AllowImportingTsExtensions => &self.allow_importing_ts_extensions,
            TestVariationProp::AllowJS => &self.allow_js,
            TestVariationProp::ESModuleInterop => &self.es_module_interop,
            TestVariationProp::ExactOptionalPropertyTypes => &self.exact_optional_property_types,
            TestVariationProp::IsolatedModules => &self.isolated_modules,
            TestVariationProp::Jsx => &self.jsx,
            TestVariationProp::Module => &self.module,
            TestVariationProp::ModuleDetection => &self.module_detection,
            TestVariationProp::ModuleResolution => &self.module_resolution,
            TestVariationProp::NoEmit => &self.no_emit,
            TestVariationProp::NoImplicitAny => &self.no_implicit_any,
            TestVariationProp::NoImplicitOverride => &self.no_implicit_override,
            TestVariationProp::NoPropertyAccessFromIndexSignature => &self.no_property_access_from_index_signature,
            TestVariationProp::NoUncheckedIndexedAccess => &self.no_unchecked_indexed_access,
            TestVariationProp::NoUncheckedSideEffectImports => &self.no_unchecked_side_effect_imports,
            TestVariationProp::PreserveConstEnums => &self.preserve_const_enums,
            TestVariationProp::ResolveJsonModule => &self.resolve_json_module,
            TestVariationProp::ResolvePackageJsonExports => &self.resolve_package_json_exports,
            TestVariationProp::Strict => &self.strict,
            TestVariationProp::StrictBuiltinIteratorReturn => &self.strict_builtin_iterator_return,
            TestVariationProp::StrictNullChecks => &self.strict_null_checks,
            TestVariationProp::Target => &self.target,
            TestVariationProp::UseDefineForClassFields => &self.use_define_for_class_fields,
            TestVariationProp::UseUnknownInCatchVariables => &self.use_unknown_in_catch_variables,
            TestVariationProp::VerbatimModuleSyntax => &self.verbatim_module_syntax,
        }
    }

    /// Adds `value` to the values of `prop`.
    pub fn push(&mut self, prop: TestVariationProp, value: CompactString)
        ensures
            final(self).field(prop) == old(self).field(prop).push(value),
            forall|q: TestVariationProp| q != prop ==> final(self).field(q) == old(self).field(q),
    {
        match prop {
            TestVariationProp::AllowArbitraryExtensions => self.allow_arbitrary_extensions.push(value),
            TestVariationProp::AllowImportingTsExtensions => self.allow_importing_ts_extensions.push(value),
            TestVariationProp::AllowJS => self.allow_js.push(value),
            TestVariationProp::ESModuleInterop => self.es_module_interop.push(value),
            TestVariationProp::ExactOptionalPropertyTypes => self.exact_optional_property_types.push(value),
            TestVariationProp::IsolatedModules => self.isolated_modules.push(value),
            TestVariationProp::Jsx => self.jsx.push(value),
            TestVariationProp::Module => self.module.push(value),
            TestVariationProp::ModuleDetection => self.module_detection.push(value),
            TestVariationProp::ModuleResolution => self.module_resolution.push(value),
            TestVariationProp::NoEmit => self.no_emit.push(value),
            TestVariationProp::NoImplicitAny => self.no_implicit_any.push(value),
            TestVariationProp::NoImplicitOverride => self.no_implicit_override.push(value),
            TestVariationProp::NoPropertyAccessFromIndexSignature => self.no_property_access_from_index_signature.push(value),
            TestVariationProp::NoUncheckedIndexedAccess => self.no_unchecked_indexed_access.push(value),
            TestVariationProp::NoUncheckedSideEffectImports => self.no_unchecked_side_effect_imports.push(value),
            TestVariationProp::PreserveConstEnums => self.preserve_const_enums.push(value),
            TestVariationProp::ResolveJsonModule => self.resolve_json_module.push(value),
            TestVariationProp::ResolvePackageJsonExports => self.resolve_package_json_exports.push(value),
            TestVariationProp::Strict => self.strict.push(value),
            TestVariationProp::StrictBuiltinIteratorReturn => self.strict_builtin_iterator_return.push(value),
            TestVariationProp::StrictNullChecks => self.strict_null_checks.push(value),
            TestVariationProp::Target => self.target.push(value),
            TestVariationProp::UseDefineForClassFields => self.use_define_for_class_fields.push(value),
            TestVariationProp::UseUnknownInCatchVariables => self.use_unknown_in_catch_variables.push(value),
            TestVariationProp::VerbatimModuleSyntax => self.verbatim_module_syntax.push(value),
        }
    }

    /// Forgets the values of `prop`.
    pub fn clear(&mut self, prop: TestVariationProp)
        ensures
            final(self).field(prop).len() == 0,
            forall|q: TestVariationProp| q != prop ==> final(self).field(q) == old(self).field(q),
    {
        match prop {
            TestVariationProp::AllowArbitraryExtensions => self.allow_arbitrary_extensions.clear(),
            TestVariationProp::AllowImportingTsExtensions => self.allow_importing_ts_extensions.clear(),
            TestVariationProp::AllowJS => self.allow_js.clear(),
            TestVariationProp::ESModuleInterop => self.es_module_interop.clear(),
            TestVariationProp::ExactOptionalPropertyTypes => self.exact_optional_property_types.clear(),
            TestVariationProp::IsolatedModules => self.isolated_modules.clear(),
            TestVariationProp::Jsx => self.jsx.clear(),
            TestVariationProp::Module => self.module.clear(),
            TestVariationProp::ModuleDetection => self.module_detection.clear(),
            TestVariationProp::ModuleResolution => self.module_resolution.clear(),
            TestVariationProp::NoEmit => self.no_emit.clear(),
            TestVariationProp::NoImplicitAny => self.no_implicit_any.clear(),
            TestVariationProp::NoImplicitOverride => self.no_implicit_override.clear(),
            TestVariationProp::NoPropertyAccessFromIndexSignature => self.no_property_access_from_index_signature.clear(),
            TestVariationProp::NoUncheckedIndexedAccess => self.no_unchecked_indexed_access.clear(),
            TestVariationProp::NoUncheckedSideEffectImports => self.no_unchecked_side_effect_imports.clear(),
            TestVariationProp::PreserveConstEnums => self.preserve_const_enums.clear(),
            TestVariationProp::ResolveJsonModule => self.resolve_json_module.clear(),
            TestVariationProp::ResolvePackageJsonExports => self.resolve_package_json_exports.clear(),
            TestVariationProp::Strict => self.strict.clear(),
            TestVariationProp::StrictBuiltinIteratorReturn => self.strict_builtin_iterator_return.clear(),
            TestVariationProp::StrictNullChecks => self.strict_null_checks.clear(),
            TestVariationProp::Target => self.target.clear(),
            TestVariationProp::UseDefineForClassFields => self.use_define_for_class_fields.clear(),
            TestVariationProp::UseUnknownInCatchVariables => self.use_unknown_in_catch_variables.clear(),
            TestVariationProp::VerbatimModuleSyntax => self.verbatim_module_syntax.clear(),
        }
    }
}

impl View for TestVariations {
    type V = Seq<Seq<Seq<char>>>;

    /// For each option, in order, the texts of its values.
    open spec fn view(&self) -> Seq<Seq<Seq<char>>> {
        Seq::new(AXIS_COUNT as nat, |i: int| self.values(TestVariationProp::at(i)))
    }
}

impl Default for TestVariations {
    fn default() -> (r: Self)
        ensures
            forall|p: TestVariationProp| r.field(p).len() == 0,
    {
        TestVariations {
            allow_arbitrary_extensions: Vec::new(),
            allow_importing_ts_extensions: Vec::new(),
            allow_js: Vec::new(),
            es_module_interop: Vec::new(),
            exact_optional_property_types: Vec::new(),
            isolated_modules: Vec::new(),
            jsx: Vec::new(),
            module: Vec::new(),
            module_detection: Vec::new(),
            module_resolution: Vec::new(),
            no_emit: Vec::new(),
            no_implicit_any: Vec::new(),
            no_implicit_override: Vec::new(),
            no_property_access_from_index_signature: Vec::new(),
            no_unchecked_indexed_access: Vec::new(),
            no_unchecked_side_effect_imports: Vec::new(),
            preserve_const_enums: Vec::new(),
            resolve_json_module: Vec::new(),
            resolve_package_json_exports: Vec::new(),
            strict: Vec::new(),
            strict_builtin_iterator_return: Vec::new(),
            strict_null_checks: Vec::new(),
            target: Vec::new(),
            use_define_for_class_fields: Vec::new(),
            use_unknown_in_catch_variables: Vec::new(),
            verbatim_module_syntax: Vec::new(),
        }
    }
}

/// One combination of values: for each option that the test unit declares
/// values for, the value chosen.
#[derive(Debug, PartialEq, Eq, Clone)]
pub struct TestVariant<'a> {
    /// `(option=value,...)` over the options that have several values, in
    /// the order of the options; empty where there is no such option.
    pub name: String,
    pub allow_arbitrary_extensions: Option<&'a str>,
    pub allow_importing_ts_extensions: Option<&'a str>,
    pub allow_js: Option<&'a str>,
    pub es_module_interop: Option<&'a str>,
    pub exact_optional_property_types: Option<&'a str>,
    pub isolated_modules: Option<&'a str>,
    pub jsx: Option<&'a str>,
    pub module: Option<&'a str>,
    pub module_detection: Option<&'a str>,
    pub module_resolution: Option<&'a str>,
    pub no_emit: Option<&'a str>,
    pub no_implicit_any: Option<&'a str>,
    pub no_implicit_override: Option<&'a str>,
    pub no_property_access_from_index_signature: Option<&'a str>,
    pub no_unchecked_indexed_access: Option<&'a str>,
    pub no_unchecked_side_effect_imports: Option<&'a str>,
    pub preserve_const_enums: Option<&'a str>,
    pub resolve_json_module: Option<&'a str>,
    pub resolve_package_json_exports: Option<&'a str>,
    pub strict: Option<&'a str>,
    pub strict_builtin_iterator_return: Option<&'a str>,
    pub strict_null_checks: Option<&'a str>,
    pub target: Option<&'a str>,
    pub use_define_for_class_fields: Option<&'a str>,
    pub use_unknown_in_catch_variables: Option<&'a str>,
    pub verbatim_module_syntax: Option<&'a str>,
}

/// What a variant holds.
pub struct TestVariantView {
    pub name: Seq<char>,
    /// For each option, in order, the text of the chosen value.
    pub values: Seq<Option<Seq<char>>>,
}

/// The text of a string slice that may be absent.
pub open spec fn text_opt(s: Option<&str>) -> Option<Seq<char>> {
    match s {
        Some(s) => Some(s@),
        None => None,
    }
}

/// The part of a variant's name for one option: `option=value`.
pub open spec fn name_part(prop: TestVariationProp, value: Seq<char>) -> Seq<char> {
    prop.name() + "="@ + value
}

/// The first `n` parts of a variant's name, separated by commas.
pub open spec fn joined_parts(
    props: Seq<TestVariationProp>,
    values: Seq<Option<Seq<char>>>,
    n: int,
) -> Seq<char>
    decreases n,
{
    if n <= 0 {
        Seq::empty()
    } else if n == 1 {
        name_part(props[0], values[props[0].index()]->0)
    } else {
        joined_parts(props, values, n - 1) + ","@ + name_part(
            props[n - 1],
            values[props[n - 1].index()]->0,
        )
    }
}

/// The name of the variant with the given values, over the given options.
pub open spec fn variant_name(props: Seq<TestVariationProp>, values: Seq<Option<Seq<char>>>) -> Seq<
    char,
> {
    if props.len() == 0 {
        Seq::empty()
    } else {
        "("@ + joined_parts(props, values, props.len() as int) + ")"@
    }
}

impl<'a> TestVariant<'a> {
    /// The value chosen for `prop`.
    pub open spec fn value(&self, prop: TestVariationProp) -> Option<&'a str> {
        match prop {
            TestVariationProp::AllowArbitraryExtensions => self.allow_arbitrary_extensions,
            TestVariationProp::AllowImportingTsExtensions => self.allow_importing_ts_extensions,
            TestVariationProp::AllowJS => self.allow_js,
            TestVariationProp::ESModuleInterop => self.es_module_interop,
            TestVariationProp::ExactOptionalPropertyTypes => self.exact_optional_property_types,
            TestVariationProp::IsolatedModules => self.isolated_modules,
            TestVariationProp::Jsx => self.jsx,
            TestVariationProp::Module => self.module,
            TestVariationProp::ModuleDetection => self.module_detection,
            TestVariationProp::ModuleResolution => self.module_resolution,
            TestVariationProp::NoEmit => self.no_emit,
            TestVariationProp::NoImplicitAny => self.no_implicit_any,
            TestVariationProp::NoImplicitOverride => self.no_implicit_override,
            TestVariationProp::NoPropertyAccessFromIndexSignature => self.no_property_access_from_index_signature,
            TestVariationProp::NoUncheckedIndexedAccess => self.no_unchecked_indexed_access,
            TestVariationProp::NoUncheckedSideEffectImports => self.no_unchecked_side_effect_imports,
            TestVariationProp::PreserveConstEnums => self.preserve_const_enums,
            TestVariationProp::ResolveJsonModule => self.resolve_json_module,
            TestVariationProp::ResolvePackageJsonExports => self.resolve_package_json_exports,
            TestVariationProp::Strict => self.strict,
            TestVariationProp::StrictBuiltinIteratorReturn => self.strict_builtin_iterator_return,
            TestVariationProp::StrictNullChecks => self.strict_null_checks,
            TestVariationProp::Target => self.target,
            TestVariationProp::UseDefineForClassFields => self.use_define_for_class_fields,
            TestVariationProp::UseUnknownInCatchVariables => self.use_unknown_in_catch_variables,
            TestVariationProp::VerbatimModuleSyntax => self.verbatim_module_syntax,
        }
    }

    /// Chooses `value` for `prop`.
    pub fn set(&mut self, prop: TestVariationProp, value: Option<&'a str>)
        ensures
            final(self).value(prop) == value,
            forall|q: TestVariationProp| q != prop ==> final(self).value(q) == old(self).value(q),
            final(self).name == old(self).name,
    {
        match prop {
            TestVariationProp::AllowArbitraryExtensions => self.allow_arbitrary_extensions = value,
            TestVariationProp::AllowImportingTsExtensions => self.allow_importing_ts_extensions = value,
            TestVariationProp::AllowJS => self.allow_js = value,
            TestVariationProp::ESModuleInterop => self.es_module_interop = value,
            TestVariationProp::ExactOptionalPropertyTypes => self.exact_optional_property_types = value,
            TestVariationProp::IsolatedModules => self.isolated_modules = value,
            TestVariationProp::Jsx => self.jsx = value,
            TestVariationProp::Module => self.module = value,
            TestVariationProp::ModuleDetection => self.module_detection = value,
            TestVariationProp::ModuleResolution => self.module_resolution = value,
            TestVariationProp::NoEmit => self.no_emit = value,
            TestVariationProp::NoImplicitAny => self.no_implicit_any = value,
            TestVariationProp::NoImplicitOverride => self.no_implicit_override = value,
            TestVariationProp::NoPropertyAccessFromIndexSignature => self.no_property_access_from_index_signature = value,
            TestVariationProp::NoUncheckedIndexedAccess => self.no_unchecked_indexed_access = value,
            TestVariationProp::NoUncheckedSideEffectImports => self.no_unchecked_side_effect_imports = value,
            TestVariationProp::PreserveConstEnums => self.preserve_const_enums = value,
            TestVariationProp::ResolveJsonModule => self.resolve_json_module = value,
            TestVariationProp::ResolvePackageJsonExports => self.resolve_package_json_exports = value,
            TestVariationProp::Strict => self.strict = value,
            TestVariationProp::StrictBuiltinIteratorReturn => self.strict_builtin_iterator_return = value,
            TestVariationProp::StrictNullChecks => self.strict_null_checks = value,
            TestVariationProp::Target => self.target = value,
            TestVariationProp::UseDefineForClassFields => self.use_define_for_class_fields = value,
            TestVariationProp::UseUnknownInCatchVariables => self.use_unknown_in_catch_variables = value,
            TestVariationProp::VerbatimModuleSyntax => self.verbatim_module_syntax = value,
        }
    }

    /// The value chosen for `prop`.
    pub fn get(&self, prop: TestVariationProp) -> (r: Option<&'a str>)
        ensures
            r == self.value(prop),
    {
        match prop {
            TestVariationProp::AllowArbitraryExtensions => self.allow_arbitrary_extensions,
            TestVariationProp::AllowImportingTsExtensions => self.allow_importing_ts_extensions,
            TestVariationProp::AllowJS => self.allow_js,
            TestVariationProp::ESModuleInterop => self.es_module_interop,
            TestVariationProp::ExactOptionalPropertyTypes => self.exact_optional_property_types,
            TestVariationProp::IsolatedModules => self.isolated_modules,
            TestVariationProp::Jsx => self.jsx,
            TestVariationProp::Module => self.module,
            TestVariationProp::ModuleDetection => self.module_detection,
            TestVariationProp::ModuleResolution => self.module_resolution,
            TestVariationProp::NoEmit => self.no_emit,
            TestVariationProp::NoImplicitAny => self.no_implicit_any,
            TestVariationProp::NoImplicitOverride => self.no_implicit_override,
            TestVariationProp::NoPropertyAccessFromIndexSignature => self.no_property_access_from_index_signature,
            TestVariationProp::NoUncheckedIndexedAccess => self.no_unchecked_indexed_access,
            TestVariationProp::NoUncheckedSideEffectImports => self.no_unchecked_side_effect_imports,
            TestVariationProp::PreserveConstEnums => self.preserve_const_enums,
            TestVariationProp::ResolveJsonModule => self.resolve_json_module,
            TestVariationProp::ResolvePackageJsonExports => self.resolve_package_json_exports,
            TestVariationProp::Strict => self.strict,
            TestVariationProp::StrictBuiltinIteratorReturn => self.strict_builtin_iterator_return,
            TestVariationProp::StrictNullChecks => self.strict_null_checks,
            TestVariationProp::Target => self.target,
            TestVariationProp::UseDefineForClassFields => self.use_define_for_class_fields,
            TestVariationProp::UseUnknownInCatchVariables => self.use_unknown_in_catch_variables,
            TestVariationProp::VerbatimModuleSyntax => self.verbatim_module_syntax,
        }
    }

    /// Sets the name from the values chosen for `name_props`, each of which
    /// has a value.
    pub fn update_name(&mut self, name_props: &[TestVariationProp])
        requires
            forall|i: int| 0 <= i < name_props@.len() ==> old(self).value(name_props@[i]) is Some,
        ensures
            final(self).name@ == variant_name(name_props@, old(self)@.values),
            forall|q: TestVariationProp| final(self).value(q) == old(self).value(q),
    {
        let ghost values = self@.values;
        let mut name = String::new();
        if name_props.len() > 0 {
            name.append("(");
            let mut i: usize = 0;
            while i < name_props.len()
                invariant
                    i <= name_props@.len(),
                    values == self@.values,
                    forall|i: int| 0 <= i < name_props@.len() ==> self.value(name_props@[i]) is Some,
                    name@ == "("@ + joined_parts(name_props@, values, i as int),
                decreases name_props@.len() - i,
            {
                let prop = name_props[i];
                let value = self.get(prop).unwrap();
                let ghost before = name@;
                if i > 0 {
                    name.append(",");
                }
                name.append(prop.as_str());
                name.append("=");
                name.append(value);
                proof {
                    TestVariationProp::lemma_index(prop);
                    assert(values[prop.index()] == text_opt(self.value(prop)));
                    let part = name_part(prop, value@);
                    if i == 0 {
                        assert(before =~= "("@);
                        assert(name@ =~= "("@ + part);
                    } else {
                        assert(name@ =~= "("@ + (joined_parts(name_props@, values, i as int) + ","@
                            + part));
                    }
                }
                i += 1;
            }
            name.append(")");
        } else {
            assert(name@ =~= Seq::<char>::empty());
        }
        self.name = name;
    }

    /// A copy of the variant.
    pub fn duplicate(&self) -> (r: Self)
        ensures
            r == *self,
    {
        TestVariant {
            name: self.name.clone(),
            allow_arbitrary_extensions: self.allow_arbitrary_extensions,
            allow_importing_ts_extensions: self.allow_importing_ts_extensions,
            allow_js: self.allow_js,
            es_module_interop: self.es_module_interop,
            exact_optional_property_types: self.exact_optional_property_types,
            isolated_modules: self.isolated_modules,
            jsx: self.jsx,
            module: self.module,
            module_detection: self.module_detection,
            module_resolution: self.module_resolution,
            no_emit: self.no_emit,
            no_implicit_any: self.no_implicit_any,
            no_implicit_override: self.no_implicit_override,
            no_property_access_from_index_signature: self.no_property_access_from_index_signature,
            no_unchecked_indexed_access: self.no_unchecked_indexed_access,
            no_unchecked_side_effect_imports: self.no_unchecked_side_effect_imports,
            preserve_const_enums: self.preserve_const_enums,
            resolve_json_module: self.resolve_json_module,
            resolve_package_json_exports: self.resolve_package_json_exports,
            strict: self.strict,
            strict_builtin_iterator_return: self.strict_builtin_iterator_return,
            strict_null_checks: self.strict_null_checks,
            target: self.target,
            use_define_for_class_fields: self.use_define_for_class_fields,
            use_unknown_in_catch_variables: self.use_unknown_in_catch_variables,
            verbatim_module_syntax: self.verbatim_module_syntax,
        }
    }
}

impl<'a> View for TestVariant<'a> {
    type V = TestVariantView;

    open spec fn view(&self) -> TestVariantView {
        TestVariantView {
            name: self.name@,
            values: Seq::new(
                AXIS_COUNT as nat,
                |i: int| text_opt(self.value(TestVariationProp::at(i))),
            ),
        }
    }
}

impl<'a> Default for TestVariant<'a> {
    fn default() -> (r: Self)
        ensures
            r.name@.len() == 0,
            forall|p: TestVariationProp| r.value(p) is None,
    {
        TestVariant {
            name: String::new(),
            allow_arbitrary_extensions: None,
            allow_importing_ts_extensions: None,
            allow_js: None,
            es_module_interop: None,
            exact_optional_property_types: None,
            isolated_modules: None,
            jsx: None,
            module: None,
            module_detection: None,
            module_resolution: None,
            no_emit: None,
            no_implicit_any: None,
            no_implicit_override: None,
            no_property_access_from_index_signature: None,
            no_unchecked_indexed_access: None,
            no_unchecked_side_effect_imports: None,
            preserve_const_enums: None,
            resolve_json_module: None,
            resolve_package_json_exports: None,
            strict: None,
            strict_builtin_iterator_return: None,
            strict_null_checks: None,
            target: None,
            use_define_for_class_fields: None,
            use_unknown_in_catch_variables: None,
            verbatim_module_syntax: None,
        }
    }
}

} // verus!

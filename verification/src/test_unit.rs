//! A test unit: one document that holds the files of a test case, the
//! settings of the test and the compiler options that it varies.
//!
//! ```text
//! // @strict: true, false
//! // @filename: /a.ts
//! export const a = 1;
//! // @filename: /b.ts
//! import { a } from "./a";
//! ```
//!
//! A line that starts with `//`, then `@name:` and a value is a directive.
//! The files are slices of the document: a file runs from the line behind its
//! `@filename` directive up to the next directive.

use vstd::prelude::*;
use vstd::slice::slice_subrange;
use vstd::string::StringSliceAdditionalSpecFns;
use std::path::Path;
use compact_str::CompactString;
use rustc_hash::{FxBuildHasher, FxHashMap};
use crate::byte_utils::{
    trim_start, trim_end, trimmed, trim_space_start, trim_space_end, trim_space, SPACE,
};
use crate::scan::{
    first_from, first_index, find, find_from, lemma_first_from, text_of, text, text_between,
    read_between, lowercase, to_lowercase, bytes_eq, SLASH, AT, COLON, COMMA,
};
use crate::baseline::line_iter::{LineIter, line_content, line_stop, lemma_line_bounds};
use crate::variations::{
    TestVariationProp, TestVariations, AXIS_COUNT, compact_chars, compact_texts, compact_from_utf8,
    compact_as_str, text_opt,
};

verus! {

/// `rustc_hash::FxBuildHasher`, the hasher of the map of symlinks.
#[verifier::external_type_specification]
#[verifier::external_body]
pub struct ExFxBuildHasher(FxBuildHasher);

/// The symlinks of a test unit: for each link, its target.
pub type Symlinks<'a> = FxHashMap<&'a str, &'a str>;

/// The pairs of link and target that a map of symlinks holds.
pub uninterp spec fn link_pairs(m: FxHashMap<&str, &str>) -> Map<Seq<char>, Seq<char>>;

/// The text of a path, as `Path::to_str` gives it; `None` where the path is
/// no Unicode text.
pub uninterp spec fn path_text(path: &Path) -> Option<Seq<char>>;

/// The text of the file name of a path, which is its last component as
/// `Path::file_name` gives it; `None` where the path has no file name or the
/// name is no Unicode text.
pub uninterp spec fn path_file_name(path: &Path) -> Option<Seq<char>>;

/// No symlinks.
pub open spec fn no_links() -> Map<Seq<char>, Seq<char>> {
    Map::empty()
}

/// `FxHashMap::default`: a map without entries.
#[verifier::external_body]
fn links_new<'a>() -> (r: Symlinks<'a>)
    ensures
        link_pairs(r) == no_links(),
{
    FxHashMap::default()
}

/// `HashMap::insert`: the map then holds `to` for `from`, in place of what it
/// held for `from` before, and is unchanged for every other key.
#[verifier::external_body]
fn links_insert<'a>(m: &mut Symlinks<'a>, from: &'a str, to: &'a str)
    ensures
        link_pairs(*final(m)) == link_pairs(*old(m)).insert(from@, to@),
{
    m.insert(from, to);
}

/// `Path::file_name`: the last component of the path, where the path has
/// one, handed on as a path of its own.
#[verifier::external_body]
fn file_name_of<'a>(path: &'a Path) -> (r: Option<&'a Path>)
    ensures
        match r {
            Some(name) => path_text(name) == path_file_name(path),
            None => path_file_name(path) is None,
        },
{
    path.file_name().map(Path::new)
}

/// `Path::to_str`: the text of the path, where it is Unicode text.
#[verifier::external_body]
fn text_of_path<'a>(path: &'a Path) -> (r: Option<&'a str>)
    ensures
        text_opt(r) == path_text(path),
{
    path.to_str()
}

/// The file name of `path` as text.
fn default_name<'a>(path: &'a Path) -> (r: Option<&'a str>)
    ensures
        text_opt(r) == path_file_name(path),
{
    match file_name_of(path) {
        Some(name) => text_of_path(name),
        None => None,
    }
}

/// The settings of a test unit that hold for all its variants.
#[derive(Debug, PartialEq, Eq, Clone)]
pub struct TestSettings {
    pub no_types_and_symbols: bool,
    pub base_url: Option<CompactString>,
    pub no_implicit_references: bool,
    pub include_built_file: Option<CompactString>,
    pub lib_files: Option<Vec<CompactString>>,
}

/// What the settings hold.
pub struct SettingsView {
    pub no_types_and_symbols: bool,
    pub base_url: Option<Seq<char>>,
    pub no_implicit_references: bool,
    pub include_built_file: Option<Seq<char>>,
    pub lib_files: Option<Seq<Seq<char>>>,
}

/// The text of a `CompactString` that may be absent.
pub open spec fn compact_opt(s: Option<CompactString>) -> Option<Seq<char>> {
    match s {
        Some(s) => Some(compact_chars(s)),
        None => None,
    }
}

impl View for TestSettings {
    type V = SettingsView;

    open spec fn view(&self) -> SettingsView {
        SettingsView {
            no_types_and_symbols: self.no_types_and_symbols,
            base_url: compact_opt(self.base_url),
            no_implicit_references: self.no_implicit_references,
            include_built_file: compact_opt(self.include_built_file),
            lib_files: match self.lib_files {
                Some(v) => Some(compact_texts(v@)),
                None => None,
            },
        }
    }
}

/// The settings of a test unit without directives.
pub open spec fn default_settings() -> SettingsView {
    SettingsView {
        no_types_and_symbols: false,
        base_url: None,
        no_implicit_references: false,
        include_built_file: None,
        lib_files: None,
    }
}

impl Default for TestSettings {
    fn default() -> (r: Self)
        ensures
            r@ == default_settings(),
    {
        TestSettings {
            no_types_and_symbols: false,
            base_url: None,
            no_implicit_references: false,
            include_built_file: None,
            lib_files: None,
        }
    }
}

/// A parsed test unit.
#[derive(Debug, PartialEq, Eq)]
pub struct TestUnit<'a> {
    /// Where the document came from.
    pub path: &'a Path,
    pub settings: TestSettings,
    pub variations: TestVariations,
    /// The names of the files, in the order of the document.
    pub file_names: Vec<&'a str>,
    /// The contents of the files, index by index.
    pub file_contents: Vec<&'a str>,
    /// For each symlink, its target.
    pub symlinks: Symlinks<'a>,
}

/// What a test unit holds, but for its path.
pub struct TestUnitView {
    pub settings: SettingsView,
    pub variations: Seq<Seq<Seq<char>>>,
    pub file_names: Seq<Seq<char>>,
    pub file_contents: Seq<Seq<char>>,
    pub symlinks: Map<Seq<char>, Seq<char>>,
}

/// The texts that a sequence of string slices holds.
pub open spec fn texts(v: Seq<&str>) -> Seq<Seq<char>> {
    v.map_values(|s: &str| s@)
}

impl<'a> View for TestUnit<'a> {
    type V = TestUnitView;

    open spec fn view(&self) -> TestUnitView {
        TestUnitView {
            settings: self.settings@,
            variations: self.variations@,
            file_names: texts(self.file_names@),
            file_contents: texts(self.file_contents@),
            symlinks: link_pairs(self.symlinks),
        }
    }
}

/// Name and value of a directive.
pub struct Directive {
    pub name: Seq<u8>,
    pub value: Seq<u8>,
}

/// The directive on a line with the given content, whose terminator has
/// `terminator` bytes: the line starts with `//`; what follows, without
/// leading spaces, starts with `@`, has a colon from its third byte on and,
/// with the terminator, four bytes or more. The name stands between `@` and
/// the colon, without trailing spaces, the value behind the colon, without
/// leading spaces.
pub open spec fn directive_of(content: Seq<u8>, terminator: int) -> Option<Directive> {
    if content.len() >= 2 && content[0] == SLASH && content[1] == SLASH {
        let rest = trim_start(content.skip(2));
        if rest.len() >= 1 && rest.len() + terminator >= 4 && rest[0] == AT {
            match first_from(rest, COLON, 2) {
                Some(colon) => Some(
                    Directive {
                        name: trim_end(rest.subrange(1, colon)),
                        value: trim_start(rest.subrange(colon + 1, rest.len() as int)),
                    },
                ),
                None => None,
            }
        } else {
            None
        }
    } else {
        None
    }
}

/// The truth value that `value` writes, in any case of letters.
pub open spec fn bool_of(value: Seq<u8>) -> Option<bool> {
    if lowercase(value) == "true".spec_bytes() {
        Some(true)
    } else if lowercase(value) == "false".spec_bytes() {
        Some(false)
    } else {
        None
    }
}

/// The entries of the comma-separated list in `value` from offset `from` on,
/// added to `acc`: each without spaces around it, empty entries left out.
pub open spec fn list_from(value: Seq<u8>, from: int, acc: Seq<Seq<char>>) -> Option<
    Seq<Seq<char>>,
>
    decreases value.len() - from,
{
    if 0 <= from <= value.len() {
        let end = match first_from(value, COMMA, from) {
            Some(i) => i,
            None => value.len() as int,
        };
        proof {
            lemma_first_from(value, COMMA, from, 0);
        }
        match text_of(trimmed(value.subrange(from, end))) {
            Some(entry) => {
                let acc1 = if entry.len() > 0 {
                    acc.push(entry)
                } else {
                    acc
                };
                if end >= value.len() {
                    Some(acc1)
                } else {
                    list_from(value, end + 1, acc1)
                }
            },
            None => None,
        }
    } else {
        None
    }
}

/// The entries of the comma-separated list in `value`.
pub open spec fn list_of(value: Seq<u8>) -> Option<Seq<Seq<char>>> {
    list_from(value, 0, Seq::empty())
}

/// The values that a directive declares for an option: those that `*`
/// stands for, where the option allows it, or else those it lists.
pub open spec fn declared_values(prop: TestVariationProp, value: Seq<u8>) -> Option<
    Seq<Seq<char>>,
> {
    if value == "*".spec_bytes() {
        prop.wildcard()
    } else {
        list_of(value)
    }
}

/// What the parser knows after some lines: the unit so far, where the
/// content of the current file starts if it has started, and the name of the
/// current file.
pub struct UnitState {
    pub unit: TestUnitView,
    pub file_start: Option<int>,
    pub file_name: Seq<char>,
}

/// The state before the first line, with the name that a file has before
/// any `@filename` directive.
pub open spec fn initial_unit(default_name: Seq<char>) -> UnitState {
    UnitState {
        unit: TestUnitView {
            settings: default_settings(),
            variations: Seq::new(AXIS_COUNT as nat, |i: int| Seq::empty()),
            file_names: Seq::empty(),
            file_contents: Seq::empty(),
            symlinks: no_links(),
        },
        file_start: None,
        file_name: default_name,
    }
}

/// `st` with one more file: the current name with the given content.
pub open spec fn with_file(st: UnitState, content: Seq<char>) -> UnitState {
    UnitState {
        unit: TestUnitView {
            file_names: st.unit.file_names.push(st.file_name),
            file_contents: st.unit.file_contents.push(content),
            ..st.unit
        },
        file_start: None,
        ..st
    }
}

/// The state after a directive at offset `at` has ended the content of the
/// current file, if that had started.
pub open spec fn end_file(data: Seq<u8>, st: UnitState, at: int) -> Option<UnitState> {
    match st.file_start {
        Some(start) => match text_between(data, start, at) {
            Some(content) => Some(with_file(st, content)),
            None => None,
        },
        None => Some(st),
    }
}

/// The state after the directive with the given name, in lower case, and
/// value; `next` is where the next line starts. A name that is neither one
/// of the settings nor an option that can vary changes nothing.
pub open spec fn apply_directive(st: UnitState, name: Seq<u8>, value: Seq<u8>, next: int) -> Option<
    UnitState,
> {
    let unit = st.unit;
    if name == "filename".spec_bytes() {
        match text_of(value) {
            Some(file_name) => Some(UnitState { file_name, file_start: Some(next), ..st }),
            None => None,
        }
    } else if name == "link".spec_bytes() {
        match first_index(value, SPACE) {
            Some(sep) => match (
                text_between(value, 0, sep),
                text_between(value, sep + 1, value.len() as int),
            ) {
                (Some(from), Some(to)) => Some(
                    UnitState {
                        unit: TestUnitView { symlinks: unit.symlinks.insert(from, to), ..unit },
                        ..st
                    },
                ),
                _ => None,
            },
            None => None,
        }
    } else if name == "baseurl".spec_bytes() {
        match text_of(value) {
            Some(url) => Some(
                UnitState {
                    unit: TestUnitView {
                        settings: SettingsView { base_url: Some(url), ..unit.settings },
                        ..unit
                    },
                    ..st
                },
            ),
            None => None,
        }
    } else if name == "noimplicitreferences".spec_bytes() {
        match bool_of(value) {
            Some(b) => Some(
                UnitState {
                    unit: TestUnitView {
                        settings: SettingsView { no_implicit_references: b, ..unit.settings },
                        ..unit
                    },
                    ..st
                },
            ),
            None => None,
        }
    } else if name == "includebuiltfile".spec_bytes() {
        match text_of(value) {
            Some(file) => Some(
                UnitState {
                    unit: TestUnitView {
                        settings: SettingsView { include_built_file: Some(file), ..unit.settings },
                        ..unit
                    },
                    ..st
                },
            ),
            None => None,
        }
    } else if name == "libfiles".spec_bytes() {
        match list_of(value) {
            Some(files) => Some(
                UnitState {
                    unit: TestUnitView {
                        settings: SettingsView { lib_files: Some(files), ..unit.settings },
                        ..unit
                    },
                    ..st
                },
            ),
            None => None,
        }
    } else if name == "notypesandsymbols".spec_bytes() {
        match bool_of(value) {
            Some(b) => Some(
                UnitState {
                    unit: TestUnitView {
                        settings: SettingsView { no_types_and_symbols: b, ..unit.settings },
                        ..unit
                    },
                    ..st
                },
            ),
            None => None,
        }
    } else {
        match TestVariationProp::named(name) {
            Some(prop) => match declared_values(prop, value) {
                Some(values) => Some(
                    UnitState {
                        unit: TestUnitView {
                            variations: unit.variations.update(prop.index(), values),
                            ..unit
                        },
                        ..st
                    },
                ),
                None => None,
            },
            None => Some(st),
        }
    }
}

/// The state after the line that starts at `start`, has the given content
/// and ends where the line at `next` starts. A directive ends the current
/// file and is applied. Any other line that does not start with `//` and is
/// not empty starts the content of the current file, unless it has started.
pub open spec fn unit_line(data: Seq<u8>, st: UnitState, start: int, content: Seq<u8>, next: int) -> Option<
    UnitState,
> {
    match directive_of(content, next - start - content.len()) {
        Some(d) => match end_file(data, st, start) {
            Some(st1) => apply_directive(st1, lowercase(d.name), d.value, next),
            None => None,
        },
        None => if st.file_start is None && content.len() > 0 && !(content.len() >= 2 && content[0]
            == SLASH && content[1] == SLASH) {
            Some(UnitState { file_start: Some(start), ..st })
        } else {
            Some(st)
        },
    }
}

/// The state after all lines from offset `pos` on.
pub open spec fn unit_lines(data: Seq<u8>, pos: int, st: UnitState) -> Option<UnitState>
    decreases data.len() - pos,
{
    if 0 <= pos < data.len() {
        proof {
            lemma_line_bounds(data, pos);
        }
        match unit_line(data, st, pos, line_content(data, pos), line_stop(data, pos)) {
            Some(st1) => unit_lines(data, line_stop(data, pos), st1),
            None => None,
        }
    } else {
        Some(st)
    }
}

/// The unit at the end of the document: the current file ends there if its
/// content has started; a document without any file has one empty file.
pub open spec fn end_unit(data: Seq<u8>, st: UnitState) -> Option<TestUnitView> {
    match st.file_start {
        Some(start) => match text_between(data, start, data.len() as int) {
            Some(content) => Some(with_file(st, content).unit),
            None => None,
        },
        None => if st.unit.file_names.len() == 0 {
            Some(with_file(st, Seq::empty()).unit)
        } else {
            Some(st.unit)
        },
    }
}

/// The test unit that `data` holds, where `default_name` is the name of a
/// file without `@filename` directive; `None` where `data` is no well-formed
/// test unit.
pub open spec fn test_unit_of(default_name: Seq<char>, data: Seq<u8>) -> Option<TestUnitView> {
    match unit_lines(data, 0, initial_unit(default_name)) {
        Some(st) => end_unit(data, st),
        None => None,
    }
}

/// A directive only ever adds a file together with its content, and the
/// lines of a document keep names and contents in step.
pub proof fn lemma_files_in_step(data: Seq<u8>, pos: int, st: UnitState)
    requires
        st.unit.file_names.len() == st.unit.file_contents.len(),
    ensures
        unit_lines(data, pos, st) matches Some(r) ==> r.unit.file_names.len()
            == r.unit.file_contents.len(),
    decreases data.len() - pos,
{
    if 0 <= pos < data.len() {
        lemma_line_bounds(data, pos);
        match unit_line(data, st, pos, line_content(data, pos), line_stop(data, pos)) {
            Some(st1) => {
                lemma_files_in_step(data, line_stop(data, pos), st1);
            },
            None => {},
        }
    }
}

/// Every test unit has as many file names as file contents, and at least one
/// file.
pub proof fn lemma_unit_files(default_name: Seq<char>, data: Seq<u8>)
    ensures
        test_unit_of(default_name, data) matches Some(u) ==> u.file_names.len()
            == u.file_contents.len() && u.file_names.len() >= 1,
{
    lemma_files_in_step(data, 0, initial_unit(default_name));
}

/// Reads name and value of the directive on a line, if there is one.
fn read_directive<'a>(content: &'a [u8], terminator: usize) -> (r: Option<(&'a [u8], &'a [u8])>)
    requires
        terminator <= 2,
    ensures
        match r {
            Some(d) => directive_of(content@, terminator as int) == Some(
                Directive { name: d.0@, value: d.1@ },
            ),
            None => directive_of(content@, terminator as int) is None,
        },
{
    if !(content.len() >= 2 && content[0] == SLASH && content[1] == SLASH) {
        return None;
    }
    let tail = slice_subrange(content, 2, content.len());
    assert(tail@ =~= content@.skip(2));
    let rest = trim_space_start(tail);
    if rest.len() < 1 || rest.len() < 4 - terminator || rest[0] != AT {
        return None;
    }
    proof {
        lemma_first_from(rest@, COLON, 2, 0);
    }
    if rest.len() < 2 {
        return None;
    }
    let colon = find_from(COLON, rest, 2)?;
    let name = trim_space_end(slice_subrange(rest, 1, colon));
    let value = trim_space_start(slice_subrange(rest, colon + 1, rest.len()));
    Some((name, value))
}

/// Reads a truth value.
fn read_bool(value: &[u8]) -> (r: Option<bool>)
    ensures
        r == bool_of(value@),
{
    let lower = to_lowercase(value);
    if bytes_eq(lower.as_slice(), "true".as_bytes()) {
        Some(true)
    } else if bytes_eq(lower.as_slice(), "false".as_bytes()) {
        Some(false)
    } else {
        None
    }
}

/// Decodes `bytes` as UTF-8 text.
fn read_compact(bytes: &[u8]) -> (r: Option<CompactString>)
    ensures
        match r {
            Some(c) => text_of(bytes@) == Some(compact_chars(c)),
            None => text_of(bytes@) is None,
        },
{
    match compact_from_utf8(bytes) {
        Ok(c) => Some(c),
        Err(_) => None,
    }
}

/// Reads a comma-separated list.
fn read_list(value: &[u8]) -> (r: Option<Vec<CompactString>>)
    ensures
        match r {
            Some(v) => list_of(value@) == Some(compact_texts(v@)),
            None => list_of(value@) is None,
        },
{
    let mut list: Vec<CompactString> = Vec::new();
    let mut from: usize = 0;
    assert(compact_texts(list@) =~= Seq::empty());
    loop
        invariant
            from <= value@.len(),
            list_from(value@, from as int, compact_texts(list@)) == list_of(value@),
        decreases value@.len() - from,
    {
        let end = match find_from(COMMA, value, from) {
            Some(i) => i,
            None => value.len(),
        };
        let entry = read_compact(trim_space(slice_subrange(value, from, end)))?;
        if !compact_as_str(&entry).is_empty() {
            let ghost before = compact_texts(list@);
            list.push(entry);
            assert(compact_texts(list@) =~= before.push(compact_chars(entry)));
        }
        if end >= value.len() {
            return Some(list);
        }
        from = end + 1;
    }
}

/// Replaces the values of `prop`.
fn set_values(variations: &mut TestVariations, prop: TestVariationProp, values: Vec<CompactString>)
    ensures
        final(variations)@ == old(variations)@.update(prop.index(), compact_texts(values@)),
{
    let ghost all = values@;
    let mut values = values;
    variations.clear(prop);
    assert(variations.field(prop) =~= Seq::empty());
    while values.len() > 0
        invariant
            variations.field(prop) + values@ =~= all,
            forall|q: TestVariationProp| q != prop ==> variations.field(q) == old(variations).field(q),
        decreases values@.len(),
    {
        let first = values.remove(0);
        variations.push(prop, first);
    }
    proof {
        assert(variations.field(prop) =~= all);
        TestVariationProp::lemma_index(prop);
        let want = old(variations)@.update(prop.index(), compact_texts(all));
        assert forall|i: int| 0 <= i < AXIS_COUNT implies variations@[i] == want[i] by {
            TestVariationProp::lemma_at(i);
            if i != prop.index() {
                assert(TestVariationProp::at(i) != prop);
            }
        }
        assert(variations@ =~= want);
    }
}

/// The parser's variables while it goes through the lines.
struct UnitScanner<'a> {
    unit: TestUnit<'a>,
    file_start: Option<usize>,
    file_name: &'a str,
}

impl<'a> UnitScanner<'a> {
    /// The state that the scanner's variables stand for.
    spec fn state(&self) -> UnitState {
        UnitState {
            unit: self.unit@,
            file_start: match self.file_start {
                Some(x) => Some(x as int),
                None => None,
            },
            file_name: self.file_name@,
        }
    }

    /// Adds a file with the current name.
    fn add_file(&mut self, content: &'a str)
        ensures
            final(self).state() == with_file(old(self).state(), content@),
            final(self).unit.path == old(self).unit.path,
    {
        self.unit.file_names.push(self.file_name);
        self.unit.file_contents.push(content);
        self.file_start = None;
        proof {
            assert(texts(self.unit.file_names@) =~= texts(old(self).unit.file_names@).push(
                self.file_name@,
            ));
            assert(texts(self.unit.file_contents@) =~= texts(old(self).unit.file_contents@).push(
                content@,
            ));
        }
    }

    /// Ends the content of the current file at offset `at`, if it has started.
    fn end_file(&mut self, data: &'a [u8], at: usize) -> (ok: bool)
        ensures
            final(self).unit.path == old(self).unit.path,
            ok ==> end_file(data@, old(self).state(), at as int) == Some(final(self).state()),
            !ok ==> end_file(data@, old(self).state(), at as int) is None,
    {
        match self.file_start {
            Some(start) => match read_between(data, start, at) {
                Some(content) => {
                    self.add_file(content);
                    true
                },
                None => false,
            },
            None => true,
        }
    }

    /// Applies the directive with the given name, in lower case, and value.
    fn apply(&mut self, name: &[u8], value: &'a [u8], next: usize) -> (ok: bool)
        ensures
            final(self).unit.path == old(self).unit.path,
            ok ==> apply_directive(old(self).state(), name@, value@, next as int) == Some(
                final(self).state(),
            ),
            !ok ==> apply_directive(old(self).state(), name@, value@, next as int) is None,
    {
        if bytes_eq(name, "filename".as_bytes()) {
            match text(value) {
                Some(file_name) => {
                    self.file_name = file_name;
                    self.file_start = Some(next);
                    true
                },
                None => false,
            }
        } else if bytes_eq(name, "link".as_bytes()) {
            let sep = match find(SPACE, value) {
                Some(sep) => sep,
                None => {
                    return false;
                },
            };
            let len = value.len();
            let from = read_between(value, 0, sep);
            let to = read_between(value, sep + 1, len);
            match (from, to) {
                (Some(from), Some(to)) => {
                    links_insert(&mut self.unit.symlinks, from, to);
                    true
                },
                _ => false,
            }
        } else if bytes_eq(name, "baseurl".as_bytes()) {
            match read_compact(value) {
                Some(url) => {
                    self.unit.settings.base_url = Some(url);
                    true
                },
                None => false,
            }
        } else if bytes_eq(name, "noimplicitreferences".as_bytes()) {
            match read_bool(value) {
                Some(b) => {
                    self.unit.settings.no_implicit_references = b;
                    true
                },
                None => false,
            }
        } else if bytes_eq(name, "includebuiltfile".as_bytes()) {
            match read_compact(value) {
                Some(file) => {
                    self.unit.settings.include_built_file = Some(file);
                    true
                },
                None => false,
            }
        } else if bytes_eq(name, "libfiles".as_bytes()) {
            match read_list(value) {
                Some(files) => {
                    self.unit.settings.lib_files = Some(files);
                    true
                },
                None => false,
            }
        } else if bytes_eq(name, "notypesandsymbols".as_bytes()) {
            match read_bool(value) {
                Some(b) => {
                    self.unit.settings.no_types_and_symbols = b;
                    true
                },
                None => false,
            }
        } else {
            match TestVariationProp::try_from(name) {
                Ok(prop) => {
                    let values = if bytes_eq(value, "*".as_bytes()) {
                        prop.try_expand_wildcard()
                    } else {
                        read_list(value)
                    };
                    match values {
                        Some(values) => {
                            set_values(&mut self.unit.variations, prop, values);
                            true
                        },
                        None => false,
                    }
                },
                Err(_) => true,
            }
        }
    }

    /// Handles one line.
    fn line(&mut self, data: &'a [u8], start: usize, content: &'a [u8], next: usize) -> (ok: bool)
        requires
            start + content@.len() <= next,
            next - start - content@.len() <= 2,
        ensures
            final(self).unit.path == old(self).unit.path,
            ok ==> unit_line(data@, old(self).state(), start as int, content@, next as int) == Some(
                final(self).state(),
            ),
            !ok ==> unit_line(data@, old(self).state(), start as int, content@, next as int)
                is None,
    {
        match read_directive(content, next - start - content.len()) {
            Some((name, value)) => {
                if !self.end_file(data, start) {
                    return false;
                }
                let lower = to_lowercase(name);
                self.apply(lower.as_slice(), value, next)
            },
            None => {
                if self.file_start.is_none() && content.len() > 0 && !(content.len() >= 2
                    && content[0] == SLASH && content[1] == SLASH) {
                    self.file_start = Some(start);
                }
                true
            },
        }
    }
}

impl<'a> TestUnit<'a> {
    /// Parses the test unit in `data`, where `default_name` is the name of a
    /// file without `@filename` directive; `None` where `data` is no
    /// well-formed test unit.
    pub fn try_parse_named(path: &'a Path, default_name: &'a str, data: &'a [u8]) -> (r: Option<Self>)
        ensures
            match r {
                Some(u) => test_unit_of(default_name@, data@) == Some(u@) && u.path == path
                    && u@.file_names.len() == u@.file_contents.len() && u@.file_names.len() >= 1,
                None => test_unit_of(default_name@, data@) is None,
            },
    {
        proof {
            lemma_unit_files(default_name@, data@);
        }
        let unit = TestUnit {
            path,
            settings: TestSettings::default(),
            variations: TestVariations::default(),
            file_names: Vec::new(),
            file_contents: Vec::new(),
            symlinks: links_new(),
        };
        let mut scanner = UnitScanner { unit, file_start: None, file_name: default_name };
        proof {
            let st = scanner.state();
            let init = initial_unit(default_name@);
            assert(st.unit.file_names =~= init.unit.file_names);
            assert(st.unit.file_contents =~= init.unit.file_contents);
            assert forall|i: int| 0 <= i < AXIS_COUNT implies st.unit.variations[i]
                == init.unit.variations[i] by {
                assert(scanner.unit.variations.field(TestVariationProp::at(i)).len() == 0);
                assert(st.unit.variations[i] =~= Seq::empty());
            }
            assert(st.unit.variations =~= init.unit.variations);
        }
        let mut iter = LineIter::new(data);
        while iter.line_start < data.len()
            invariant
                iter.wf(),
                iter.data == data,
                !iter.done,
                scanner.unit.path == path,
                unit_lines(data@, iter.line_start as int, scanner.state()) == unit_lines(
                    data@,
                    0,
                    initial_unit(default_name@),
                ),
            decreases data@.len() - iter.line_start,
        {
            proof {
                lemma_line_bounds(data@, iter.line_start as int);
            }
            let (start, content) = match iter.next() {
                Some((_, start, content)) => (start, content),
                None => {
                    return None;
                },
            };
            if !scanner.line(data, start, content, iter.line_start) {
                return None;
            }
        }
        match scanner.file_start {
            Some(start) => {
                let content = read_between(data, start, data.len())?;
                scanner.add_file(content);
            },
            None => {
                if scanner.unit.file_names.len() == 0 {
                    proof {
                        reveal_strlit("");
                        assert(""@ =~= Seq::<char>::empty());
                        assert(texts(scanner.unit.file_names@).len() == 0);
                    }
                    scanner.add_file("");
                }
            },
        }
        Some(scanner.unit)
    }

    /// Whether `data` is a well-formed test unit.
    pub fn accepts(path: &'a Path, data: &'a [u8]) -> (r: bool)
        ensures
            r == (path_file_name(path) is Some && test_unit_of(path_file_name(path)->0, data@)
                is Some),
    {
        match default_name(path) {
            Some(name) => TestUnit::try_parse_named(path, name, data).is_some(),
            None => false,
        }
    }

    /// Parses the test unit in `data`, which was read from `path`: the
    /// path's file name is the name of a file without `@filename` directive.
    pub fn parse(path: &'a Path, data: &'a [u8]) -> (r: Self)
        requires
            path_file_name(path) is Some,
            test_unit_of(path_file_name(path)->0, data@) is Some,
        ensures
            test_unit_of(path_file_name(path)->0, data@) == Some(r@),
            r.path == path,
            r@.file_names.len() == r@.file_contents.len(),
            r@.file_names.len() >= 1,
    {
        proof {
            lemma_unit_files(path_file_name(path)->0, data@);
        }
        let name = default_name(path).unwrap();
        TestUnit::try_parse_named(path, name, data).unwrap()
    }

    /// Parses the test unit in `data` if it is well-formed and `path` has a
    /// file name.
    pub fn try_parse(path: &'a Path, data: &'a [u8]) -> (r: Option<Self>)
        ensures
            match r {
                Some(u) => path_file_name(path) is Some && test_unit_of(
                    path_file_name(path)->0,
                    data@,
                ) == Some(u@) && u.path == path,
                None => !(path_file_name(path) is Some && test_unit_of(
                    path_file_name(path)->0,
                    data@,
                ) is Some),
            },
    {
        if TestUnit::accepts(path, data) {
            Some(TestUnit::parse(path, data))
        } else {
            None
        }
    }
}

} // verus!

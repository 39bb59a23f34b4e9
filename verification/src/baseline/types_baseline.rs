//! The types baseline: for each file of a test unit, its source statements
//! and, under each statement, the expressions it holds with their expected
//! types.
//!
//! ```text
//! //// [tests/cases/compiler/unit1.ts] ////
//!
//! === a.ts ===
//! const a = 5;
//! >a : number
//! >  : ^^^^^^
//! >5 : 5
//! >  : ^
//! ```

use vstd::prelude::*;
use vstd::slice::slice_subrange;
use vstd::string::StringSliceAdditionalSpecFns;
use vstd::utf8::valid_utf8;
use std::path::Path;
use crate::scan::{
    first_index, find, has_prefix, has_suffix, starts_with, ends_with, text_of, text, text_between,
    str_eq, GT, QUOTE, COLON,
};
use crate::byte_utils::SPACE;
use crate::baseline::line_iter::{
    LineIter, line_content, next_pos, has_line, offset_of, lemma_next_pos, lemma_line_bounds,
};

verus! {

/// An expression of a statement and the type expected of it.
#[derive(Debug, PartialEq, Eq)]
pub struct Assertion<'a> {
    pub expr: &'a str,
    pub expected_type: &'a str,
}

/// The statements of one file, and for each statement its assertions.
#[derive(Debug, PartialEq, Eq)]
pub struct TypeBaselineFile<'a> {
    pub statements: Vec<&'a str>,
    pub assertions: Vec<Vec<Assertion<'a>>>,
}

/// A parsed types baseline: file names and, index by index, their contents.
#[derive(Debug, PartialEq, Eq)]
pub struct TypesBaseline<'a> {
    pub names: Vec<&'a str>,
    pub files: Vec<TypeBaselineFile<'a>>,
}

/// What an assertion holds.
pub struct AssertionView {
    pub expr: Seq<char>,
    pub expected_type: Seq<char>,
}

/// What the baseline of one file holds.
pub struct TypeFileView {
    pub statements: Seq<Seq<char>>,
    pub assertions: Seq<Seq<AssertionView>>,
}

/// What a types baseline holds.
pub struct TypesView {
    pub names: Seq<Seq<char>>,
    pub files: Seq<TypeFileView>,
}

/// The texts that a sequence of string slices holds.
pub open spec fn texts(v: Seq<&str>) -> Seq<Seq<char>> {
    v.map_values(|s: &str| s@)
}

impl<'a> View for Assertion<'a> {
    type V = AssertionView;

    open spec fn view(&self) -> AssertionView {
        AssertionView { expr: self.expr@, expected_type: self.expected_type@ }
    }
}

/// The views of a group of assertions.
pub open spec fn group_view(g: Seq<Assertion>) -> Seq<AssertionView> {
    g.map_values(|a: Assertion| a@)
}

impl<'a> View for TypeBaselineFile<'a> {
    type V = TypeFileView;

    open spec fn view(&self) -> TypeFileView {
        TypeFileView {
            statements: texts(self.statements@),
            assertions: self.assertions@.map_values(|g: Vec<Assertion>| group_view(g@)),
        }
    }
}

/// The views of a sequence of files.
pub open spec fn files_view(files: Seq<TypeBaselineFile>) -> Seq<TypeFileView> {
    files.map_values(|f: TypeBaselineFile| f@)
}

impl<'a> View for TypesBaseline<'a> {
    type V = TypesView;

    open spec fn view(&self) -> TypesView {
        TypesView { names: texts(self.names@), files: files_view(self.files@) }
    }
}

impl<'a> Default for Assertion<'a> {
    fn default() -> (r: Self)
        ensures
            r@.expr.len() == 0,
            r@.expected_type.len() == 0,
    {
        let r = Assertion { expr: "", expected_type: "" };
        proof {
            reveal_strlit("");
        }
        r
    }
}

impl<'a> Default for TypeBaselineFile<'a> {
    fn default() -> (r: Self)
        ensures
            r@ == empty_file(),
    {
        let r = TypeBaselineFile { statements: Vec::new(), assertions: Vec::new() };
        assert(r@.statements =~= Seq::empty());
        assert(r@.assertions =~= Seq::empty());
        r
    }
}

impl<'a> Default for TypesBaseline<'a> {
    fn default() -> (r: Self)
        ensures
            r@.names.len() == 0,
            r@.files.len() == 0,
    {
        TypesBaseline { names: Vec::new(), files: Vec::new() }
    }
}

/// A file without statements.
pub open spec fn empty_file() -> TypeFileView {
    TypeFileView { statements: Seq::empty(), assertions: Seq::empty() }
}

/// `files` with one more statement, which has no assertion yet, at the end of
/// the last file.
pub open spec fn add_statement(files: Seq<TypeFileView>, statement: Seq<char>) -> Seq<
    TypeFileView,
>
    recommends
        files.len() > 0,
{
    files.update(
        files.len() - 1,
        TypeFileView {
            statements: files.last().statements.push(statement),
            assertions: files.last().assertions.push(Seq::empty()),
        },
    )
}

/// `files` with one more assertion under the last statement of the last file.
pub open spec fn add_assertion(files: Seq<TypeFileView>, a: AssertionView) -> Seq<TypeFileView>
    recommends
        files.len() > 0,
        files.last().assertions.len() > 0,
{
    let groups = files.last().assertions;
    files.update(
        files.len() - 1,
        TypeFileView {
            statements: files.last().statements,
            assertions: groups.update(groups.len() - 1, groups.last().push(a)),
        },
    )
}

/// What the parser knows after some lines: the files so far, and where the
/// source text that is waiting for its assertions starts and ends.
pub struct TypesState {
    pub names: Seq<Seq<char>>,
    pub files: Seq<TypeFileView>,
    pub expr_start: Option<int>,
    pub expr_end: Option<int>,
}

/// The state before the first line of the body.
pub open spec fn initial_state() -> TypesState {
    TypesState { names: Seq::empty(), files: Seq::empty(), expr_start: None, expr_end: None }
}

/// The first line of a baseline names the test unit: `//// [path] ////`.
pub open spec fn is_unit_header(line: Seq<u8>) -> bool {
    has_prefix(line, "//// [".spec_bytes()) && has_suffix(line, "] ////".spec_bytes())
}

/// A line that starts with `=== ` opens a file.
pub open spec fn is_file_header(line: Seq<u8>) -> bool {
    has_prefix(line, "=== ".spec_bytes())
}

/// Whether a character can continue an identifier, as
/// `oxc::syntax::identifier::is_identifier_part` decides it.
pub uninterp spec fn identifier_part(c: char) -> bool;

/// An assertion line starts with `>` and then a character that can be part
/// of an identifier, or a single quote. The second byte is read as a
/// character of its own.
pub open spec fn is_assertion_line(line: Seq<u8>) -> bool {
    line.len() >= 2 && line[0] == GT && (identifier_part(line[1] as char) || line[1] == QUOTE)
}

/// The state after an empty line at `pos`: source text that has ended is
/// taken to end here instead.
pub open spec fn after_blank(st: TypesState, pos: int) -> TypesState {
    if st.expr_end is Some {
        TypesState { expr_end: Some(pos), ..st }
    } else {
        st
    }
}

/// The files after the source text that is pending when a new file opens at
/// `pos` has been recorded as a statement. Only text that started before
/// `pos` and has an end is recorded.
pub open spec fn flush_pending(data: Seq<u8>, pos: int, st: TypesState) -> Option<
    Seq<TypeFileView>,
> {
    if st.expr_start is Some && st.expr_start->0 < pos && st.expr_end is Some {
        match text_between(data, st.expr_start->0, st.expr_end->0) {
            Some(statement) => if st.files.len() > 0 {
                Some(add_statement(st.files, statement))
            } else {
                None
            },
            None => None,
        }
    } else {
        Some(st.files)
    }
}

/// The state after the file header `=== name ===` at `pos`.
pub open spec fn open_file(data: Seq<u8>, pos: int, st: TypesState) -> Option<TypesState> {
    let line = line_content(data, pos);
    if has_suffix(line, " ===".spec_bytes()) && line.len() >= 8 {
        match flush_pending(data, pos, st) {
            Some(files) => match text_of(line.subrange(4, line.len() - 4)) {
                Some(name) => Some(
                    TypesState {
                        names: st.names.push(name),
                        files: files.push(empty_file()),
                        expr_start: Some(offset_of(data, next_pos(data, pos))),
                        expr_end: Some(pos + line.len()),
                    },
                ),
                None => None,
            },
            None => None,
        }
    } else {
        None
    }
}

/// The state after the pending source text has become the statement that the
/// coming assertions belong to.
pub open spec fn open_block(data: Seq<u8>, st: TypesState) -> Option<TypesState> {
    if st.files.len() > 0 && st.expr_start is Some {
        let start = st.expr_start->0;
        let end = if st.expr_end is Some {
            st.expr_end->0
        } else {
            start
        };
        match text_between(data, start, end) {
            Some(statement) => Some(
                TypesState { files: add_statement(st.files, statement), expr_end: None, ..st },
            ),
            None => None,
        }
    } else {
        None
    }
}

/// Number of bytes of the UTF-8 sequence that a leading byte opens.
pub open spec fn sequence_len(lead: u8) -> int {
    if lead < 0x80 {
        1
    } else if lead < 0xE0 {
        2
    } else if lead < 0xF0 {
        3
    } else {
        4
    }
}

/// Number of UTF-16 code units of the character that a leading byte opens.
pub open spec fn utf16_len(lead: u8) -> int {
    if lead < 0xF0 {
        1
    } else {
        2
    }
}

/// The offset in `s` of the last character that starts before UTF-16 column
/// `limit`, or `last` if there is none. Characters are visited from offset
/// `i`, which lies in column `column`; a sequence that the end of `s` cuts
/// short counts as a character.
pub open spec fn last_before(s: Seq<u8>, i: int, column: int, limit: int, last: int) -> int
    decreases s.len() - i,
{
    if 0 <= i < s.len() && column < limit {
        let next = if i + sequence_len(s[i]) <= s.len() {
            i + sequence_len(s[i])
        } else {
            s.len() as int
        };
        last_before(s, next, column + utf16_len(s[i]), limit, i)
    } else {
        last
    }
}

/// The assertion on `line`, whose ` : ` delimiter has its colon in UTF-16
/// column `delim`. The expression runs from the second byte up to the space
/// before the colon, the expected type from behind the delimiter to the end.
pub open spec fn split_assertion(line: Seq<u8>, delim: int) -> Option<AssertionView> {
    let body = line.skip(1);
    let last = last_before(body, 0, 1, delim, -1);
    if line.len() >= 1 && valid_utf8(body) && last >= 0 && last + 4 <= line.len() {
        match text_of(line.subrange(1, 1 + last)) {
            Some(expr) => match text_of(line.subrange(last + 4, line.len() as int)) {
                Some(expected_type) => Some(AssertionView { expr, expected_type }),
                None => None,
            },
            None => None,
        }
    } else {
        None
    }
}

/// Reads the assertions that start with the assertion line at `pos`. Each
/// may be followed by an underline (`> ` and the type's extent), which then
/// locates the delimiter. Returns the position after the line that ended the
/// block, and the state with the assertions recorded and the start of the
/// next source text set.
pub open spec fn read_assertions(data: Seq<u8>, pos: int, st: TypesState) -> Option<
    (int, TypesState),
>
    decreases data.len() + 1 - pos,
{
    let line = line_content(data, pos);
    let under_pos = next_pos(data, pos);
    if has_line(data, pos) && has_line(data, under_pos) {
        let underline = line_content(data, under_pos);
        let has_underline = underline.len() >= 2 && underline[0] == GT && underline[1] == SPACE;
        let after = if has_underline {
            next_pos(data, under_pos)
        } else {
            under_pos
        };
        match first_index(
            if has_underline {
                underline
            } else {
                line
            },
            COLON,
        ) {
            Some(delim) => match split_assertion(line, delim) {
                Some(a) => {
                    let st1 = TypesState { files: add_assertion(st.files, a), ..st };
                    if delim <= line.len() && has_line(data, after) {
                        let next_line = line_content(data, after);
                        if next_line.len() >= 1 && next_line[0] == GT {
                            proof {
                                lemma_next_pos(data, pos);
                                lemma_next_pos(data, under_pos);
                            }
                            read_assertions(data, after, st1)
                        } else {
                            Some(
                                (
                                    next_pos(data, after),
                                    TypesState {
                                        expr_start: Some(
                                            if next_line.len() == 0 {
                                                offset_of(data, next_pos(data, after))
                                            } else {
                                                after
                                            },
                                        ),
                                        ..st1
                                    },
                                ),
                            )
                        }
                    } else {
                        None
                    }
                },
                None => None,
            },
            None => None,
        }
    } else {
        None
    }
}

/// A block of assertions ends behind where it started.
pub proof fn lemma_read_assertions_advances(data: Seq<u8>, pos: int, st: TypesState)
    ensures
        read_assertions(data, pos, st) matches Some(r) ==> pos < r.0 <= data.len() + 1,
    decreases data.len() + 1 - pos,
{
    if has_line(data, pos) && has_line(data, next_pos(data, pos)) {
        let under_pos = next_pos(data, pos);
        lemma_next_pos(data, pos);
        lemma_next_pos(data, under_pos);
        let underline = line_content(data, under_pos);
        let has_underline = underline.len() >= 2 && underline[0] == GT && underline[1] == SPACE;
        let after = if has_underline {
            next_pos(data, under_pos)
        } else {
            under_pos
        };
        if has_line(data, after) {
            lemma_next_pos(data, after);
            let line = line_content(data, pos);
            let found = first_index(
                if has_underline {
                    underline
                } else {
                    line
                },
                COLON,
            );
            if found is Some && split_assertion(line, found->0) is Some {
                let st1 = TypesState {
                    files: add_assertion(st.files, split_assertion(line, found->0)->0),
                    ..st
                };
                lemma_read_assertions_advances(data, after, st1);
            }
        }
    }
}

/// The state after all lines from `pos` on.
pub open spec fn scan_lines(data: Seq<u8>, pos: int, st: TypesState) -> Option<TypesState>
    decreases data.len() + 1 - pos,
{
    if has_line(data, pos) {
        let line = line_content(data, pos);
        let next = next_pos(data, pos);
        proof {
            lemma_next_pos(data, pos);
        }
        if line.len() == 0 {
            scan_lines(data, next, after_blank(st, pos))
        } else if is_file_header(line) {
            match open_file(data, pos, st) {
                Some(st1) => scan_lines(data, next, st1),
                None => None,
            }
        } else if !is_assertion_line(line) {
            scan_lines(data, next, TypesState { expr_end: Some(pos + line.len()), ..st })
        } else {
            match open_block(data, st) {
                Some(st1) => match read_assertions(data, pos, st1) {
                    Some(r) => {
                        proof {
                            lemma_read_assertions_advances(data, pos, st1);
                        }
                        scan_lines(data, r.0, r.1)
                    },
                    None => None,
                },
                None => None,
            }
        }
    } else {
        Some(st)
    }
}

/// The baseline that `data` holds, or `None` where `data` is no well-formed
/// types baseline.
pub open spec fn types_baseline_of(data: Seq<u8>) -> Option<TypesView> {
    if is_unit_header(line_content(data, 0)) {
        match scan_lines(data, next_pos(data, 0), initial_state()) {
            Some(st) => Some(TypesView { names: st.names, files: st.files }),
            None => None,
        }
    } else {
        None
    }
}

/// Names and files stand index by index, and in every file statements and
/// groups of assertions do.
pub open spec fn aligned(names: Seq<Seq<char>>, files: Seq<TypeFileView>) -> bool {
    &&& names.len() == files.len()
    &&& forall|i: int|
        0 <= i < files.len() ==> (#[trigger] files[i]).statements.len()
            == files[i].assertions.len()
}

/// Reading assertions keeps names, files, statements and groups in step.
proof fn lemma_read_assertions_aligned(data: Seq<u8>, pos: int, st: TypesState)
    requires
        aligned(st.names, st.files),
        st.files.len() > 0,
        st.files.last().assertions.len() > 0,
    ensures
        read_assertions(data, pos, st) matches Some(r) ==> aligned(r.1.names, r.1.files),
    decreases data.len() + 1 - pos,
{
    if has_line(data, pos) && has_line(data, next_pos(data, pos)) {
        let under_pos = next_pos(data, pos);
        lemma_next_pos(data, pos);
        lemma_next_pos(data, under_pos);
        let line = line_content(data, pos);
        let underline = line_content(data, under_pos);
        let has_underline = underline.len() >= 2 && underline[0] == GT && underline[1] == SPACE;
        let after = if has_underline {
            next_pos(data, under_pos)
        } else {
            under_pos
        };
        let found = first_index(
            if has_underline {
                underline
            } else {
                line
            },
            COLON,
        );
        if found is Some && split_assertion(line, found->0) is Some {
            let a = split_assertion(line, found->0)->0;
            let files = add_assertion(st.files, a);
            let st1 = TypesState { files, ..st };
            assert(aligned(st1.names, st1.files)) by {
                assert forall|i: int| 0 <= i < files.len() implies (#[trigger] files[i]).statements.len()
                    == files[i].assertions.len() by {
                    if i < files.len() - 1 {
                        assert(files[i] == st.files[i]);
                    } else {
                        assert(st.files[i].statements.len() == st.files[i].assertions.len());
                    }
                }
            }
            if has_line(data, after) {
                lemma_read_assertions_aligned(data, after, st1);
            }
        }
    }
}

/// A statement that is added to the last file comes with its group.
proof fn lemma_add_statement_aligned(
    names: Seq<Seq<char>>,
    files: Seq<TypeFileView>,
    statement: Seq<char>,
)
    requires
        aligned(names, files),
        files.len() > 0,
    ensures
        aligned(names, add_statement(files, statement)),
        add_statement(files, statement).len() > 0,
        add_statement(files, statement).last().assertions.len() > 0,
{
    let after = add_statement(files, statement);
    assert forall|i: int| 0 <= i < after.len() implies (#[trigger] after[i]).statements.len()
        == after[i].assertions.len() by {
        if i < files.len() - 1 {
            assert(after[i] == files[i]);
        } else {
            assert(files[i].statements.len() == files[i].assertions.len());
        }
    }
}

/// Reading lines keeps names, files, statements and groups in step.
proof fn lemma_scan_aligned(data: Seq<u8>, pos: int, st: TypesState)
    requires
        aligned(st.names, st.files),
    ensures
        scan_lines(data, pos, st) matches Some(r) ==> aligned(r.names, r.files),
    decreases data.len() + 1 - pos,
{
    if has_line(data, pos) {
        let line = line_content(data, pos);
        let next = next_pos(data, pos);
        lemma_next_pos(data, pos);
        if line.len() == 0 {
            lemma_scan_aligned(data, next, after_blank(st, pos));
        } else if is_file_header(line) {
            match open_file(data, pos, st) {
                Some(st1) => {
                    let flushed = flush_pending(data, pos, st)->0;
                    if st.expr_start is Some && st.expr_start->0 < pos && st.expr_end is Some {
                        lemma_add_statement_aligned(
                            st.names,
                            st.files,
                            text_between(data, st.expr_start->0, st.expr_end->0)->0,
                        );
                    }
                    assert(aligned(st.names, flushed));
                    assert(aligned(st1.names, st1.files)) by {
                        assert forall|i: int| 0 <= i < st1.files.len() implies (
                        #[trigger] st1.files[i]).statements.len() == st1.files[i].assertions.len() by {
                            if i < flushed.len() {
                                assert(st1.files[i] == flushed[i]);
                            }
                        }
                    }
                    lemma_scan_aligned(data, next, st1);
                },
                None => {},
            }
        } else if !is_assertion_line(line) {
            lemma_scan_aligned(data, next, TypesState { expr_end: Some(pos + line.len()), ..st });
        } else {
            match open_block(data, st) {
                Some(st1) => {
                    let start = st.expr_start->0;
                    let end = if st.expr_end is Some {
                        st.expr_end->0
                    } else {
                        start
                    };
                    lemma_add_statement_aligned(
                        st.names,
                        st.files,
                        text_between(data, start, end)->0,
                    );
                    lemma_read_assertions_aligned(data, pos, st1);
                    lemma_read_assertions_advances(data, pos, st1);
                    match read_assertions(data, pos, st1) {
                        Some(r) => {
                            lemma_scan_aligned(data, r.0, r.1);
                        },
                        None => {},
                    }
                },
                None => {},
            }
        }
    }
}

/// In every types baseline there is one file for each name, and in every
/// file one group of assertions for each statement.
pub proof fn lemma_types_aligned(data: Seq<u8>)
    ensures
        types_baseline_of(data) matches Some(b) ==> aligned(b.names, b.files),
{
    lemma_scan_aligned(data, next_pos(data, 0), initial_state());
}

/// `oxc::syntax::identifier::is_identifier_part`: whether `c` can continue
/// an identifier. The result depends on `c` alone.
#[verifier::external_body]
fn identifier_part_of(c: char) -> (r: bool)
    ensures
        r == identifier_part(c),
{
    oxc::syntax::identifier::is_identifier_part(c)
}

/// Whether `line` opens an assertion, given whether its second byte, read as
/// a character, can continue an identifier.
pub fn opens_assertion(line: &[u8], second_continues_identifier: bool) -> (r: bool)
    ensures
        r == (line@.len() >= 2 && line@[0] == GT && (second_continues_identifier || line@[1]
            == QUOTE)),
{
    line.len() >= 2 && line[0] == GT && (second_continues_identifier || line[1] == QUOTE)
}

/// Whether `line` opens an assertion.
fn assertion_line(line: &[u8]) -> (r: bool)
    ensures
        r == is_assertion_line(line@),
{
    if line.len() < 2 {
        return false;
    }
    let part = identifier_part_of(line[1] as char);
    opens_assertion(line, part)
}

/// The state that the parser's variables stand for.
pub open spec fn state_of(
    names: Seq<&str>,
    files: Seq<TypeBaselineFile>,
    expr_start: Option<usize>,
    expr_end: Option<usize>,
) -> TypesState {
    TypesState {
        names: texts(names),
        files: files_view(files),
        expr_start: match expr_start {
            Some(x) => Some(x as int),
            None => None,
        },
        expr_end: match expr_end {
            Some(x) => Some(x as int),
            None => None,
        },
    }
}

/// Adds a statement, without assertions yet, to the last file.
fn push_statement<'a>(files: &mut Vec<TypeBaselineFile<'a>>, statement: &'a str)
    requires
        old(files)@.len() > 0,
    ensures
        files_view(final(files)@) == add_statement(files_view(old(files)@), statement@),
        final(files)@.len() == old(files)@.len(),
        final(files)@.last().assertions@.len() > 0,
{
    let last = files.len() - 1;
    files[last].statements.push(statement);
    files[last].assertions.push(Vec::new());
    proof {
        let before = files_view(old(files)@);
        let after = files_view(files@);
        let want = add_statement(before, statement@);
        assert(after[last as int].statements =~= want[last as int].statements);
        assert(group_view(Seq::<Assertion>::empty()) =~= Seq::<AssertionView>::empty());
        assert(after[last as int].assertions =~= want[last as int].assertions);
        assert(after =~= want);
    }
}

/// Adds an assertion to the last statement of the last file.
fn push_assertion<'a>(files: &mut Vec<TypeBaselineFile<'a>>, a: Assertion<'a>)
    requires
        old(files)@.len() > 0,
        old(files)@.last().assertions@.len() > 0,
    ensures
        files_view(final(files)@) == add_assertion(files_view(old(files)@), a@),
        final(files)@.len() == old(files)@.len(),
        final(files)@.last().assertions@.len() > 0,
{
    let last = files.len() - 1;
    let group = files[last].assertions.len() - 1;
    files[last].assertions[group].push(a);
    proof {
        let before = files_view(old(files)@);
        let after = files_view(files@);
        let want = add_assertion(before, a@);
        assert(after[last as int].statements =~= want[last as int].statements);
        assert(after[last as int].assertions[group as int] =~= want[last as int].assertions[group as int]);
        assert(after[last as int].assertions =~= want[last as int].assertions);
        assert(after =~= want);
    }
}

/// Reads the assertion on `line`, whose delimiter has its colon in UTF-16
/// column `delim`.
fn split_line<'a>(line: &'a [u8], delim: usize) -> (r: Option<Assertion<'a>>)
    ensures
        match r {
            Some(a) => split_assertion(line@, delim as int) == Some(a@),
            None => split_assertion(line@, delim as int) is None,
        },
{
    if line.len() < 1 {
        return None;
    }
    let body = slice_subrange(line, 1, line.len());
    assert(body@ =~= line@.skip(1));
    if text(body).is_none() {
        return None;
    }
    if delim == 0 {
        return None;
    }
    let mut i: usize = 0;
    let mut remaining: usize = delim - 1;
    let mut last: Option<usize> = None;
    let ghost mut column: int = 1;
    let ghost mut glast: int = -1;
    while i < body.len() && remaining > 0
        invariant
            last_before(body@, i as int, column, delim as int, glast) == last_before(
                body@,
                0,
                1,
                delim as int,
                -1,
            ),
            i <= body@.len(),
            remaining > 0 ==> column == delim - remaining,
            remaining == 0 ==> column >= delim,
            match last {
                Some(l) => glast == l && l < body@.len(),
                None => glast == -1,
            },
        decreases body@.len() - i,
    {
        let lead = body[i];
        let width: usize = if lead < 0x80 {
            1
        } else if lead < 0xE0 {
            2
        } else if lead < 0xF0 {
            3
        } else {
            4
        };
        let units: usize = if lead < 0xF0 {
            1
        } else {
            2
        };
        last = Some(i);
        proof {
            glast = i as int;
            column = column + units;
        }
        i = if width > body.len() - i {
            body.len()
        } else {
            i + width
        };
        remaining = if units > remaining {
            0
        } else {
            remaining - units
        };
    }
    match last {
        None => None,
        Some(l) => {
            if line.len() - l < 4 {
                return None;
            }
            let expr = text(slice_subrange(line, 1, 1 + l));
            let expected_type = text(slice_subrange(line, l + 4, line.len()));
            match (expr, expected_type) {
                (Some(expr), Some(expected_type)) => Some(Assertion { expr, expected_type }),
                _ => None,
            }
        },
    }
}

/// Reads the assertions under a statement; `first` is the assertion line at
/// `pos`, which has been read already. Returns where the next source text
/// starts.
fn read_block<'a>(
    iter: &mut LineIter<'a>,
    files: &mut Vec<TypeBaselineFile<'a>>,
    first: &'a [u8],
    Ghost(pos): Ghost<int>,
    Ghost(st): Ghost<TypesState>,
) -> (r: Option<usize>)
    requires
        old(iter).wf(),
        has_line(old(iter).data@, pos),
        old(iter).pos() == next_pos(old(iter).data@, pos),
        first@ == line_content(old(iter).data@, pos),
        st.files == files_view(old(files)@),
        old(files)@.len() > 0,
        old(files)@.last().assertions@.len() > 0,
    ensures
        final(iter).wf(),
        final(iter).data == old(iter).data,
        match r {
            Some(start) => read_assertions(old(iter).data@, pos, st) == Some(
                (
                    final(iter).pos(),
                    TypesState {
                        files: files_view(final(files)@),
                        expr_start: Some(start as int),
                        ..st
                    },
                ),
            ),
            None => read_assertions(old(iter).data@, pos, st) is None,
        },
{
    let ghost data = iter.data@;
    let mut line = first;
    let ghost mut cur = pos;
    let ghost mut cur_st = st;
    loop
        invariant
            iter.wf(),
            iter.data == old(iter).data,
            data == iter.data@,
            has_line(data, cur),
            iter.pos() == next_pos(data, cur),
            line@ == line_content(data, cur),
            cur_st == (TypesState { files: files_view(files@), ..st }),
            files@.len() > 0,
            files@.last().assertions@.len() > 0,
            read_assertions(data, cur, cur_st) == read_assertions(data, pos, st),
        decreases data.len() + 1 - cur,
    {
        proof {
            lemma_next_pos(data, cur);
        }
        let ghost under_pos = iter.pos();
        let (under_start, underline) = match iter.next() {
            Some((_, start, content)) => (start, content),
            None => {
                return None;
            },
        };
        proof {
            lemma_next_pos(data, under_pos);
        }
        let has_underline = underline.len() >= 2 && underline[0] == GT && underline[1] == SPACE;
        let delim = match find(
            COLON,
            if has_underline {
                underline
            } else {
                line
            },
        ) {
            Some(d) => d,
            None => {
                return None;
            },
        };
        let a = match split_line(line, delim) {
            Some(a) => a,
            None => {
                return None;
            },
        };
        if delim > line.len() {
            return None;
        }
        push_assertion(files, a);
        let ghost after = if has_underline {
            next_pos(data, under_pos)
        } else {
            under_pos
        };
        let (next_start, next_line) = if has_underline {
            match iter.next() {
                Some((_, start, content)) => (start, content),
                None => {
                    return None;
                },
            }
        } else {
            (under_start, underline)
        };
        proof {
            lemma_next_pos(data, after);
            cur_st = TypesState { files: files_view(files@), ..st };
        }
        if next_line.len() >= 1 && next_line[0] == GT {
            line = next_line;
            proof {
                cur = after;
            }
        } else {
            return Some(
                if next_line.len() == 0 {
                    iter.line_start
                } else {
                    next_start
                },
            );
        }
    }
}

/// The parser's variables while it goes through the lines.
struct TypesScanner<'a> {
    iter: LineIter<'a>,
    names: Vec<&'a str>,
    files: Vec<TypeBaselineFile<'a>>,
    expr_start: Option<usize>,
    expr_end: Option<usize>,
}

impl<'a> TypesScanner<'a> {
    /// The state that the scanner's variables stand for.
    spec fn state(&self) -> TypesState {
        state_of(self.names@, self.files@, self.expr_start, self.expr_end)
    }

    /// Handles the file header `line`, which starts at `line_start`.
    fn open_file(&mut self, line_start: usize, line: &'a [u8]) -> (ok: bool)
        requires
            old(self).iter.wf(),
            line_start < old(self).iter.data@.len(),
            old(self).iter.pos() == next_pos(old(self).iter.data@, line_start as int),
            old(self).iter.line_start == offset_of(old(self).iter.data@, old(self).iter.pos()),
            line@ == line_content(old(self).iter.data@, line_start as int),
        ensures
            final(self).iter == old(self).iter,
            ok ==> open_file(old(self).iter.data@, line_start as int, old(self).state()) == Some(
                final(self).state(),
            ),
            !ok ==> open_file(old(self).iter.data@, line_start as int, old(self).state()) is None,
    {
        let data = self.iter.data;
        proof {
            lemma_line_bounds(data@, line_start as int);
        }
        if !ends_with(line, " ===".as_bytes()) || line.len() < 8 {
            return false;
        }
        if self.expr_start.is_some() && self.expr_start.unwrap() < line_start
            && self.expr_end.is_some() {
            let start = self.expr_start.unwrap();
            let end = self.expr_end.unwrap();
            if start > end || end > data.len() {
                return false;
            }
            let statement = match text(slice_subrange(data, start, end)) {
                Some(t) => t,
                None => {
                    return false;
                },
            };
            if self.files.len() == 0 {
                return false;
            }
            push_statement(&mut self.files, statement);
        }
        let ghost flushed = files_view(self.files@);
        let name = match text(slice_subrange(line, 4, line.len() - 4)) {
            Some(t) => t,
            None => {
                return false;
            },
        };
        self.names.push(name);
        self.files.push(TypeBaselineFile::default());
        self.expr_start = Some(self.iter.line_start);
        self.expr_end = Some(line_start + line.len());
        proof {
            assert(self.state().names =~= old(self).state().names.push(name@));
            assert(self.state().files =~= flushed.push(empty_file()));
        }
        true
    }

    /// Turns the pending source text into the statement of the coming
    /// assertions.
    fn open_block(&mut self) -> (ok: bool)
        ensures
            final(self).iter == old(self).iter,
            ok ==> open_block(old(self).iter.data@, old(self).state()) == Some(final(self).state()),
            ok ==> final(self).files@.len() > 0 && final(self).files@.last().assertions@.len() > 0,
            !ok ==> open_block(old(self).iter.data@, old(self).state()) is None,
    {
        let data = self.iter.data;
        if self.files.len() == 0 || self.expr_start.is_none() {
            return false;
        }
        let start = self.expr_start.unwrap();
        let end = match self.expr_end {
            Some(e) => e,
            None => start,
        };
        if start > end || end > data.len() {
            return false;
        }
        let statement = match text(slice_subrange(data, start, end)) {
            Some(t) => t,
            None => {
                return false;
            },
        };
        push_statement(&mut self.files, statement);
        self.expr_end = None;
        true
    }

    /// Handles the line that was just read, and the lines of its assertion
    /// block if it opens one.
    fn step(&mut self, line_start: usize, line: &'a [u8]) -> (ok: bool)
        requires
            old(self).iter.wf(),
            has_line(old(self).iter.data@, line_start as int),
            old(self).iter.pos() == next_pos(old(self).iter.data@, line_start as int),
            old(self).iter.line_start == offset_of(old(self).iter.data@, old(self).iter.pos()),
            line@ == line_content(old(self).iter.data@, line_start as int),
            line_start + line@.len() <= old(self).iter.data@.len(),
        ensures
            final(self).iter.wf(),
            final(self).iter.data == old(self).iter.data,
            ok ==> scan_lines(old(self).iter.data@, line_start as int, old(self).state())
                == scan_lines(old(self).iter.data@, final(self).iter.pos(), final(self).state()),
            ok ==> line_start < final(self).iter.pos() <= old(self).iter.data@.len() + 1,
            !ok ==> scan_lines(old(self).iter.data@, line_start as int, old(self).state()) is None,
    {
        let ghost data = self.iter.data@;
        let ghost pos = line_start as int;
        proof {
            lemma_next_pos(data, pos);
        }
        if line.len() == 0 {
            if self.expr_end.is_some() {
                self.expr_end = Some(line_start);
            }
            true
        } else if starts_with(line, "=== ".as_bytes()) {
            self.open_file(line_start, line)
        } else if !assertion_line(line) {
            self.expr_end = Some(line_start + line.len());
            true
        } else {
            if !self.open_block() {
                return false;
            }
            let ghost st1 = self.state();
            proof {
                lemma_read_assertions_advances(data, pos, st1);
            }
            match read_block(&mut self.iter, &mut self.files, line, Ghost(pos), Ghost(st1)) {
                Some(next_start) => {
                    self.expr_start = Some(next_start);
                    true
                },
                None => false,
            }
        }
    }
}

impl<'a> TypesBaseline<'a> {
    /// Parses a types baseline, if `data` holds one.
    fn scan(data: &'a [u8]) -> (r: Option<Self>)
        ensures
            match r {
                Some(b) => types_baseline_of(data@) == Some(b@),
                None => types_baseline_of(data@) is None,
            },
    {
        let mut iter = LineIter::new(data);
        match iter.next() {
            Some((_, _, line)) => {
                if !(starts_with(line, "//// [".as_bytes()) && ends_with(line, "] ////".as_bytes())) {
                    return None;
                }
            },
            None => {
                return None;
            },
        }
        let mut scanner = TypesScanner {
            iter,
            names: Vec::new(),
            files: Vec::new(),
            expr_start: None,
            expr_end: None,
        };
        let ghost target = scan_lines(data@, next_pos(data@, 0), initial_state());
        assert(scanner.state().names =~= initial_state().names);
        assert(scanner.state().files =~= initial_state().files);
        let mut more = true;
        while more
            invariant
                scanner.iter.wf(),
                scanner.iter.data == data,
                scanner.iter.line_start == offset_of(data@, scanner.iter.pos()),
                scan_lines(data@, scanner.iter.pos(), scanner.state()) == target,
                !more ==> !has_line(data@, scanner.iter.pos()),
                scanner.iter.pos() <= data@.len() + 1,
                types_baseline_of(data@) == (match target {
                    Some(st) => Some(TypesView { names: st.names, files: st.files }),
                    None => None,
                }),
            decreases data@.len() + 1 - scanner.iter.pos() + (if more { 1int } else { 0int }),
        {
            match scanner.iter.next() {
                None => {
                    more = false;
                },
                Some((_, line_start, line)) => {
                    if !scanner.step(line_start, line) {
                        return None;
                    }
                },
            }
        }
        Some(TypesBaseline { names: scanner.names, files: scanner.files })
    }

    /// The index of the first file with the name `name`.
    pub fn position(&self, name: &str) -> (r: Option<usize>)
        ensures
            match r {
                Some(i) => i < self@.names.len() && self@.names[i as int] == name@ && forall|j: int|
                    0 <= j < i ==> self@.names[j] != name@,
                None => forall|j: int| 0 <= j < self@.names.len() ==> self@.names[j] != name@,
            },
    {
        let mut i: usize = 0;
        while i < self.names.len()
            invariant
                i <= self.names@.len(),
                forall|j: int| 0 <= j < i ==> self@.names[j] != name@,
            decreases self.names@.len() - i,
        {
            if str_eq(self.names[i], name) {
                return Some(i);
            }
            i += 1;
        }
        None
    }

    /// Whether `data` is a well-formed types baseline.
    pub fn accepts(data: &[u8]) -> (r: bool)
        ensures
            r == (types_baseline_of(data@) is Some),
    {
        TypesBaseline::scan(data).is_some()
    }

    /// Parses the types baseline in `data`. The path only says where the
    /// data came from.
    pub fn parse(path: &Path, data: &'a [u8]) -> (r: Self)
        requires
            types_baseline_of(data@) is Some,
        ensures
            types_baseline_of(data@) == Some(r@),
            aligned(r@.names, r@.files),
    {
        proof {
            lemma_types_aligned(data@);
        }
        Self::scan(data).unwrap()
    }

    /// Parses the types baseline in `data` if it is well-formed.
    pub fn try_parse(path: &Path, data: &'a [u8]) -> (r: Option<Self>)
        ensures
            match r {
                Some(b) => types_baseline_of(data@) == Some(b@),
                None => types_baseline_of(data@) is None,
            },
    {
        if Self::accepts(data) {
            Some(Self::parse(path, data))
        } else {
            None
        }
    }
}

} // verus!

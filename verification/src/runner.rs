//! Which files of a test unit a test starts from.

use vstd::prelude::*;
use vstd::slice::slice_subrange;
use vstd::string::StringSliceAdditionalSpecFns;
use vstd::utf8::encode_utf8;
use crate::scan::bytes_eq;
use crate::baseline::file_order::is_config;
use crate::test_unit::{TestUnit, TestUnitView, texts};

verus! {

/// `needle` stands in `hay` at offset `i`.
pub open spec fn occurs_at(hay: Seq<u8>, needle: Seq<u8>, i: int) -> bool {
    0 <= i && i + needle.len() <= hay.len() && hay.subrange(i, i + needle.len()) == needle
}

/// `needle` stands somewhere in `hay`.
pub open spec fn contains(hay: Seq<u8>, needle: Seq<u8>) -> bool {
    exists|i: int| occurs_at(hay, needle, i)
}

/// Whether `needle` stands somewhere in `hay`.
pub fn contains_bytes(hay: &[u8], needle: &[u8]) -> (r: bool)
    ensures
        r == contains(hay@, needle@),
{
    if needle.len() > hay.len() {
        assert forall|i: int| !occurs_at(hay@, needle@, i) by {}
        return false;
    }
    let width = needle.len();
    if width == 0 {
        assert(hay@.subrange(0, 0) =~= needle@);
        assert(occurs_at(hay@, needle@, 0));
        return true;
    }
    let total = hay.len();
    let last = total - width;
    let mut i: usize = 0;
    while i <= last
        invariant
            i <= last + 1,
            0 < width == needle@.len(),
            total == hay@.len(),
            last == total - width,
            forall|j: int| 0 <= j < i ==> !occurs_at(hay@, needle@, j),
        decreases last + 1 - i,
    {
        if bytes_eq(slice_subrange(hay, i, i + width), needle) {
            assert(occurs_at(hay@, needle@, i as int));
            return true;
        }
        i += 1;
    }
    assert forall|j: int| !occurs_at(hay@, needle@, j) by {}
    false
}

/// The span of the name of a binding whose span runs from `start` to `end`
/// and may include a type annotation: the first `name_len` bytes of the
/// span, or all of it where it is no longer than the name.
pub fn name_span(start: u32, end: u32, name_len: u32) -> (r: (u32, u32))
    requires
        start <= end,
    ensures
        r.0 == start,
        r.1 == (if end - start <= name_len {
            end
        } else {
            (start + name_len) as u32
        }),
{
    if end - start <= name_len {
        (start, end)
    } else {
        (start, start + name_len)
    }
}

/// Whether one of the first `n` names is that of the configuration file.
pub open spec fn has_config(names: Seq<Seq<char>>, n: int) -> bool {
    exists|i: int| 0 <= i < n && is_config(#[trigger] names[i])
}

/// Whether the content of a file refers to other files of the unit: by a
/// call of `require` or by a `reference path` comment.
pub open spec fn refers_to_files(content: Seq<char>) -> bool {
    contains(encode_utf8(content), "require(".spec_bytes()) || contains(
        encode_utf8(content),
        "reference path".spec_bytes(),
    )
}

/// The indices of the files that a test of the unit starts from. A unit with
/// a configuration file has none: the configuration names them. Else the
/// last file alone is one where the unit says that references are not
/// implied, or where the last file itself refers to other files; in every
/// other unit all files are.
pub open spec fn root_files_of(unit: TestUnitView) -> Seq<usize>
    recommends
        unit.file_names.len() >= 1,
        unit.file_names.len() == unit.file_contents.len(),
{
    let n = unit.file_names.len() as int;
    if has_config(unit.file_names, n) {
        Seq::empty()
    } else if unit.settings.no_implicit_references || refers_to_files(unit.file_contents.last()) {
        seq![(n - 1) as usize]
    } else {
        Seq::new(n as nat, |i: int| i as usize)
    }
}

/// Whether one of the names is that of the configuration file.
fn any_config(names: &Vec<&str>) -> (r: bool)
    ensures
        r == has_config(texts(names@), names@.len() as int),
{
    let mut i: usize = 0;
    while i < names.len()
        invariant
            i <= names@.len(),
            !has_config(texts(names@), i as int),
        decreases names@.len() - i,
    {
        if bytes_eq(names[i].as_bytes(), "tsconfig.json".as_bytes()) {
            assert(is_config(texts(names@)[i as int]));
            return true;
        }
        i += 1;
    }
    false
}

/// The indices of the files that a test of `unit` starts from.
pub fn root_files(unit: &TestUnit<'_>) -> (r: Vec<usize>)
    requires
        unit@.file_names.len() >= 1,
        unit@.file_names.len() == unit@.file_contents.len(),
    ensures
        r@ == root_files_of(unit@),
{
    let n = unit.file_names.len();
    if any_config(&unit.file_names) {
        let r: Vec<usize> = Vec::new();
        assert(r@ =~= Seq::empty());
        return r;
    }
    let content = unit.file_contents[n - 1].as_bytes();
    assert(texts(unit.file_contents@).last() == unit.file_contents@[n - 1]@);
    if unit.settings.no_implicit_references || contains_bytes(content, "require(".as_bytes())
        || contains_bytes(content, "reference path".as_bytes()) {
        let mut r: Vec<usize> = Vec::new();
        r.push(n - 1);
        assert(r@ =~= seq![(n - 1) as usize]);
        return r;
    }
    let mut r: Vec<usize> = Vec::new();
    let mut i: usize = 0;
    while i < n
        invariant
            i <= n,
            r@ =~= Seq::new(i as nat, |j: int| j as usize),
        decreases n - i,
    {
        r.push(i);
        i += 1;
    }
    r
}

} // verus!

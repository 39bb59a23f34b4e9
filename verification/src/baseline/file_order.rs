//! The order in which an errors baseline lists its files: by name, byte for
//! byte, except that `tsconfig.json` comes first and library declaration
//! files (`lib.*.d.ts`) come last.

use vstd::prelude::*;
use vstd::string::StringSliceAdditionalSpecFns;
use vstd::utf8::{encode_utf8, encode_utf8_decode_utf8};
use core::cmp::Ordering;
use crate::scan::{has_prefix, has_suffix, starts_with, ends_with, bytes_eq};

verus! {

/// How one file name stands to another.
#[derive(Debug, PartialEq, Eq, Clone, Copy)]
pub enum FileOrder {
    Before,
    Same,
    After,
}

/// `a` comes before `b` byte for byte: at the first position where they
/// differ `a` has the smaller byte, or `a` is a proper prefix of `b`.
pub open spec fn lex_before(a: Seq<u8>, b: Seq<u8>) -> bool
    decreases a.len(),
{
    if b.len() == 0 {
        false
    } else if a.len() == 0 {
        true
    } else if a[0] != b[0] {
        a[0] < b[0]
    } else {
        lex_before(a.skip(1), b.skip(1))
    }
}

/// The name of the project's configuration file.
pub open spec fn config_name() -> Seq<u8> {
    "tsconfig.json".spec_bytes()
}

/// Whether `name` is that of a library declaration file.
pub open spec fn is_lib_name(name: Seq<u8>) -> bool {
    has_prefix(name, "lib.".spec_bytes()) && has_suffix(name, ".d.ts".spec_bytes())
}

/// How the name with bytes `a` stands to the name with bytes `b`.
pub open spec fn order_of(a: Seq<u8>, b: Seq<u8>) -> FileOrder {
    if a == b {
        FileOrder::Same
    } else if a == config_name() {
        FileOrder::Before
    } else if b == config_name() {
        FileOrder::After
    } else if is_lib_name(a) {
        FileOrder::After
    } else if is_lib_name(b) {
        FileOrder::Before
    } else if lex_before(a, b) {
        FileOrder::Before
    } else {
        FileOrder::After
    }
}

/// How the name `a` stands to the name `b`.
pub open spec fn file_order(a: Seq<char>, b: Seq<char>) -> FileOrder {
    order_of(encode_utf8(a), encode_utf8(b))
}

/// The configuration file comes before every other name. A library
/// declaration file comes after every other name, and every name that is not
/// one comes before it. Equal names, and only they, are `Same`.
pub proof fn lemma_special_names(a: Seq<u8>, b: Seq<u8>)
    ensures
        order_of(a, b) == FileOrder::Same <==> a == b,
        a == config_name() && b != a ==> order_of(a, b) == FileOrder::Before,
        b == config_name() && a != b ==> order_of(a, b) == FileOrder::After,
        is_lib_name(a) && a != b ==> order_of(a, b) == FileOrder::After,
        is_lib_name(b) && !is_lib_name(a) && a != b ==> order_of(a, b) == FileOrder::Before,
{
    lemma_config_is_no_lib();
}

/// Whether `name` is the name of the project's configuration file.
pub open spec fn is_config(name: Seq<char>) -> bool {
    encode_utf8(name) == config_name()
}

/// Whether `name` is the name of a library declaration file.
pub open spec fn is_lib(name: Seq<char>) -> bool {
    is_lib_name(encode_utf8(name))
}

/// The order of file names: only equal names are `Same`; the configuration
/// file comes before every other name; a library declaration file comes
/// after every other name, and every name that is not one comes before it.
pub proof fn lemma_file_order(a: Seq<char>, b: Seq<char>)
    ensures
        file_order(a, b) == FileOrder::Same <==> a == b,
        is_config(a) && a != b ==> file_order(a, b) == FileOrder::Before,
        is_config(b) && a != b ==> file_order(a, b) == FileOrder::After,
        is_lib(a) && a != b ==> file_order(a, b) == FileOrder::After,
        is_lib(b) && !is_lib(a) && a != b ==> file_order(a, b) == FileOrder::Before,
{
    encode_utf8_decode_utf8(a);
    encode_utf8_decode_utf8(b);
    lemma_special_names(encode_utf8(a), encode_utf8(b));
}

/// The configuration file's name is not that of a library declaration file.
pub proof fn lemma_config_is_no_lib()
    ensures
        !is_lib_name(config_name()),
{
    reveal_strlit("tsconfig.json");
    reveal_strlit("lib.");
    vstd::string::is_ascii_spec_bytes("tsconfig.json");
    vstd::string::is_ascii_spec_bytes("lib.");
    let c = config_name();
    let l = "lib.".spec_bytes();
    assert(c[0] == 116u8);
    assert(l[0] == 108u8);
    if has_prefix(c, l) {
        assert(c.take(l.len() as int)[0] == l[0]);
    }
}

/// Whether `a` comes before `b` byte for byte.
fn bytes_before(a: &[u8], b: &[u8]) -> (r: bool)
    ensures
        r == lex_before(a@, b@),
{
    let mut i: usize = 0;
    assert(a@.skip(0) =~= a@);
    assert(b@.skip(0) =~= b@);
    while i < a.len() && i < b.len() && a[i] == b[i]
        invariant
            i <= a@.len(),
            i <= b@.len(),
            lex_before(a@, b@) == lex_before(a@.skip(i as int), b@.skip(i as int)),
        decreases a@.len() - i,
    {
        proof {
            let x = a@.skip(i as int);
            let y = b@.skip(i as int);
            assert(x[0] == a@[i as int]);
            assert(y[0] == b@[i as int]);
            assert(x.skip(1) =~= a@.skip(i + 1));
            assert(y.skip(1) =~= b@.skip(i + 1));
        }
        i += 1;
    }
    proof {
        let x = a@.skip(i as int);
        let y = b@.skip(i as int);
        if i < a.len() && i < b.len() {
            assert(x[0] == a@[i as int]);
            assert(y[0] == b@[i as int]);
        }
    }
    if i >= b.len() {
        false
    } else if i >= a.len() {
        true
    } else {
        a[i] < b[i]
    }
}

/// Whether `name` is that of a library declaration file.
fn lib_name(name: &[u8]) -> (r: bool)
    ensures
        r == is_lib_name(name@),
{
    starts_with(name, "lib.".as_bytes()) && ends_with(name, ".d.ts".as_bytes())
}

/// How the name `a` stands to the name `b`.
pub fn order_files(a: &str, b: &str) -> (r: FileOrder)
    ensures
        r == file_order(a@, b@),
{
    let a = a.as_bytes();
    let b = b.as_bytes();
    if bytes_eq(a, b) {
        FileOrder::Same
    } else if bytes_eq(a, "tsconfig.json".as_bytes()) {
        FileOrder::Before
    } else if bytes_eq(b, "tsconfig.json".as_bytes()) {
        FileOrder::After
    } else if lib_name(a) {
        FileOrder::After
    } else if lib_name(b) {
        FileOrder::Before
    } else if bytes_before(a, b) {
        FileOrder::Before
    } else {
        FileOrder::After
    }
}

/// Compares two file names as an errors baseline orders them.
pub fn cmp_file(a: &str, b: &str) -> (r: Ordering)
    ensures
        match r {
            Ordering::Less => file_order(a@, b@) == FileOrder::Before,
            Ordering::Equal => file_order(a@, b@) == FileOrder::Same,
            Ordering::Greater => file_order(a@, b@) == FileOrder::After,
        },
{
    match order_files(a, b) {
        FileOrder::Before => Ordering::Less,
        FileOrder::Same => Ordering::Equal,
        FileOrder::After => Ordering::Greater,
    }
}

} // verus!

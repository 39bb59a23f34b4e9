//! Byte-level searching and decoding shared by the parsers.

use vstd::prelude::*;
use vstd::slice::slice_subrange;
use vstd::utf8::*;
use core::str::Utf8Error;
use std::path::Path;

verus! {

/// Bytes that mean something in the formats.
pub const LF: u8 = 10;
pub const CR: u8 = 13;
pub const ESC: u8 = 27;
pub const BANG: u8 = 33;
pub const QUOTE: u8 = 39;
pub const LPAREN: u8 = 40;
pub const RPAREN: u8 = 41;
pub const COMMA: u8 = 44;
pub const SLASH: u8 = 47;
pub const COLON: u8 = 58;
pub const EQUALS: u8 = 61;
pub const GT: u8 = 62;
pub const AT: u8 = 64;
pub const LOWER_R: u8 = 114;
pub const TILDE: u8 = 126;

/// `i` is the first position at or after `from` that holds `b`.
pub open spec fn is_first_from(s: Seq<u8>, b: u8, from: int, i: int) -> bool {
    &&& 0 <= from <= i < s.len()
    &&& s[i] == b
    &&& forall|j: int| from <= j < i ==> s[j] != b
}

/// The first position at or after `from` that holds `b`, if any.
pub open spec fn first_from(s: Seq<u8>, b: u8, from: int) -> Option<int> {
    if exists|i: int| is_first_from(s, b, from, i) {
        Some(choose|i: int| is_first_from(s, b, from, i))
    } else {
        None
    }
}

/// The first position that holds `b`, if any.
pub open spec fn first_index(s: Seq<u8>, b: u8) -> Option<int> {
    first_from(s, b, 0)
}

/// `i` is the first position at or after `from` that holds `b1` or `b2`.
pub open spec fn is_first_of2_from(s: Seq<u8>, b1: u8, b2: u8, from: int, i: int) -> bool {
    &&& 0 <= from <= i < s.len()
    &&& (s[i] == b1 || s[i] == b2)
    &&& forall|j: int| from <= j < i ==> s[j] != b1 && s[j] != b2
}

/// The first position at or after `from` that holds `b1` or `b2`, if any.
pub open spec fn first_of2_from(s: Seq<u8>, b1: u8, b2: u8, from: int) -> Option<int> {
    if exists|i: int| is_first_of2_from(s, b1, b2, from, i) {
        Some(choose|i: int| is_first_of2_from(s, b1, b2, from, i))
    } else {
        None
    }
}

/// `i` is the last position that holds `b`.
pub open spec fn is_last_at(s: Seq<u8>, b: u8, i: int) -> bool {
    &&& 0 <= i < s.len()
    &&& s[i] == b
    &&& forall|j: int| i < j < s.len() ==> s[j] != b
}

/// The last position that holds `b`, if any.
pub open spec fn last_index(s: Seq<u8>, b: u8) -> Option<int> {
    if exists|i: int| is_last_at(s, b, i) {
        Some(choose|i: int| is_last_at(s, b, i))
    } else {
        None
    }
}

/// `first_from` gives the one position that `is_first_from` describes, and
/// none exactly where the byte does not occur.
pub proof fn lemma_first_from(s: Seq<u8>, b: u8, from: int, i: int)
    ensures
        is_first_from(s, b, from, i) ==> first_from(s, b, from) == Some(i),
        (forall|j: int| from <= j < s.len() ==> s[j] != b) && 0 <= from ==> first_from(s, b, from) is None,
        first_from(s, b, from) matches Some(k) ==> is_first_from(s, b, from, k),
        first_from(s, b, from) is None && 0 <= from ==> forall|j: int| from <= j < s.len() ==> s[j] != b,
{
    if is_first_from(s, b, from, i) {
        let k = choose|k: int| is_first_from(s, b, from, k);
        if k < i {
            assert(s[k] != b);
        }
        if i < k {
            assert(s[i] != b);
        }
    }
    if first_from(s, b, from) is None && 0 <= from {
        lemma_none_means_absent(s, b, from, from);
    }
}

/// Where `first_from` gives no position, the byte does not occur.
proof fn lemma_none_means_absent(s: Seq<u8>, b: u8, from: int, upto: int)
    requires
        0 <= from <= upto,
        first_from(s, b, from) is None,
        forall|j: int| from <= j < upto ==> s[j] != b,
    ensures
        forall|j: int| from <= j < s.len() ==> s[j] != b,
    decreases s.len() - upto,
{
    if upto < s.len() {
        if s[upto] == b {
            assert(is_first_from(s, b, from, upto));
        } else {
            lemma_none_means_absent(s, b, from, upto + 1);
        }
    }
}

/// `first_of2_from` gives the one position that `is_first_of2_from`
/// describes.
pub proof fn lemma_first_of2_from(s: Seq<u8>, b1: u8, b2: u8, from: int, i: int)
    ensures
        is_first_of2_from(s, b1, b2, from, i) ==> first_of2_from(s, b1, b2, from) == Some(i),
        (forall|j: int| from <= j < s.len() ==> s[j] != b1 && s[j] != b2) && 0 <= from
            ==> first_of2_from(s, b1, b2, from) is None,
        first_of2_from(s, b1, b2, from) matches Some(k) ==> is_first_of2_from(s, b1, b2, from, k),
{
    if is_first_of2_from(s, b1, b2, from, i) {
        let k = choose|k: int| is_first_of2_from(s, b1, b2, from, k);
        if k < i {
            assert(s[k] != b1 && s[k] != b2);
        }
        if i < k {
            assert(s[i] != b1 && s[i] != b2);
        }
    }
}

/// `last_index` gives the one position that `is_last_at` describes.
pub proof fn lemma_last_index(s: Seq<u8>, b: u8, i: int)
    ensures
        is_last_at(s, b, i) ==> last_index(s, b) == Some(i),
        (forall|j: int| 0 <= j < s.len() ==> s[j] != b) ==> last_index(s, b) is None,
        last_index(s, b) matches Some(k) ==> is_last_at(s, b, k),
{
    if is_last_at(s, b, i) {
        let k = choose|k: int| is_last_at(s, b, k);
        if k < i {
            assert(s[i] != b);
        }
        if i < k {
            assert(s[k] != b);
        }
    }
}

/// `memchr::memchr`: the index of the first occurrence of `needle` in
/// `haystack`, or `None` when it does not occur.
#[verifier::external_body]
fn memchr_first(needle: u8, haystack: &[u8]) -> (r: Option<usize>)
    ensures
        match r {
            Some(i) => i < haystack@.len() && haystack@[i as int] == needle && forall|j: int|
                0 <= j < i ==> haystack@[j] != needle,
            None => forall|j: int| 0 <= j < haystack@.len() ==> haystack@[j] != needle,
        },
{
    memchr::memchr(needle, haystack)
}

/// `memchr::memchr2`: the index of the first occurrence of either needle in
/// `haystack`, or `None` when neither occurs.
#[verifier::external_body]
fn memchr_first2(needle1: u8, needle2: u8, haystack: &[u8]) -> (r: Option<usize>)
    ensures
        match r {
            Some(i) => i < haystack@.len() && (haystack@[i as int] == needle1 || haystack@[i as int]
                == needle2) && forall|j: int|
                0 <= j < i ==> haystack@[j] != needle1 && haystack@[j] != needle2,
            None => forall|j: int|
                0 <= j < haystack@.len() ==> haystack@[j] != needle1 && haystack@[j] != needle2,
        },
{
    memchr::memchr2(needle1, needle2, haystack)
}

/// `memchr::memrchr`: the index of the last occurrence of `needle` in
/// `haystack`, or `None` when it does not occur.
#[verifier::external_body]
fn memchr_last(needle: u8, haystack: &[u8]) -> (r: Option<usize>)
    ensures
        match r {
            Some(i) => i < haystack@.len() && haystack@[i as int] == needle && forall|j: int|
                i < j < haystack@.len() ==> haystack@[j] != needle,
            None => forall|j: int| 0 <= j < haystack@.len() ==> haystack@[j] != needle,
        },
{
    memchr::memrchr(needle, haystack)
}

/// Position of the first `needle` at or after `from`.
pub fn find_from(needle: u8, haystack: &[u8], from: usize) -> (r: Option<usize>)
    requires
        from <= haystack@.len(),
    ensures
        match r {
            Some(i) => first_from(haystack@, needle, from as int) == Some(i as int) && from <= i
                < haystack@.len() && haystack@[i as int] == needle,
            None => first_from(haystack@, needle, from as int) is None,
        },
{
    let tail = slice_subrange(haystack, from, haystack.len());
    match memchr_first(needle, tail) {
        Some(k) => {
            proof {
                assert(tail@[k as int] == haystack@[from + k]);
                assert forall|j: int| from <= j < from + k implies haystack@[j] != needle by {
                    assert(tail@[j - from] == haystack@[j]);
                }
                lemma_first_from(haystack@, needle, from as int, from + k);
            }
            Some(from + k)
        },
        None => {
            proof {
                assert forall|j: int| from <= j < haystack@.len() implies haystack@[j]
                    != needle by {
                    assert(tail@[j - from] == haystack@[j]);
                }
                lemma_first_from(haystack@, needle, from as int, 0);
            }
            None
        },
    }
}

/// Position of the first `needle`.
pub fn find(needle: u8, haystack: &[u8]) -> (r: Option<usize>)
    ensures
        match r {
            Some(i) => first_index(haystack@, needle) == Some(i as int) && i < haystack@.len()
                && haystack@[i as int] == needle,
            None => first_index(haystack@, needle) is None,
        },
{
    find_from(needle, haystack, 0)
}

/// Position of the first byte at or after `from` that is `needle1` or `needle2`.
pub fn find2_from(needle1: u8, needle2: u8, haystack: &[u8], from: usize) -> (r: Option<usize>)
    requires
        from <= haystack@.len(),
    ensures
        match r {
            Some(i) => first_of2_from(haystack@, needle1, needle2, from as int) == Some(i as int)
                && from <= i < haystack@.len() && (haystack@[i as int] == needle1
                || haystack@[i as int] == needle2),
            None => first_of2_from(haystack@, needle1, needle2, from as int) is None,
        },
{
    let tail = slice_subrange(haystack, from, haystack.len());
    match memchr_first2(needle1, needle2, tail) {
        Some(k) => {
            proof {
                assert(tail@[k as int] == haystack@[from + k]);
                assert forall|j: int| from <= j < from + k implies haystack@[j] != needle1
                    && haystack@[j] != needle2 by {
                    assert(tail@[j - from] == haystack@[j]);
                }
                lemma_first_of2_from(haystack@, needle1, needle2, from as int, from + k);
            }
            Some(from + k)
        },
        None => {
            proof {
                assert forall|j: int| from <= j < haystack@.len() implies haystack@[j] != needle1
                    && haystack@[j] != needle2 by {
                    assert(tail@[j - from] == haystack@[j]);
                }
                lemma_first_of2_from(haystack@, needle1, needle2, from as int, 0);
            }
            None
        },
    }
}

/// Position of the last `needle`.
pub fn rfind(needle: u8, haystack: &[u8]) -> (r: Option<usize>)
    ensures
        match r {
            Some(i) => last_index(haystack@, needle) == Some(i as int) && i < haystack@.len()
                && haystack@[i as int] == needle,
            None => last_index(haystack@, needle) is None,
        },
{
    let r = memchr_last(needle, haystack);
    proof {
        match r {
            Some(i) => lemma_last_index(haystack@, needle, i as int),
            None => lemma_last_index(haystack@, needle, 0),
        }
    }
    r
}

/// The position of the occurrence of `b` that has `n` occurrences between
/// `from` and itself.
pub open spec fn nth_from(s: Seq<u8>, b: u8, from: int, n: nat) -> Option<int>
    decreases n,
{
    match first_from(s, b, from) {
        Some(i) => if n == 0 {
            Some(i)
        } else {
            nth_from(s, b, i + 1, (n - 1) as nat)
        },
        None => None,
    }
}

/// Position of the occurrence of `needle` that has `n` occurrences between
/// `from` and itself.
pub fn find_nth_from(needle: u8, haystack: &[u8], from: usize, n: usize) -> (r: Option<usize>)
    requires
        from <= haystack@.len(),
    ensures
        match r {
            Some(i) => nth_from(haystack@, needle, from as int, n as nat) == Some(i as int)
                && from <= i < haystack@.len() && haystack@[i as int] == needle,
            None => nth_from(haystack@, needle, from as int, n as nat) is None,
        },
{
    let len = haystack.len();
    let mut cur = from;
    let mut left = n;
    loop
        invariant
            from <= cur <= haystack@.len(),
            len == haystack@.len(),
            nth_from(haystack@, needle, cur as int, left as nat) == nth_from(
                haystack@,
                needle,
                from as int,
                n as nat,
            ),
        decreases left,
    {
        match find_from(needle, haystack, cur) {
            Some(i) => {
                if left == 0 {
                    return Some(i);
                }
                cur = i + 1;
                left = left - 1;
            },
            None => {
                return None;
            },
        }
    }
}

/// The offset `by` bytes behind `at`, if it lies within `len`.
pub fn advance(len: usize, at: usize, by: usize) -> (r: Option<usize>)
    ensures
        r == (if at + by <= len {
            Some((at + by) as usize)
        } else {
            None
        }),
{
    if at <= len && len - at >= by {
        Some(at + by)
    } else {
        None
    }
}

/// `s` begins with `p`.
pub open spec fn has_prefix(s: Seq<u8>, p: Seq<u8>) -> bool {
    p.len() <= s.len() && s.take(p.len() as int) == p
}

/// `s` ends with `p`.
pub open spec fn has_suffix(s: Seq<u8>, p: Seq<u8>) -> bool {
    p.len() <= s.len() && s.skip(s.len() - p.len()) == p
}

/// Whether two byte slices hold the same bytes.
pub fn bytes_eq(a: &[u8], b: &[u8]) -> (r: bool)
    ensures
        r == (a@ == b@),
{
    if a.len() != b.len() {
        return false;
    }
    let mut i: usize = 0;
    while i < a.len()
        invariant
            i <= a@.len(),
            a@.len() == b@.len(),
            forall|j: int| 0 <= j < i ==> a@[j] == b@[j],
        decreases a@.len() - i,
    {
        if a[i] != b[i] {
            return false;
        }
        i += 1;
    }
    assert(a@ =~= b@);
    true
}

/// Whether two string slices hold the same text.
pub fn str_eq(a: &str, b: &str) -> (r: bool)
    ensures
        r == (a@ == b@),
{
    proof {
        encode_utf8_decode_utf8(a@);
        encode_utf8_decode_utf8(b@);
    }
    bytes_eq(a.as_bytes(), b.as_bytes())
}

/// Whether `s` begins with `p`.
pub fn starts_with(s: &[u8], p: &[u8]) -> (r: bool)
    ensures
        r == has_prefix(s@, p@),
{
    if p.len() > s.len() {
        return false;
    }
    bytes_eq(slice_subrange(s, 0, p.len()), p)
}

/// Whether `s` ends with `p`.
pub fn ends_with(s: &[u8], p: &[u8]) -> (r: bool)
    ensures
        r == has_suffix(s@, p@),
{
    if p.len() > s.len() {
        return false;
    }
    bytes_eq(slice_subrange(s, s.len() - p.len(), s.len()), p)
}

/// `std::path::Path`, whose values are only passed on.
#[verifier::external_type_specification]
#[verifier::external_body]
pub struct ExPath(Path);

/// `core::str::Utf8Error`, whose values are only told apart from success.
#[verifier::external_type_specification]
#[verifier::external_body]
pub struct ExUtf8Error(Utf8Error);

/// `core::str::from_utf8` succeeds exactly on well-formed UTF-8 and then
/// yields the text those bytes encode.
pub assume_specification<'a>[ core::str::from_utf8 ](v: &'a [u8]) -> (r: Result<&'a str, Utf8Error>)
    ensures
        r is Ok <==> valid_utf8(v@),
        r is Ok ==> r->Ok_0@ == decode_utf8(v@),
;

/// The text that `bytes` encode, when they are well-formed UTF-8.
pub open spec fn text_of(bytes: Seq<u8>) -> Option<Seq<char>> {
    if valid_utf8(bytes) {
        Some(decode_utf8(bytes))
    } else {
        None
    }
}

/// The text of `data` between two offsets.
pub open spec fn text_between(data: Seq<u8>, start: int, end: int) -> Option<Seq<char>> {
    if 0 <= start <= end <= data.len() {
        text_of(data.subrange(start, end))
    } else {
        None
    }
}

/// Decodes the bytes of `data` between two offsets as UTF-8 text.
pub fn read_between<'a>(data: &'a [u8], start: usize, end: usize) -> (r: Option<&'a str>)
    ensures
        match r {
            Some(t) => text_between(data@, start as int, end as int) == Some(t@),
            None => text_between(data@, start as int, end as int) is None,
        },
{
    if start <= end && end <= data.len() {
        text(slice_subrange(data, start, end))
    } else {
        None
    }
}

/// The lower-case form of an ASCII letter; any other byte as it is.
pub open spec fn lower(b: u8) -> u8 {
    if 65 <= b <= 90 {
        (b + 32) as u8
    } else {
        b
    }
}

/// `s` with its ASCII letters in lower case.
pub open spec fn lowercase(s: Seq<u8>) -> Seq<u8> {
    s.map_values(|b: u8| lower(b))
}

/// Copies `s` with its ASCII letters in lower case.
pub fn to_lowercase(s: &[u8]) -> (r: Vec<u8>)
    ensures
        r@ == lowercase(s@),
{
    let mut r: Vec<u8> = Vec::new();
    let mut i: usize = 0;
    while i < s.len()
        invariant
            i <= s@.len(),
            r@ =~= lowercase(s@.take(i as int)),
        decreases s@.len() - i,
    {
        let b = s[i];
        r.push(if 65 <= b && b <= 90 { b + 32 } else { b });
        i += 1;
        assert(r@ =~= lowercase(s@.take(i as int)));
    }
    assert(s@.take(i as int) =~= s@);
    r
}

/// Decodes `bytes` as UTF-8 text without copying.
pub fn text<'a>(bytes: &'a [u8]) -> (r: Option<&'a str>)
    ensures
        r is Some <==> valid_utf8(bytes@),
        r matches Some(s) ==> text_of(bytes@) == Some(s@),
        r is None ==> text_of(bytes@) is None,
{
    match core::str::from_utf8(bytes) {
        Ok(s) => Some(s),
        Err(_) => None,
    }
}

/// Whether `b` is an ASCII decimal digit.
pub open spec fn is_digit(b: u8) -> bool {
    48 <= b <= 57
}

/// The number written by the decimal digits `s`.
pub open spec fn digits_value(s: Seq<u8>) -> nat
    decreases s.len(),
{
    if s.len() == 0 {
        0
    } else {
        (digits_value(s.drop_last()) * 10 + (s.last() - 48)) as nat
    }
}

/// Whether every byte of `s` is a decimal digit.
pub open spec fn all_digits(s: Seq<u8>) -> bool {
    forall|i: int| 0 <= i < s.len() ==> is_digit(#[trigger] s[i])
}

/// `s` without a leading `+`.
pub open spec fn unsigned_part(s: Seq<u8>) -> Seq<u8> {
    if s.len() > 0 && s[0] == 43 {
        s.skip(1)
    } else {
        s
    }
}

/// The `u32` that `s` writes in decimal: an optional `+`, then one or more
/// digits, with a value that fits.
pub open spec fn decimal_u32(s: Seq<u8>) -> Option<u32> {
    let d = unsigned_part(s);
    if d.len() > 0 && all_digits(d) && digits_value(d) <= u32::MAX {
        Some(digits_value(d) as u32)
    } else {
        None
    }
}

/// The number that a prefix of the digits writes is not above the number
/// that all of them write.
proof fn lemma_digits_prefix(s: Seq<u8>, n: int)
    requires
        0 <= n <= s.len(),
        all_digits(s),
    ensures
        digits_value(s.take(n)) <= digits_value(s),
    decreases s.len() - n,
{
    if n < s.len() {
        lemma_digits_prefix(s, n + 1);
        let t = s.take(n + 1);
        assert(t.drop_last() =~= s.take(n));
        assert(t.last() == s[n]);
    } else {
        assert(s.take(n) =~= s);
    }
}

/// Reads a decimal `u32`.
pub fn parse_u32(bytes: &[u8]) -> (r: Option<u32>)
    ensures
        r == decimal_u32(bytes@),
{
    let start: usize = if bytes.len() > 0 && bytes[0] == 43 {
        1
    } else {
        0
    };
    let ghost d = unsigned_part(bytes@);
    assert(d =~= bytes@.skip(start as int));
    if start == bytes.len() {
        return None;
    }
    let mut acc: u64 = 0;
    let mut i: usize = start;
    while i < bytes.len()
        invariant
            start <= i <= bytes@.len(),
            start < bytes@.len(),
            d == unsigned_part(bytes@),
            d.len() == bytes@.len() - start,
            forall|j: int| 0 <= j < d.len() ==> d[j] == bytes@[start + j],
            all_digits(d.take(i - start)),
            acc == digits_value(d.take(i - start)),
            acc <= u32::MAX,
        decreases bytes@.len() - i,
    {
        let b = bytes[i];
        assert(b == d[i - start]);
        if b < 48 || b > 57 {
            assert(!is_digit(d[i - start]));
            return None;
        }
        let next: u64 = acc * 10 + (b - 48) as u64;
        proof {
            let t = d.take(i - start + 1);
            assert(t.drop_last() =~= d.take(i - start));
            assert(t.last() == b);
            assert(next == digits_value(t));
            assert forall|j: int| 0 <= j < t.len() implies is_digit(#[trigger] t[j]) by {
                if j < i - start {
                    assert(t[j] == d.take(i - start)[j]);
                }
            }
        }
        if next > u32::MAX as u64 {
            proof {
                if all_digits(d) {
                    lemma_digits_prefix(d, i - start + 1);
                }
            }
            return None;
        }
        acc = next;
        i += 1;
    }
    proof {
        assert(d.take(i - start) =~= d);
    }
    Some(acc as u32)
}

} // verus!

//! Decoding of the bytes of a file to text: UTF-8, with or without a byte
//! order mark, or UTF-16 in either byte order, told by its byte order mark.

use vstd::prelude::*;
use vstd::slice::slice_subrange;
use vstd::string::StringExecFns;
use crate::scan::{text, text_of};

verus! {

/// How the bytes of a file encode its text.
#[derive(Debug, PartialEq, Eq, Clone, Copy)]
pub enum Encoding {
    /// UTF-8 without byte order mark.
    Utf8,
    /// UTF-8 behind a byte order mark of three bytes.
    Utf8Bom,
    /// UTF-16, high byte first, behind a byte order mark of two bytes.
    Utf16Be,
    /// UTF-16, low byte first, behind a byte order mark of two bytes.
    Utf16Le,
}

/// Why the bytes of a file are no text.
#[derive(Debug, PartialEq, Eq, Clone, Copy)]
pub enum DecodeError {
    /// The bytes are no well-formed UTF-8.
    Utf8,
    /// The code units are no well-formed UTF-16.
    Utf16,
}

/// The encoding that the first bytes of a file tell. A byte order mark is
/// only looked for in a file of three bytes or more.
pub open spec fn encoding_of(data: Seq<u8>) -> Encoding {
    if data.len() >= 3 && data[0] == 0xEF && data[1] == 0xBB && data[2] == 0xBF {
        Encoding::Utf8Bom
    } else if data.len() >= 3 && data[0] == 0xFE && data[1] == 0xFF {
        Encoding::Utf16Be
    } else if data.len() >= 3 && data[0] == 0xFF && data[1] == 0xFE {
        Encoding::Utf16Le
    } else {
        Encoding::Utf8
    }
}

/// The code unit that two bytes make.
pub open spec fn unit_of(first: u8, second: u8, big_endian: bool) -> u16 {
    if big_endian {
        (first * 256 + second) as u16
    } else {
        (second * 256 + first) as u16
    }
}

/// The code units that the bytes of `data` make, two by two.
pub open spec fn units_of(data: Seq<u8>, big_endian: bool) -> Seq<u16> {
    Seq::new(data.len() / 2, |i: int| unit_of(data[2 * i], data[2 * i + 1], big_endian))
}

/// The text that `String::from_utf16` decodes from code units, or `None`
/// where they are no well-formed UTF-16.
pub uninterp spec fn utf16_text(units: Seq<u16>) -> Option<Seq<char>>;

/// `String::from_utf16`: the text that the code units encode, if they are
/// well-formed UTF-16.
#[verifier::external_body]
fn string_from_utf16(units: &[u16]) -> (r: Option<String>)
    ensures
        match r {
            Some(s) => utf16_text(units@) == Some(s@),
            None => utf16_text(units@) is None,
        },
{
    String::from_utf16(units).ok()
}

/// The text of a file with the bytes `data`.
pub open spec fn decoded(data: Seq<u8>) -> Result<Seq<char>, DecodeError> {
    match encoding_of(data) {
        Encoding::Utf8 => match text_of(data) {
            Some(t) => Ok(t),
            None => Err(DecodeError::Utf8),
        },
        Encoding::Utf8Bom => match text_of(data.skip(3)) {
            Some(t) => Ok(t),
            None => Err(DecodeError::Utf8),
        },
        Encoding::Utf16Be => utf16_decoded(data.skip(2), true),
        Encoding::Utf16Le => utf16_decoded(data.skip(2), false),
    }
}

/// The text of the UTF-16 bytes `data`, which have no byte order mark.
pub open spec fn utf16_decoded(data: Seq<u8>, big_endian: bool) -> Result<Seq<char>, DecodeError>
    recommends
        data.len() % 2 == 0,
{
    match utf16_text(units_of(data, big_endian)) {
        Some(t) => Ok(t),
        None => Err(DecodeError::Utf16),
    }
}

/// Whether the bytes of a file can be taken as code units: a file in UTF-16
/// has an even number of bytes.
pub open spec fn whole_units(data: Seq<u8>) -> bool {
    encoding_of(data) == Encoding::Utf16Be || encoding_of(data) == Encoding::Utf16Le
        ==> data.len() % 2 == 0
}

/// The encoding that the first bytes of a file tell.
pub fn detect(data: &[u8]) -> (r: Encoding)
    ensures
        r == encoding_of(data@),
{
    if data.len() >= 3 && data[0] == 0xEF && data[1] == 0xBB && data[2] == 0xBF {
        Encoding::Utf8Bom
    } else if data.len() >= 3 && data[0] == 0xFE && data[1] == 0xFF {
        Encoding::Utf16Be
    } else if data.len() >= 3 && data[0] == 0xFF && data[1] == 0xFE {
        Encoding::Utf16Le
    } else {
        Encoding::Utf8
    }
}

/// Whether the bytes of a file can be taken as code units.
pub fn has_whole_units(data: &[u8]) -> (r: bool)
    ensures
        r == whole_units(data@),
{
    match detect(data) {
        Encoding::Utf16Be | Encoding::Utf16Le => data.len() % 2 == 0,
        _ => true,
    }
}

/// The code units that the bytes of `data` make, two by two.
pub fn code_units(data: &[u8], big_endian: bool) -> (r: Vec<u16>)
    requires
        data@.len() % 2 == 0,
    ensures
        r@ == units_of(data@, big_endian),
{
    let len = data.len();
    let mut units: Vec<u16> = Vec::new();
    let mut i: usize = 0;
    while i < len
        invariant
            len == data@.len(),
            len % 2 == 0,
            i <= len,
            i % 2 == 0,
            units@.len() == i / 2,
            forall|j: int|
                0 <= j < units@.len() ==> units@[j] == unit_of(
                    data@[2 * j],
                    data@[2 * j + 1],
                    big_endian,
                ),
        decreases len - i,
    {
        let first = data[i] as u16;
        let second = data[i + 1] as u16;
        let unit = if big_endian {
            first * 256 + second
        } else {
            second * 256 + first
        };
        units.push(unit);
        i += 2;
    }
    assert(units@ =~= units_of(data@, big_endian));
    units
}

/// Decodes UTF-8 without byte order mark.
fn decode_utf8(data: &[u8]) -> (r: Result<String, DecodeError>)
    ensures
        match r {
            Ok(s) => text_of(data@) == Some(s@),
            Err(e) => text_of(data@) is None && e == DecodeError::Utf8,
        },
{
    match text(data) {
        Some(t) => Ok(String::from_str(t)),
        None => Err(DecodeError::Utf8),
    }
}

/// Decodes UTF-16 without byte order mark.
fn decode_utf16(data: &[u8], big_endian: bool) -> (r: Result<String, DecodeError>)
    requires
        data@.len() % 2 == 0,
    ensures
        match r {
            Ok(s) => utf16_decoded(data@, big_endian) == Ok::<Seq<char>, DecodeError>(s@),
            Err(e) => utf16_decoded(data@, big_endian) == Err::<Seq<char>, DecodeError>(e),
        },
{
    let units = code_units(data, big_endian);
    match string_from_utf16(units.as_slice()) {
        Some(s) => Ok(s),
        None => Err(DecodeError::Utf16),
    }
}

/// Decodes the bytes of a file, which can be taken as code units.
pub fn decode(data: &[u8]) -> (r: Result<String, DecodeError>)
    requires
        whole_units(data@),
    ensures
        match r {
            Ok(s) => decoded(data@) == Ok::<Seq<char>, DecodeError>(s@),
            Err(e) => decoded(data@) == Err::<Seq<char>, DecodeError>(e),
        },
{
    match detect(data) {
        Encoding::Utf8 => decode_utf8(data),
        Encoding::Utf8Bom => {
            let rest = slice_subrange(data, 3, data.len());
            assert(rest@ =~= data@.skip(3));
            decode_utf8(rest)
        },
        Encoding::Utf16Be => {
            let rest = slice_subrange(data, 2, data.len());
            assert(rest@ =~= data@.skip(2));
            decode_utf16(rest, true)
        },
        Encoding::Utf16Le => {
            let rest = slice_subrange(data, 2, data.len());
            assert(rest@ =~= data@.skip(2));
            decode_utf16(rest, false)
        },
    }
}

} // verus!

//! The lines of an errors baseline that hold a diagnostic or a part of one.

use vstd::prelude::*;
use std::path::Path;
use vstd::slice::slice_subrange;
use vstd::utf8::valid_utf8;
use crate::byte_utils::{leading_spaces, trim_start, trim_space_start, lemma_leading_spaces, SPACE};
use crate::scan::{
    first_from, first_index, first_of2_from, last_index, nth_from, find, find_from, find2_from,
    find_nth_from, rfind, advance, text_of, text, text_between, read_between, decimal_u32,
    parse_u32, ESC, LPAREN, RPAREN, COMMA, COLON, TILDE,
};
use crate::baseline::errors_baseline::{ConfigError, FileError, ConfigErrorView, FileErrorView};

verus! {

/// A diagnostic as its first line gives it: without hints, related
/// diagnostics or underline.
pub open spec fn plain_error(
    file: Seq<char>,
    loc: Option<(u32, u32)>,
    length: Option<u32>,
    code: Seq<char>,
    message: Seq<char>,
) -> FileErrorView {
    FileErrorView { file, loc, length, code, message, hint: Seq::empty(), related: Seq::empty() }
}

/// A hint line: its depth is half the number of its leading spaces (as far
/// as a byte holds it), its text what follows them.
pub open spec fn hint_of(line: Seq<u8>) -> Option<(u8, Seq<char>)> {
    match text_of(trim_start(line)) {
        Some(t) => Some((((leading_spaces(line) / 2) % 256) as u8, t)),
        None => None,
    }
}

/// The location that the digits of a line and a column give. Where the line
/// is no number there is no location; where it is one, the column has to be
/// one too.
pub open spec fn location_of(line: Seq<u8>, column: Seq<u8>) -> Option<Option<(u32, u32)>> {
    if valid_utf8(line) {
        match decimal_u32(line) {
            Some(l) => if valid_utf8(column) && decimal_u32(column) is Some {
                Some(Some((l, decimal_u32(column)->0)))
            } else {
                None
            },
            None => Some(None),
        }
    } else {
        None
    }
}

/// The location that two ranges of `line` give.
pub open spec fn location_in(line: Seq<u8>, l0: int, l1: int, c0: int, c1: int) -> Option<
    Option<(u32, u32)>,
> {
    if 0 <= l0 <= l1 <= line.len() && 0 <= c0 <= c1 <= line.len() {
        location_of(line.subrange(l0, l1), line.subrange(c0, c1))
    } else {
        None
    }
}

/// A summary line without a file: `error TS<code>: <message>`.
pub open spec fn config_error_of(line: Seq<u8>) -> Option<ConfigErrorView> {
    if line.len() >= 8 {
        match first_from(line, COLON, 8) {
            Some(colon) => match (text_between(line, 8, colon), text_between(line, colon + 2, line.len() as int)) {
                (Some(code), Some(message)) => Some(
                    ConfigErrorView { code, message, hint: Seq::empty() },
                ),
                _ => None,
            },
            None => None,
        }
    } else {
        None
    }
}

/// A summary line with a file:
/// `<file>(<line>,<column>): error TS<code>: <message>`.
pub open spec fn file_error_of(line: Seq<u8>) -> Option<FileErrorView> {
    match first_index(line, LPAREN) {
        Some(paren) => match first_from(line, COMMA, paren + 1) {
            Some(comma) => match first_from(line, RPAREN, comma + 1) {
                Some(close) => if close + 11 <= line.len() {
                    match first_from(line, COLON, close + 11) {
                        Some(colon) => match (
                            text_between(line, 0, paren),
                            location_in(line, paren + 1, comma, comma + 1, close),
                            text_between(line, close + 11, colon),
                            text_between(line, colon + 2, line.len() as int),
                        ) {
                            (Some(file), Some(loc), Some(code), Some(message)) => Some(
                                plain_error(file, loc, None, code, message),
                            ),
                            _ => None,
                        },
                        None => None,
                    }
                } else {
                    None
                },
                None => None,
            },
            None => None,
        },
        None => None,
    }
}

/// An annotation that adds a related diagnostic to `parent`: either
/// `!!! related TS<code> <file>:<line>:<column>: <message>`, which has a place
/// of its own and no underline, or `!!! related TS<code>: <message>`, which
/// shares place and underline with `parent`.
pub open spec fn related_of(line: Seq<u8>, parent: FileErrorView) -> Option<FileErrorView> {
    if line.len() >= 14 {
        match first_of2_from(line, SPACE, COLON, 14) {
            Some(end) => if line[end] == SPACE {
                match first_from(line, COLON, end + 1) {
                    Some(c1) => match first_from(line, COLON, c1 + 1) {
                        Some(c2) => match first_from(line, COLON, c2 + 1) {
                            Some(c3) => match (
                                text_between(line, end + 1, c1),
                                location_in(line, c1 + 1, c2, c2 + 1, c3),
                                text_between(line, 14, end),
                                text_between(line, c3 + 2, line.len() as int),
                            ) {
                                (Some(file), Some(loc), Some(code), Some(message)) => Some(
                                    plain_error(file, loc, None, code, message),
                                ),
                                _ => None,
                            },
                            None => None,
                        },
                        None => None,
                    },
                    None => None,
                }
            } else {
                match (text_between(line, 14, end), text_between(line, end + 2, line.len() as int)) {
                    (Some(code), Some(message)) => Some(
                        plain_error(parent.file, parent.loc, parent.length, code, message),
                    ),
                    _ => None,
                }
            },
            None => None,
        }
    } else {
        None
    }
}

/// The place that the head of a pretty diagnostic names. The head starts at
/// `start` with the file name; each of file, line and column is wrapped in
/// color sequences, so the escape characters tell where they are.
pub open spec fn pretty_place(line: Seq<u8>, start: int) -> Option<
    (Seq<char>, Option<(u32, u32)>),
> {
    match (
        nth_from(line, ESC, start, 0),
        nth_from(line, ESC, start, 3),
        nth_from(line, ESC, start, 4),
    ) {
        (Some(e1), Some(e4), Some(e5)) => match (
            text_between(line, start, e1),
            location_in(line, e1 + 10, e4 - 5, e4 + 5, e5),
        ) {
            (Some(file), Some(loc)) => Some((file, loc)),
            _ => None,
        },
        _ => None,
    }
}

/// The head of a pretty diagnostic: file, line and column, then
/// `error`, the code and the message, each part in its own color.
pub open spec fn pretty_error_of(line: Seq<u8>) -> Option<FileErrorView> {
    if line.len() >= 5 {
        match (pretty_place(line, 5), nth_from(line, ESC, 5, 7), nth_from(line, ESC, 5, 8)) {
            (Some(place), Some(e8), Some(e9)) => match (
                text_between(line, e8 + 8, e9 - 2),
                text_between(line, e9 + 4, line.len() as int),
            ) {
                (Some(code), Some(message)) => Some(
                    plain_error(place.0, place.1, None, code, message),
                ),
                _ => None,
            },
            _ => None,
        }
    } else {
        None
    }
}

/// The number of columns between `last`, the offset of an underline's last
/// tilde, and the column where the underline starts, given the width of the
/// margin before the first column.
pub open spec fn span_length(last: int, margin: int, column: int) -> Option<u32> {
    let n = last - margin - column;
    if 0 <= n <= u32::MAX {
        Some(n as u32)
    } else {
        None
    }
}

/// The length that the underline of a plain baseline gives to a diagnostic
/// that starts in `column`: none without a tilde. Source lines are indented by
/// four spaces.
pub open spec fn underline_length(underline: Seq<u8>, column: u32) -> Option<Option<u32>> {
    match last_index(underline, TILDE) {
        Some(last) => match span_length(last, 2, column as int) {
            Some(n) => Some(Some(n)),
            None => None,
        },
        None => Some(None),
    }
}

/// The length that the underline of a pretty snippet gives to a diagnostic
/// that starts in `column`: none without a tilde. The snippet is indented by
/// `indent` bytes and has a gutter as wide as its line number, closed by a
/// color sequence.
pub open spec fn pretty_underline_length(underline: Seq<u8>, indent: int, column: u32) -> Option<
    Option<u32>,
> {
    match last_index(underline, TILDE) {
        Some(last) => if underline.len() >= indent + 5 {
            match first_from(underline, ESC, indent + 5) {
                Some(e) => match span_length(last, e + 8, column as int) {
                    Some(n) => Some(Some(n)),
                    None => None,
                },
                None => None,
            }
        } else {
            None
        },
        None => Some(None),
    }
}

/// A related diagnostic of a pretty baseline, from the three lines that
/// matter of its block: its head, the underline of its snippet and its
/// message. Its code is filled in later.
pub open spec fn pretty_related_of(head: Seq<u8>, underline: Seq<u8>, message: Seq<u8>) -> Option<
    FileErrorView,
> {
    if head.len() >= 7 {
        match (pretty_place(head, 7), text_between(message, 4, message.len() as int)) {
            (Some(place), Some(text)) => match place.1 {
                Some(loc) => match pretty_underline_length(underline, 4, loc.1) {
                    Some(length) => Some(
                        plain_error(place.0, place.1, length, Seq::empty(), text),
                    ),
                    None => None,
                },
                None => Some(plain_error(place.0, place.1, None, Seq::empty(), text)),
            },
            _ => None,
        }
    } else {
        None
    }
}

/// A summary line gives a diagnostic its place, but no length: that comes
/// from the underline.
pub proof fn lemma_summary_has_no_length(line: Seq<u8>)
    ensures
        file_error_of(line) matches Some(e) ==> e.length is None && e.related.len() == 0
            && e.hint.len() == 0,
{
}

/// Reads the location that the digits of a line and a column give.
fn read_location(line: &[u8], column: &[u8]) -> (r: Option<Option<(u32, u32)>>)
    ensures
        r == location_of(line@, column@),
{
    if text(line).is_none() {
        return None;
    }
    match parse_u32(line) {
        Some(l) => {
            if text(column).is_none() {
                return None;
            }
            match parse_u32(column) {
                Some(c) => Some(Some((l, c))),
                None => None,
            }
        },
        None => Some(None),
    }
}

/// Reads the location that two ranges of `line` give.
fn read_location_in(line: &[u8], l0: usize, l1: usize, c0: usize, c1: usize) -> (r: Option<
    Option<(u32, u32)>,
>)
    ensures
        r == location_in(line@, l0 as int, l1 as int, c0 as int, c1 as int),
{
    if l0 <= l1 && l1 <= line.len() && c0 <= c1 && c1 <= line.len() {
        read_location(slice_subrange(line, l0, l1), slice_subrange(line, c0, c1))
    } else {
        None
    }
}

/// Reads a hint line.
pub(crate) fn read_hint<'a>(line: &'a [u8]) -> (r: Option<(u8, &'a str)>)
    ensures
        match r {
            Some(h) => hint_of(line@) == Some((h.0, h.1@)),
            None => hint_of(line@) is None,
        },
{
    let rest = trim_space_start(line);
    proof {
        lemma_leading_spaces(line@, 0);
    }
    let spaces = line.len() - rest.len();
    match text(rest) {
        Some(t) => Some((((spaces / 2) % 256) as u8, t)),
        None => None,
    }
}

/// Computes the length of an underline from the offset of its last tilde.
fn read_span(last: usize, margin: usize, column: u32) -> (r: Option<u32>)
    ensures
        r == span_length(last as int, margin as int, column as int),
{
    if last < margin {
        return None;
    }
    let rest = last - margin;
    if rest < column as usize {
        return None;
    }
    let n = rest - column as usize;
    if n > u32::MAX as usize {
        return None;
    }
    Some(n as u32)
}

/// Reads the length that the underline of a plain baseline gives.
pub(crate) fn read_underline(underline: &[u8], column: u32) -> (r: Option<Option<u32>>)
    ensures
        r == underline_length(underline@, column),
{
    match rfind(TILDE, underline) {
        Some(last) => match read_span(last, 2, column) {
            Some(n) => Some(Some(n)),
            None => None,
        },
        None => Some(None),
    }
}

/// Reads the length that the underline of a pretty snippet gives.
pub(crate) fn read_pretty_underline(underline: &[u8], indent: usize, column: u32) -> (r: Option<Option<u32>>)
    requires
        indent <= 4,
    ensures
        r == pretty_underline_length(underline@, indent as int, column),
{
    match rfind(TILDE, underline) {
        Some(last) => {
            if underline.len() < indent + 5 {
                return None;
            }
            match find_from(ESC, underline, indent + 5) {
                Some(e) => {
                    if e > usize::MAX - 8 {
                        return None;
                    }
                    match read_span(last, e + 8, column) {
                        Some(n) => Some(Some(n)),
                        None => None,
                    }
                },
                None => None,
            }
        },
        None => Some(None),
    }
}

/// Reads the place that the head of a pretty diagnostic names.
fn read_pretty_place<'a>(line: &'a [u8], start: usize) -> (r: Option<
    (&'a str, Option<(u32, u32)>),
>)
    requires
        start <= line@.len(),
    ensures
        match r {
            Some(p) => pretty_place(line@, start as int) == Some((p.0@, p.1)),
            None => pretty_place(line@, start as int) is None,
        },
{
    let e1 = find_nth_from(ESC, line, start, 0)?;
    let e4 = find_nth_from(ESC, line, start, 3)?;
    let e5 = find_nth_from(ESC, line, start, 4)?;
    let file = read_between(line, start, e1)?;
    if e4 < 5 {
        return None;
    }
    let loc = read_location_in(
        line,
        advance(line.len(), e1, 10)?,
        e4 - 5,
        advance(line.len(), e4, 5)?,
        e5,
    )?;
    Some((file, loc))
}

impl<'a> ConfigError<'a> {
    /// Reads a summary line without a file. The path only says where the
    /// line came from.
    pub fn parse(path: &Path, line: &'a [u8]) -> (r: Self)
        requires
            config_error_of(line@) is Some,
        ensures
            config_error_of(line@) == Some(r@),
    {
        ConfigError::try_parse(line).unwrap()
    }

    /// Reads a summary line without a file, if `line` is one.
    pub fn try_parse(line: &'a [u8]) -> (r: Option<Self>)
        ensures
            match r {
                Some(e) => config_error_of(line@) == Some(e@),
                None => config_error_of(line@) is None,
            },
    {
        if line.len() < 8 {
            return None;
        }
        let colon = find_from(COLON, line, 8)?;
        let code = read_between(line, 8, colon)?;
        let message = read_between(line, advance(line.len(), colon, 2)?, line.len())?;
        let r = ConfigError { code, message, hint: Vec::new() };
        assert(r@.hint =~= Seq::empty());
        Some(r)
    }
}

impl<'a> FileError<'a> {
    /// A diagnostic without hints and related diagnostics.
    fn plain(
        file: &'a str,
        loc: Option<(u32, u32)>,
        length: Option<u32>,
        code: &'a str,
        message: &'a str,
    ) -> (r: Self)
        ensures
            r@ == plain_error(file@, loc, length, code@, message@),
            r.hint@.len() == 0,
            r.related@.len() == 0,
    {
        let r = FileError { file, loc, length, code, message, hint: Vec::new(), related: Vec::new() };
        assert(r@.hint =~= Seq::empty());
        assert(r@.related =~= Seq::empty());
        r
    }

    /// Reads a summary line with a file. The path only says where the line
    /// came from.
    pub fn parse(path: &Path, line: &'a [u8]) -> (r: Self)
        requires
            file_error_of(line@) is Some,
        ensures
            file_error_of(line@) == Some(r@),
    {
        FileError::try_parse(line).unwrap()
    }

    /// Reads a summary line with a file, if `line` is one.
    pub fn try_parse(line: &'a [u8]) -> (r: Option<Self>)
        ensures
            match r {
                Some(e) => file_error_of(line@) == Some(e@),
                None => file_error_of(line@) is None,
            },
    {
        let len = line.len();
        let paren = find(LPAREN, line)?;
        let comma = find_from(COMMA, line, paren + 1)?;
        let close = find_from(RPAREN, line, comma + 1)?;
        if line.len() - close < 11 {
            return None;
        }
        let colon = find_from(COLON, line, close + 11)?;
        let file = read_between(line, 0, paren)?;
        let loc = read_location_in(line, paren + 1, comma, comma + 1, close)?;
        let code = read_between(line, close + 11, colon)?;
        let message = read_between(line, advance(line.len(), colon, 2)?, line.len())?;
        Some(FileError::plain(file, loc, None, code, message))
    }

    /// Reads an annotation that adds a related diagnostic to `parent`. The
    /// path only says where the line came from.
    pub fn parse_related(path: &Path, line: &'a [u8], parent: &FileError<'a>) -> (r: Self)
        requires
            related_of(line@, parent@) is Some,
        ensures
            related_of(line@, parent@) == Some(r@),
    {
        FileError::try_parse_related(line, parent).unwrap()
    }

    /// Reads an annotation that adds a related diagnostic to `parent`, if
    /// `line` is one.
    pub fn try_parse_related(line: &'a [u8], parent: &FileError<'a>) -> (r: Option<Self>)
        ensures
            match r {
                Some(e) => related_of(line@, parent@) == Some(e@),
                None => related_of(line@, parent@) is None,
            },
    {
        if line.len() < 14 {
            return None;
        }
        let len = line.len();
        let end = find2_from(SPACE, COLON, line, 14)?;
        if line[end] == SPACE {
            let c1 = find_from(COLON, line, end + 1)?;
            let c2 = find_from(COLON, line, c1 + 1)?;
            let c3 = find_from(COLON, line, c2 + 1)?;
            let file = read_between(line, end + 1, c1)?;
            let loc = read_location_in(line, c1 + 1, c2, c2 + 1, c3)?;
            let code = read_between(line, 14, end)?;
            let message = read_between(line, advance(line.len(), c3, 2)?, line.len())?;
            Some(FileError::plain(file, loc, None, code, message))
        } else {
            let code = read_between(line, 14, end)?;
            let message = read_between(line, advance(line.len(), end, 2)?, line.len())?;
            Some(FileError::plain(parent.file, parent.loc, parent.length, code, message))
        }
    }

    /// Reads the head of a pretty diagnostic. The path only says where the
    /// line came from.
    pub fn parse_pretty(path: &Path, line: &'a [u8]) -> (r: Self)
        requires
            pretty_error_of(line@) is Some,
        ensures
            pretty_error_of(line@) == Some(r@),
    {
        FileError::try_parse_pretty(line).unwrap()
    }

    /// Reads the head of a pretty diagnostic, if `line` is one.
    pub fn try_parse_pretty(line: &'a [u8]) -> (r: Option<Self>)
        ensures
            match r {
                Some(e) => pretty_error_of(line@) == Some(e@),
                None => pretty_error_of(line@) is None,
            },
    {
        if line.len() < 5 {
            return None;
        }
        let place = read_pretty_place(line, 5)?;
        let e8 = find_nth_from(ESC, line, 5, 7)?;
        let e9 = find_nth_from(ESC, line, 5, 8)?;
        if e9 < 2 {
            return None;
        }
        let code = read_between(line, advance(line.len(), e8, 8)?, e9 - 2)?;
        let message = read_between(line, advance(line.len(), e9, 4)?, line.len())?;
        Some(FileError::plain(place.0, place.1, None, code, message))
    }

    /// Reads a related diagnostic of a pretty baseline from the head of its
    /// block, the underline of its snippet and its message line. The path
    /// only says where the lines came from.
    pub fn parse_pretty_related(
        path: &Path,
        head: &'a [u8],
        underline: &'a [u8],
        message: &'a [u8],
    ) -> (r: Self)
        requires
            pretty_related_of(head@, underline@, message@) is Some,
        ensures
            pretty_related_of(head@, underline@, message@) == Some(r@),
    {
        FileError::try_parse_pretty_related(head, underline, message).unwrap()
    }

    /// Reads a related diagnostic of a pretty baseline from the head of its
    /// block, the underline of its snippet and its message line, if they
    /// give one.
    pub fn try_parse_pretty_related(
        head: &'a [u8],
        underline: &'a [u8],
        message: &'a [u8],
    ) -> (r: Option<Self>)
        ensures
            match r {
                Some(e) => pretty_related_of(head@, underline@, message@) == Some(e@),
                None => pretty_related_of(head@, underline@, message@) is None,
            },
    {
        if head.len() < 7 {
            return None;
        }
        let place = read_pretty_place(head, 7)?;
        let text = read_between(message, 4, message.len())?;
        let length = match place.1 {
            Some(loc) => read_pretty_underline(underline, 4, loc.1)?,
            None => None,
        };
        let r = FileError::plain(place.0, place.1, length, "", text);
        proof {
            reveal_strlit("");
            assert(""@ =~= Seq::<char>::empty());
        }
        Some(r)
    }
}

} // verus!

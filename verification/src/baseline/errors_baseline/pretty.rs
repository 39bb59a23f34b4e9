//! The head of a pretty errors baseline: the diagnostics in color, each with
//! its hints, a snippet of its source and its related diagnostics.

use vstd::prelude::*;
use vstd::string::StringSliceAdditionalSpecFns;
use crate::byte_utils::SPACE;
use crate::scan::{has_prefix, starts_with, ESC};
use crate::baseline::line_iter::{LineIter, line_content, next_pos, has_line, lemma_next_pos};
use crate::baseline::errors_baseline::{
    FileError, FileErrorView, hints_view, errors_view, lemma_error_view, ErrorsScanner,
};
use crate::baseline::errors_baseline::diagnostic::{
    hint_of, pretty_error_of, pretty_underline_length, pretty_related_of, read_hint,
    read_pretty_underline,
};

verus! {

/// The hint lines of a pretty diagnostic, from `pos` on. They end with the
/// line before the snippet, which is left out, as is the source line of the
/// snippet, whose first byte is the escape character. Returns the position
/// of the snippet's underline and the hints.
pub open spec fn pretty_hints(data: Seq<u8>, pos: int, hint: Seq<(u8, Seq<char>)>) -> Option<
    (int, Seq<(u8, Seq<char>)>),
>
    decreases data.len() + 1 - pos,
{
    if has_line(data, pos) {
        let after = next_pos(data, pos);
        proof {
            lemma_next_pos(data, pos);
        }
        if 0 <= after < data.len() {
            if data[after] == ESC {
                Some((next_pos(data, after), hint))
            } else {
                match hint_of(line_content(data, pos)) {
                    Some(h) => pretty_hints(data, after, hint.push(h)),
                    None => None,
                }
            }
        } else {
            None
        }
    } else {
        Some((pos, hint))
    }
}

/// The related diagnostics of a pretty diagnostic, from `pos` on. Each is a
/// block of four lines, whose first starts with two spaces and the escape
/// character: head, source line, underline and message.
pub open spec fn pretty_related(data: Seq<u8>, pos: int, related: Seq<FileErrorView>) -> Option<
    (int, Seq<FileErrorView>),
>
    decreases data.len() + 1 - pos,
{
    if 0 <= pos && pos + 3 <= data.len() {
        if data[pos] == SPACE && data[pos + 1] == SPACE && data[pos + 2] == ESC {
            let at_source = next_pos(data, pos);
            let at_underline = next_pos(data, at_source);
            let at_message = next_pos(data, at_underline);
            proof {
                lemma_next_pos(data, pos);
                if has_line(data, at_source) {
                    lemma_next_pos(data, at_source);
                }
                if has_line(data, at_underline) {
                    lemma_next_pos(data, at_underline);
                }
                if has_line(data, at_message) {
                    lemma_next_pos(data, at_message);
                }
            }
            if has_line(data, at_source) && has_line(data, at_underline) && has_line(data, at_message) {
                match pretty_related_of(
                    line_content(data, pos),
                    line_content(data, at_underline),
                    line_content(data, at_message),
                ) {
                    Some(r) => pretty_related(data, next_pos(data, at_message), related.push(r)),
                    None => None,
                }
            } else {
                None
            }
        } else {
            Some((pos, related))
        }
    } else {
        None
    }
}

/// The length that a pretty diagnostic gets from the underline of its
/// snippet: none where it has no location.
pub open spec fn snippet_length(underline: Seq<u8>, loc: Option<(u32, u32)>) -> Option<Option<u32>> {
    match loc {
        Some(l) => pretty_underline_length(underline, 0, l.1),
        None => Some(None),
    }
}

/// One pretty diagnostic, whose head is the line at `pos`: the position
/// behind it and the diagnostic. It is made of the head, hint lines, a
/// snippet of two lines and, after an empty line, related diagnostics; where
/// the next diagnostic follows the snippet at once, there are none.
pub open spec fn pretty_block(data: Seq<u8>, pos: int) -> Option<(int, FileErrorView)> {
    match (pretty_error_of(line_content(data, pos)), pretty_hints(data, next_pos(data, pos), Seq::empty())) {
        (Some(e), Some(h)) => {
            let after = next_pos(data, h.0);
            if has_line(data, h.0) && 0 <= after < data.len() {
                match snippet_length(line_content(data, h.0), e.loc) {
                    Some(length) => {
                        let e1 = FileErrorView { hint: h.1, length, ..e };
                        if data[after] == ESC {
                            Some((after, e1))
                        } else {
                            match pretty_related(data, next_pos(data, after), Seq::empty()) {
                                Some(r) => Some((r.0, FileErrorView { related: r.1, ..e1 })),
                                None => None,
                            }
                        }
                    },
                    None => None,
                }
            } else {
                None
            }
        },
        _ => None,
    }
}

/// The pretty diagnostics from `pos` on, up to the first line that is no
/// head of one, and the position behind that line.
pub open spec fn pretty_errors(data: Seq<u8>, pos: int, errors: Seq<FileErrorView>) -> Option<
    (int, Seq<FileErrorView>),
>
    decreases data.len() + 1 - pos,
{
    if has_line(data, pos) {
        if has_prefix(line_content(data, pos), "\u{1b}[96m".spec_bytes()) {
            match pretty_block(data, pos) {
                Some(b) => {
                    proof {
                        lemma_pretty_block_advances(data, pos);
                    }
                    pretty_errors(data, b.0, errors.push(b.1))
                },
                None => None,
            }
        } else {
            Some((next_pos(data, pos), errors))
        }
    } else {
        Some((pos, errors))
    }
}

/// Hints are read forward.
pub proof fn lemma_pretty_hints_advance(data: Seq<u8>, pos: int, hint: Seq<(u8, Seq<char>)>)
    ensures
        pretty_hints(data, pos, hint) matches Some(r) ==> pos <= r.0,
    decreases data.len() + 1 - pos,
{
    if has_line(data, pos) {
        lemma_next_pos(data, pos);
        let after = next_pos(data, pos);
        if 0 <= after < data.len() {
            lemma_next_pos(data, after);
            if data[after] != ESC && hint_of(line_content(data, pos)) is Some {
                lemma_pretty_hints_advance(
                    data,
                    after,
                    hint.push(hint_of(line_content(data, pos))->0),
                );
            }
        }
    }
}

/// Related diagnostics are read forward.
pub proof fn lemma_pretty_related_advance(data: Seq<u8>, pos: int, related: Seq<FileErrorView>)
    ensures
        pretty_related(data, pos, related) matches Some(r) ==> pos <= r.0 <= data.len() + 1,
    decreases data.len() + 1 - pos,
{
    if 0 <= pos && pos + 3 <= data.len() {
        if data[pos] == SPACE && data[pos + 1] == SPACE && data[pos + 2] == ESC {
            let at_source = next_pos(data, pos);
            let at_underline = next_pos(data, at_source);
            let at_message = next_pos(data, at_underline);
            lemma_next_pos(data, pos);
            if has_line(data, at_source) && has_line(data, at_underline) && has_line(data, at_message) {
                lemma_next_pos(data, at_source);
                lemma_next_pos(data, at_underline);
                lemma_next_pos(data, at_message);
                let r = pretty_related_of(
                    line_content(data, pos),
                    line_content(data, at_underline),
                    line_content(data, at_message),
                );
                if r is Some {
                    lemma_pretty_related_advance(data, next_pos(data, at_message), related.push(r->0));
                }
            }
        }
    }
}

/// A pretty diagnostic ends behind its head.
pub proof fn lemma_pretty_block_advances(data: Seq<u8>, pos: int)
    requires
        has_line(data, pos),
    ensures
        pretty_block(data, pos) matches Some(b) ==> pos < b.0 <= data.len() + 1,
{
    lemma_next_pos(data, pos);
    lemma_pretty_hints_advance(data, next_pos(data, pos), Seq::empty());
    match pretty_hints(data, next_pos(data, pos), Seq::empty()) {
        Some(h) => {
            if has_line(data, h.0) {
                lemma_next_pos(data, h.0);
                let after = next_pos(data, h.0);
                if 0 <= after < data.len() {
                    lemma_next_pos(data, after);
                    lemma_pretty_related_advance(data, next_pos(data, after), Seq::empty());
                }
            }
        },
        None => {},
    }
}

/// Reads the hint lines of a pretty diagnostic and passes the source line of
/// its snippet.
fn read_pretty_hints<'a>(iter: &mut LineIter<'a>) -> (r: Option<Vec<(u8, &'a str)>>)
    requires
        old(iter).wf(),
    ensures
        final(iter).wf(),
        final(iter).data == old(iter).data,
        match r {
            Some(hint) => pretty_hints(old(iter).data@, old(iter).pos(), Seq::empty()) == Some(
                (final(iter).pos(), hints_view(hint@)),
            ),
            None => pretty_hints(old(iter).data@, old(iter).pos(), Seq::empty()) is None,
        },
{
    let ghost data = iter.data@;
    let mut hint: Vec<(u8, &'a str)> = Vec::new();
    assert(hints_view(hint@) =~= Seq::empty());
    loop
        invariant
            iter.wf(),
            iter.data == old(iter).data,
            data == iter.data@,
            pretty_hints(data, iter.pos(), hints_view(hint@)) == pretty_hints(
                old(iter).data@,
                old(iter).pos(),
                Seq::empty(),
            ),
        decreases data.len() + 1 - iter.pos(),
    {
        proof {
            if has_line(data, iter.pos()) {
                lemma_next_pos(data, iter.pos());
            }
        }
        let line = match iter.next() {
            Some((_, _, line)) => line,
            None => {
                return Some(hint);
            },
        };
        match iter.peek() {
            Some(b) => {
                if b == ESC {
                    let skipped = iter.next();
                    return Some(hint);
                }
            },
            None => {
                return None;
            },
        }
        match read_hint(line) {
            Some(h) => {
                let ghost before = hints_view(hint@);
                hint.push(h);
                assert(hints_view(hint@) =~= before.push((h.0, h.1@)));
            },
            None => {
                return None;
            },
        }
    }
}

/// Reads the related diagnostics of a pretty diagnostic.
fn read_pretty_related<'a>(iter: &mut LineIter<'a>) -> (r: Option<Vec<FileError<'a>>>)
    requires
        old(iter).wf(),
    ensures
        final(iter).wf(),
        final(iter).data == old(iter).data,
        match r {
            Some(related) => pretty_related(old(iter).data@, old(iter).pos(), Seq::empty())
                == Some((final(iter).pos(), errors_view(related@))),
            None => pretty_related(old(iter).data@, old(iter).pos(), Seq::empty()) is None,
        },
{
    let ghost data = iter.data@;
    let mut related: Vec<FileError<'a>> = Vec::new();
    assert(errors_view(related@) =~= Seq::empty());
    loop
        invariant
            iter.wf(),
            iter.data == old(iter).data,
            data == iter.data@,
            pretty_related(data, iter.pos(), errors_view(related@)) == pretty_related(
                old(iter).data@,
                old(iter).pos(),
                Seq::empty(),
            ),
        decreases data.len() + 1 - iter.pos(),
    {
        let bytes = iter.data;
        let at = iter.line_start;
        if bytes.len() - at < 3 {
            return None;
        }
        if !(bytes[at] == SPACE && bytes[at + 1] == SPACE && bytes[at + 2] == ESC) {
            return Some(related);
        }
        let ghost at_head = iter.pos();
        proof {
            lemma_next_pos(data, at_head);
        }
        let head = match iter.next() {
            Some((_, _, line)) => line,
            None => {
                return None;
            },
        };
        let ghost at_source = iter.pos();
        proof {
            if has_line(data, at_source) {
                lemma_next_pos(data, at_source);
            }
        }
        if iter.next().is_none() {
            return None;
        }
        let ghost at_underline = iter.pos();
        proof {
            if has_line(data, at_underline) {
                lemma_next_pos(data, at_underline);
            }
        }
        let underline = match iter.next() {
            Some((_, _, line)) => line,
            None => {
                return None;
            },
        };
        let ghost at_message = iter.pos();
        proof {
            if has_line(data, at_message) {
                lemma_next_pos(data, at_message);
            }
        }
        let message = match iter.next() {
            Some((_, _, line)) => line,
            None => {
                return None;
            },
        };
        match FileError::try_parse_pretty_related(head, underline, message) {
            Some(r) => {
                let ghost before = errors_view(related@);
                related.push(r);
                assert(errors_view(related@) =~= before.push(r@));
            },
            None => {
                return None;
            },
        }
    }
}

/// Reads one pretty diagnostic, whose head `head` has been read already.
fn read_pretty_block<'a>(iter: &mut LineIter<'a>, head: &'a [u8], Ghost(pos): Ghost<int>) -> (r:
    Option<FileError<'a>>)
    requires
        old(iter).wf(),
        has_line(old(iter).data@, pos),
        head@ == line_content(old(iter).data@, pos),
        old(iter).pos() == next_pos(old(iter).data@, pos),
    ensures
        final(iter).wf(),
        final(iter).data == old(iter).data,
        match r {
            Some(e) => pretty_block(old(iter).data@, pos) == Some((final(iter).pos(), e@)),
            None => pretty_block(old(iter).data@, pos) is None,
        },
{
    let ghost data = iter.data@;
    let mut e = FileError::try_parse_pretty(head)?;
    let hint = read_pretty_hints(iter)?;
    let ghost upos = iter.pos();
    proof {
        if has_line(data, upos) {
            lemma_next_pos(data, upos);
        }
    }
    let underline = match iter.next() {
        Some((_, _, line)) => line,
        None => {
            return None;
        },
    };
    let follows = iter.peek()?;
    let length = match e.loc {
        Some(loc) => read_pretty_underline(underline, 0, loc.1)?,
        None => None,
    };
    let ghost e0 = e@;
    proof {
        lemma_error_view(e);
    }
    e.hint = hint;
    e.length = length;
    if follows != ESC {
        let ghost after = iter.pos();
        proof {
            lemma_next_pos(data, after);
        }
        let skipped = iter.next();
        let related = read_pretty_related(iter)?;
        e.related = related;
    }
    proof {
        lemma_error_view(e);
    }
    Some(e)
}

impl<'a> ErrorsScanner<'a> {
    /// Reads the pretty diagnostics at the head of the baseline.
    pub(crate) fn pretty_errors(&mut self) -> (ok: bool)
        requires
            old(self).iter.wf(),
        ensures
            final(self).iter.wf(),
            final(self).iter.data == old(self).iter.data,
            final(self).config_errors == old(self).config_errors,
            ok ==> pretty_errors(
                old(self).iter.data@,
                old(self).iter.pos(),
                errors_view(old(self).errors@),
            ) == Some((final(self).iter.pos(), errors_view(final(self).errors@))),
            !ok ==> pretty_errors(
                old(self).iter.data@,
                old(self).iter.pos(),
                errors_view(old(self).errors@),
            ) is None,
    {
        let ghost data = self.iter.data@;
        loop
            invariant
                self.iter.wf(),
                self.iter.data == old(self).iter.data,
                data == self.iter.data@,
                self.config_errors == old(self).config_errors,
                pretty_errors(data, self.iter.pos(), errors_view(self.errors@)) == pretty_errors(
                    old(self).iter.data@,
                    old(self).iter.pos(),
                    errors_view(old(self).errors@),
                ),
            decreases data.len() + 1 - self.iter.pos(),
        {
            let ghost pos = self.iter.pos();
            proof {
                if has_line(data, pos) {
                    lemma_next_pos(data, pos);
                    lemma_pretty_block_advances(data, pos);
                }
            }
            let line = match self.iter.next() {
                Some((_, _, line)) => line,
                None => {
                    return true;
                },
            };
            if !starts_with(line, "\u{1b}[96m".as_bytes()) {
                return true;
            }
            match read_pretty_block(&mut self.iter, line, Ghost(pos)) {
                Some(e) => {
                    let ghost before = errors_view(self.errors@);
                    self.errors.push(e);
                    assert(errors_view(self.errors@) =~= before.push(e@));
                },
                None => {
                    return false;
                },
            }
        }
    }
}

} // verus!

//! Splitting a buffer into lines.
//!
//! A line ends with `\n` or `\r\n`, which are not part of its content; a last
//! line without a terminator is kept as it is. Once the end of the buffer is
//! reached, one more empty line is produced: it stands for the line after a
//! trailing newline, and the parsers rely on it to see two empty lines in a
//! row.

use vstd::prelude::*;
use vstd::slice::slice_subrange;
use crate::scan::{first_from, is_first_from, lemma_first_from, find_from, LF, CR};

verus! {

/// Offset just past the line that starts at `pos`, its terminator included.
pub open spec fn line_stop(data: Seq<u8>, pos: int) -> int {
    match first_from(data, LF, pos) {
        Some(i) => i + 1,
        None => data.len() as int,
    }
}

/// Offset just past the content of the line that starts at `pos`.
pub open spec fn content_stop(data: Seq<u8>, pos: int) -> int {
    let stop = line_stop(data, pos);
    if stop - pos >= 2 && data[stop - 2] == CR && data[stop - 1] == LF {
        stop - 2
    } else if stop - pos >= 1 && data[stop - 1] == LF {
        stop - 1
    } else {
        stop
    }
}

/// Whether a line starts at `pos`: at every offset up to the end of the
/// buffer, the end itself included (the final empty line).
pub open spec fn has_line(data: Seq<u8>, pos: int) -> bool {
    0 <= pos <= data.len()
}

/// Content of the line that starts at `pos`.
pub open spec fn line_content(data: Seq<u8>, pos: int) -> Seq<u8> {
    if 0 <= pos < data.len() {
        data.subrange(pos, content_stop(data, pos))
    } else {
        Seq::empty()
    }
}

/// Where the line after the one at `pos` starts. After the final empty line
/// this is one past the buffer's length, where no line starts.
pub open spec fn next_pos(data: Seq<u8>, pos: int) -> int {
    if 0 <= pos < data.len() {
        line_stop(data, pos)
    } else {
        pos + 1
    }
}

/// Offset in the buffer that a position stands for: the position itself, or
/// the buffer's length once the final empty line has been passed.
pub open spec fn offset_of(data: Seq<u8>, pos: int) -> int {
    if pos > data.len() {
        data.len() as int
    } else {
        pos
    }
}

/// First byte of the line at `pos`, if the buffer has a byte there.
pub open spec fn byte_at(data: Seq<u8>, pos: int) -> Option<u8> {
    if 0 <= pos < data.len() {
        Some(data[pos])
    } else {
        None
    }
}

/// A line lies inside the buffer, its content holds no line feed and stops
/// before the next line starts, and the next line starts further on.
pub proof fn lemma_line_bounds(data: Seq<u8>, pos: int)
    requires
        0 <= pos < data.len(),
    ensures
        pos < line_stop(data, pos) <= data.len(),
        pos <= content_stop(data, pos) <= line_stop(data, pos),
        line_stop(data, pos) - content_stop(data, pos) <= 2,
        line_content(data, pos).len() == content_stop(data, pos) - pos,
        forall|i: int| 0 <= i < line_content(data, pos).len() ==> line_content(data, pos)[i] != LF,
        pos < next_pos(data, pos) <= data.len(),
{
    lemma_first_from(data, LF, pos, 0);
    let stop = line_stop(data, pos);
    let c = line_content(data, pos);
    assert forall|i: int| 0 <= i < c.len() implies c[i] != LF by {
        assert(c[i] == data[pos + i]);
        match first_from(data, LF, pos) {
            Some(k) => {
                assert(is_first_from(data, LF, pos, k));
            },
            None => {},
        }
    }
}

/// Positions only move forward, and stay within one step of the buffer's end.
pub proof fn lemma_next_pos(data: Seq<u8>, pos: int)
    requires
        has_line(data, pos),
    ensures
        pos < next_pos(data, pos) <= data.len() + 1,
        offset_of(data, next_pos(data, pos)) <= data.len(),
{
    if pos < data.len() {
        lemma_line_bounds(data, pos);
    }
}

/// Cursor over the lines of a buffer.
pub struct LineIter<'a> {
    pub data: &'a [u8],
    /// Offset at which the next line starts.
    pub line_start: usize,
    /// Index of the next line.
    pub line_idx: usize,
    /// Set once the final empty line has been produced.
    pub done: bool,
}

impl<'a> LineIter<'a> {
    /// The cursor's invariant.
    pub open spec fn wf(&self) -> bool {
        &&& self.line_start <= self.data@.len()
        &&& self.line_idx <= self.line_start
        &&& self.done ==> self.line_start == self.data@.len()
    }

    /// Position of the next line; past every line once the cursor is exhausted.
    pub open spec fn pos(&self) -> int {
        if self.done {
            (self.data@.len() + 1) as int
        } else {
            self.line_start as int
        }
    }

    /// A cursor at the first line of `data`.
    pub fn new(data: &'a [u8]) -> (r: Self)
        ensures
            r.wf(),
            r.data == data,
            r.pos() == 0,
            r.line_idx == 0,
    {
        LineIter { data, line_start: 0, line_idx: 0, done: false }
    }

    /// Produces the next line as index, starting offset and content, and
    /// moves past it; `None` once the final empty line has been produced.
    pub fn next(&mut self) -> (r: Option<(usize, usize, &'a [u8])>)
        requires
            old(self).wf(),
        ensures
            final(self).wf(),
            final(self).data == old(self).data,
            r is Some <==> has_line(old(self).data@, old(self).pos()),
            r is None ==> *final(self) == *old(self),
            r matches Some(line) ==> {
                &&& line.0 == old(self).line_idx
                &&& line.1 == old(self).pos()
                &&& line.2@ == line_content(old(self).data@, old(self).pos())
                &&& line.1 + line.2@.len() <= old(self).data@.len()
                &&& line.2@ == old(self).data@.subrange(line.1 as int, line.1 + line.2@.len())
                &&& final(self).pos() == next_pos(old(self).data@, old(self).pos())
                &&& final(self).line_start == offset_of(old(self).data@, final(self).pos())
                &&& final(self).line_idx == if line.1 < old(self).data@.len() {
                    line.0 + 1
                } else {
                    line.0 as int
                }
            },
    {
        if self.done {
            return None;
        }
        let data = self.data;
        let start = self.line_start;
        let idx = self.line_idx;
        if start == data.len() {
            self.done = true;
            let empty = slice_subrange(data, start, start);
            assert(empty@ =~= Seq::<u8>::empty());
            return Some((idx, start, empty));
        }
        proof {
            lemma_line_bounds(data@, start as int);
        }
        let stop = match find_from(LF, data, start) {
            Some(i) => i + 1,
            None => data.len(),
        };
        let end = if stop - start >= 2 && data[stop - 2] == CR && data[stop - 1] == LF {
            stop - 2
        } else if data[stop - 1] == LF {
            stop - 1
        } else {
            stop
        };
        self.line_start = stop;
        self.line_idx = idx + 1;
        Some((idx, start, slice_subrange(data, start, end)))
    }
    /// The first byte of the next line, if the buffer has a byte there.
    pub fn peek(&self) -> (r: Option<u8>)
        requires
            self.wf(),
        ensures
            r == byte_at(self.data@, self.pos()),
    {
        if self.line_start < self.data.len() {
            Some(self.data[self.line_start])
        } else {
            None
        }
    }

    /// Whether the next line starts with the byte `b`.
    pub fn next_is(&self, b: u8) -> (r: bool)
        requires
            self.wf(),
        ensures
            r == (byte_at(self.data@, self.pos()) == Some(b)),
    {
        match self.peek() {
            Some(x) => x == b,
            None => false,
        }
    }
}

} // verus!

//! The sections of an errors baseline: the sources of the files, each line
//! followed by the underlines and annotations of the diagnostics that start
//! on it.

use vstd::prelude::*;
use vstd::slice::slice_subrange;
use vstd::string::StringSliceAdditionalSpecFns;
use vstd::utf8::valid_utf8;
use crate::byte_utils::SPACE;
use crate::scan::{
    first_from, find_from, has_prefix, starts_with, text_of, text, text_between, read_between, BANG,
    EQUALS, LOWER_R,
};
use crate::baseline::line_iter::{
    LineIter, line_content, next_pos, has_line, byte_at, lemma_next_pos,
};
use crate::baseline::file_order::{FileOrder, file_order, order_files};
use crate::baseline::errors_baseline::{
    FileError, FileErrorView, errors_view, lemma_error_view, ErrorsScanner,
};
use crate::baseline::errors_baseline::diagnostic::{related_of, underline_length, read_underline};

verus! {

/// A line that starts with `=` opens the section of a file.
pub open spec fn is_section(line: Seq<u8>) -> bool {
    line.len() > 0 && line[0] == EQUALS
}

/// The file that a section line `==== <file> (<n> errors) ====` names,
/// without a leading `./`.
pub open spec fn section_name(line: Seq<u8>) -> Option<Seq<char>> {
    if line.len() >= 5 {
        match first_from(line, SPACE, 5) {
            Some(end) => {
                let name = line.subrange(5, end);
                if valid_utf8(name) {
                    text_of(
                        if has_prefix(name, "./".spec_bytes()) && name.len() >= 2 {
                            name.skip(2)
                        } else {
                            name
                        },
                    )
                } else {
                    None
                }
            },
            None => None,
        }
    } else {
        None
    }
}

/// Number of errors in a row, from index `from` on, whose file stands to
/// `file` as `order` says.
pub open spec fn run_of(errors: Seq<FileErrorView>, file: Seq<char>, order: FileOrder, from: int) -> int
    decreases errors.len() - from,
{
    if 0 <= from < errors.len() && file_order(errors[from].file, file) == order {
        1 + run_of(errors, file, order, from + 1)
    } else {
        0
    }
}

/// The range of the errors of `file`. The errors have to be grouped: first
/// those of files that come before `file`, then those of `file`, then those of
/// files that come after it.
pub open spec fn selection(errors: Seq<FileErrorView>, file: Seq<char>) -> Option<(int, int)> {
    let start = run_of(errors, file, FileOrder::Before, 0);
    let end = start + run_of(errors, file, FileOrder::Same, start);
    if end + run_of(errors, file, FileOrder::After, end) == errors.len() {
        Some((start, end))
    } else {
        None
    }
}

/// The indices from `start` up to `end`.
pub open spec fn index_range(start: int, end: int) -> Seq<usize> {
    Seq::new((end - start) as nat, |i: int| (start + i) as usize)
}

/// The annotations (`!!! ...`) from `pos` on: those with an `r` in fifth
/// place add a related diagnostic to `parent`, the others repeat its message.
/// Returns the position of the first line that is no annotation, and `notes`
/// with the related diagnostics added.
pub open spec fn notes_from(
    data: Seq<u8>,
    pos: int,
    parent: FileErrorView,
    notes: Seq<FileErrorView>,
) -> Option<(int, Seq<FileErrorView>)>
    decreases data.len() + 1 - pos,
{
    if byte_at(data, pos) == Some(BANG) {
        let line = line_content(data, pos);
        proof {
            lemma_next_pos(data, pos);
        }
        if line.len() > 4 {
            if line[4] == LOWER_R {
                match related_of(line, parent) {
                    Some(r) => notes_from(data, next_pos(data, pos), parent, notes.push(r)),
                    None => None,
                }
            } else {
                notes_from(data, next_pos(data, pos), parent, notes)
            }
        } else {
            None
        }
    } else {
        Some((pos, notes))
    }
}

/// The annotations from `pos` on in a pretty baseline, where the related
/// diagnostics are known already: each annotation with an `r` in fifth place
/// gives its code to the next of them, starting with the one at index `j`.
/// There have to be as many such annotations as related diagnostics.
pub open spec fn codes_from(data: Seq<u8>, pos: int, related: Seq<FileErrorView>, j: int) -> Option<
    (int, Seq<FileErrorView>),
>
    decreases data.len() + 1 - pos,
{
    if byte_at(data, pos) == Some(BANG) {
        let line = line_content(data, pos);
        proof {
            lemma_next_pos(data, pos);
        }
        if line.len() > 4 {
            if line[4] == LOWER_R {
                if 0 <= j < related.len() && line.len() >= 14 {
                    match first_from(line, SPACE, 14) {
                        Some(end) => match text_between(line, 14, end) {
                            Some(code) => codes_from(
                                data,
                                next_pos(data, pos),
                                related.update(j, FileErrorView { code, ..related[j] }),
                                j + 1,
                            ),
                            None => None,
                        },
                        None => None,
                    }
                } else {
                    None
                }
            } else {
                codes_from(data, next_pos(data, pos), related, j)
            }
        } else {
            None
        }
    } else if j == related.len() {
        Some((pos, related))
    } else {
        None
    }
}

/// What the lines from `pos` on do to the error at index `idx`, whose line
/// has been reached: the position behind them, the errors, and whether the
/// error is done with.
///
/// In a plain baseline the next line is an underline. If annotations follow
/// it, the error is done: an underline right under the error's own line
/// gives its length, and the annotations give its related diagnostics.
/// Without annotations the error spans further lines and has to wait.
///
/// In a pretty baseline there is no underline to pass, and annotations give
/// the codes of the related diagnostics.
pub open spec fn mark_step(
    data: Seq<u8>,
    pos: int,
    errors: Seq<FileErrorView>,
    idx: int,
    code_line: int,
    pretty: bool,
) -> Option<(int, Seq<FileErrorView>, bool)>
    recommends
        0 <= idx < errors.len(),
        errors[idx].loc is Some,
{
    let e = errors[idx];
    if pretty {
        if 0 <= pos < data.len() {
            if data[pos] == BANG {
                match codes_from(data, pos, e.related, 0) {
                    Some(r) => Some(
                        (r.0, errors.update(idx, FileErrorView { related: r.1, ..e }), true),
                    ),
                    None => None,
                }
            } else {
                Some((pos, errors, false))
            }
        } else {
            None
        }
    } else {
        let after = next_pos(data, pos);
        if has_line(data, pos) && after < data.len() {
            if data[after] == BANG {
                match (if code_line == (e.loc->0).0 {
                    underline_length(line_content(data, pos), (e.loc->0).1)
                } else {
                    Some(e.length)
                }) {
                    Some(length) => {
                        let parent = FileErrorView { length, ..e };
                        match notes_from(data, after, parent, Seq::empty()) {
                            Some(r) => Some(
                                (
                                    r.0,
                                    errors.update(
                                        idx,
                                        FileErrorView { related: parent.related + r.1, ..parent },
                                    ),
                                    true,
                                ),
                            ),
                            None => None,
                        }
                    },
                    None => None,
                }
            } else {
                Some((after, errors, false))
            }
        } else {
            None
        }
    }
}

/// Goes through the pending errors from the `k`-th on, in order, as long as
/// their line is not behind `code_line`, the source line that was just read.
/// Returns the position reached, the errors, and the errors that are still
/// pending: those in `kept` and those that were not done with.
pub open spec fn mark(
    data: Seq<u8>,
    pos: int,
    errors: Seq<FileErrorView>,
    queue: Seq<usize>,
    k: int,
    code_line: int,
    kept: Seq<usize>,
    pretty: bool,
) -> Option<(int, Seq<FileErrorView>, Seq<usize>)>
    decreases queue.len() - k,
{
    if 0 <= k < queue.len() {
        let idx = queue[k] as int;
        if idx < errors.len() && errors[idx].loc is Some {
            if (errors[idx].loc->0).0 <= code_line {
                match mark_step(data, pos, errors, idx, code_line, pretty) {
                    Some(s) => mark(
                        data,
                        s.0,
                        s.1,
                        queue,
                        k + 1,
                        code_line,
                        if s.2 {
                            kept
                        } else {
                            kept.push(queue[k])
                        },
                        pretty,
                    ),
                    None => None,
                }
            } else {
                Some((pos, errors, kept + queue.skip(k)))
            }
        } else {
            None
        }
    } else {
        Some((pos, errors, kept))
    }
}

/// Where the parser stands in the sections of the files.
pub struct BodyState {
    pub errors: Seq<FileErrorView>,
    /// Indices of the errors of the current file that are not done with.
    pub queue: Seq<usize>,
    /// Number of source lines read in the current section.
    pub code_line: int,
}

/// The state when the section of `file` opens.
pub open spec fn enter_section(errors: Seq<FileErrorView>, file: Seq<char>) -> Option<BodyState> {
    match selection(errors, file) {
        Some(sel) => Some(BodyState { errors, queue: index_range(sel.0, sel.1), code_line: 0 }),
        None => None,
    }
}

/// Annotations are read forward: the position never moves back.
pub proof fn lemma_notes_advance(
    data: Seq<u8>,
    pos: int,
    parent: FileErrorView,
    notes: Seq<FileErrorView>,
)
    ensures
        notes_from(data, pos, parent, notes) matches Some(r) ==> pos <= r.0 && (has_line(data, pos)
            ==> r.0 <= data.len() + 1),
    decreases data.len() + 1 - pos,
{
    if byte_at(data, pos) == Some(BANG) {
        lemma_next_pos(data, pos);
        let line = line_content(data, pos);
        if line.len() > 4 {
            if line[4] == LOWER_R {
                if related_of(line, parent) is Some {
                    lemma_notes_advance(
                        data,
                        next_pos(data, pos),
                        parent,
                        notes.push(related_of(line, parent)->0),
                    );
                }
            } else {
                lemma_notes_advance(data, next_pos(data, pos), parent, notes);
            }
        }
    }
}

/// Codes are read forward: the position never moves back.
pub proof fn lemma_codes_advance(data: Seq<u8>, pos: int, related: Seq<FileErrorView>, j: int)
    ensures
        codes_from(data, pos, related, j) matches Some(r) ==> pos <= r.0 && (has_line(data, pos)
            ==> r.0 <= data.len() + 1),
    decreases data.len() + 1 - pos,
{
    if byte_at(data, pos) == Some(BANG) {
        lemma_next_pos(data, pos);
        let line = line_content(data, pos);
        if line.len() > 4 {
            if line[4] == LOWER_R {
                if 0 <= j < related.len() && line.len() >= 14 {
                    let end = first_from(line, SPACE, 14);
                    if end is Some && text_between(line, 14, end->0) is Some {
                        lemma_codes_advance(
                            data,
                            next_pos(data, pos),
                            related.update(
                                j,
                                FileErrorView { code: text_between(line, 14, end->0)->0, ..related[j] },
                            ),
                            j + 1,
                        );
                    }
                }
            } else {
                lemma_codes_advance(data, next_pos(data, pos), related, j);
            }
        }
    }
}

/// Going through the pending errors never moves the position back, and
/// keeps the number of errors.
pub proof fn lemma_mark_advances(
    data: Seq<u8>,
    pos: int,
    errors: Seq<FileErrorView>,
    queue: Seq<usize>,
    k: int,
    code_line: int,
    kept: Seq<usize>,
    pretty: bool,
)
    requires
        pos <= data.len() + 1,
    ensures
        mark(data, pos, errors, queue, k, code_line, kept, pretty) matches Some(r) ==> pos <= r.0
            <= data.len() + 1 && r.1.len() == errors.len(),
    decreases queue.len() - k,
{
    if 0 <= k < queue.len() {
        let idx = queue[k] as int;
        if idx < errors.len() && errors[idx].loc is Some && (errors[idx].loc->0).0 <= code_line {
            let e = errors[idx];
            if pretty {
                lemma_codes_advance(data, pos, e.related, 0);
            } else if has_line(data, pos) {
                lemma_next_pos(data, pos);
                let length = if code_line == (e.loc->0).0 {
                    underline_length(line_content(data, pos), (e.loc->0).1)
                } else {
                    Some(e.length)
                };
                if length is Some {
                    lemma_notes_advance(
                        data,
                        next_pos(data, pos),
                        FileErrorView { length: length->0, ..e },
                        Seq::empty(),
                    );
                }
            }
            match mark_step(data, pos, errors, idx, code_line, pretty) {
                Some(s) => {
                    lemma_mark_advances(
                        data,
                        s.0,
                        s.1,
                        queue,
                        k + 1,
                        code_line,
                        if s.2 {
                            kept
                        } else {
                            kept.push(queue[k])
                        },
                        pretty,
                    );
                },
                None => {},
            }
        }
    }
}

/// The errors after the sections from `pos` on have been read.
pub open spec fn body(data: Seq<u8>, pos: int, st: BodyState, pretty: bool) -> Option<
    Seq<FileErrorView>,
>
    decreases data.len() + 1 - pos,
{
    if has_line(data, pos) {
        let line = line_content(data, pos);
        let next = next_pos(data, pos);
        proof {
            lemma_next_pos(data, pos);
        }
        if is_section(line) {
            match section_name(line) {
                Some(file) => match enter_section(st.errors, file) {
                    Some(st1) => body(data, next, st1, pretty),
                    None => None,
                },
                None => None,
            }
        } else if st.queue.len() == 0 {
            body(data, next, st, pretty)
        } else if st.code_line >= u32::MAX {
            None
        } else {
            match mark(data, next, st.errors, st.queue, 0, st.code_line + 1, Seq::empty(), pretty) {
                Some(r) => {
                    proof {
                        lemma_mark_advances(
                            data,
                            next,
                            st.errors,
                            st.queue,
                            0,
                            st.code_line + 1,
                            Seq::empty(),
                            pretty,
                        );
                    }
                    body(
                        data,
                        r.0,
                        BodyState { errors: r.1, queue: r.2, code_line: st.code_line + 1 },
                        pretty,
                    )
                },
                None => None,
            }
        }
    } else {
        Some(st.errors)
    }
}

/// The first section line from `pos` on: the position behind it and the
/// file it names. Without any section the file has the empty name.
pub open spec fn first_section(data: Seq<u8>, pos: int) -> Option<(int, Seq<char>)>
    decreases data.len() + 1 - pos,
{
    if has_line(data, pos) {
        let line = line_content(data, pos);
        proof {
            lemma_next_pos(data, pos);
        }
        if is_section(line) {
            match section_name(line) {
                Some(file) => Some((next_pos(data, pos), file)),
                None => None,
            }
        } else {
            first_section(data, next_pos(data, pos))
        }
    } else {
        Some((pos, Seq::empty()))
    }
}

/// The errors after all sections, the first of which is looked for from
/// `pos` on.
pub open spec fn sections(data: Seq<u8>, pos: int, errors: Seq<FileErrorView>, pretty: bool) -> Option<
    Seq<FileErrorView>,
> {
    match first_section(data, pos) {
        Some(first) => match enter_section(errors, first.1) {
            Some(st) => body(data, first.0, st, pretty),
            None => None,
        },
        None => None,
    }
}

/// Whether two diagnostics agree in all that the head of the baseline says
/// of them: file, place, code, message and hints.
pub open spec fn same_diagnostic(a: FileErrorView, b: FileErrorView) -> bool {
    a.file == b.file && a.loc == b.loc && a.code == b.code && a.message == b.message && a.hint
        == b.hint
}

/// Whether two sequences of diagnostics agree one by one.
pub open spec fn same_diagnostics(a: Seq<FileErrorView>, b: Seq<FileErrorView>) -> bool {
    a.len() == b.len() && forall|i: int|
        0 <= i < a.len() ==> same_diagnostic(#[trigger] a[i], b[i])
}

/// What follows a source line changes length and related diagnostics of an
/// error, and nothing else.
proof fn lemma_mark_keeps(
    data: Seq<u8>,
    pos: int,
    errors: Seq<FileErrorView>,
    queue: Seq<usize>,
    k: int,
    code_line: int,
    kept: Seq<usize>,
    pretty: bool,
)
    ensures
        mark(data, pos, errors, queue, k, code_line, kept, pretty) matches Some(r)
            ==> same_diagnostics(r.1, errors),
    decreases queue.len() - k,
{
    if 0 <= k < queue.len() {
        let idx = queue[k] as int;
        if idx < errors.len() && errors[idx].loc is Some && (errors[idx].loc->0).0 <= code_line {
            match mark_step(data, pos, errors, idx, code_line, pretty) {
                Some(s) => {
                    assert(same_diagnostics(s.1, errors));
                    lemma_mark_keeps(
                        data,
                        s.0,
                        s.1,
                        queue,
                        k + 1,
                        code_line,
                        if s.2 {
                            kept
                        } else {
                            kept.push(queue[k])
                        },
                        pretty,
                    );
                },
                None => {},
            }
        }
    }
}

/// The sections change lengths and related diagnostics of the errors, and
/// nothing else.
proof fn lemma_body_keeps(data: Seq<u8>, pos: int, st: BodyState, pretty: bool)
    ensures
        body(data, pos, st, pretty) matches Some(r) ==> same_diagnostics(r, st.errors),
    decreases data.len() + 1 - pos,
{
    if has_line(data, pos) {
        let line = line_content(data, pos);
        let next = next_pos(data, pos);
        lemma_next_pos(data, pos);
        if is_section(line) {
            if section_name(line) is Some && enter_section(st.errors, section_name(line)->0)
                is Some {
                lemma_body_keeps(
                    data,
                    next,
                    enter_section(st.errors, section_name(line)->0)->0,
                    pretty,
                );
            }
        } else if st.queue.len() == 0 {
            lemma_body_keeps(data, next, st, pretty);
        } else if st.code_line < u32::MAX {
            lemma_mark_keeps(
                data,
                next,
                st.errors,
                st.queue,
                0,
                st.code_line + 1,
                Seq::empty(),
                pretty,
            );
            lemma_mark_advances(
                data,
                next,
                st.errors,
                st.queue,
                0,
                st.code_line + 1,
                Seq::empty(),
                pretty,
            );
            match mark(data, next, st.errors, st.queue, 0, st.code_line + 1, Seq::empty(), pretty) {
                Some(r) => {
                    lemma_body_keeps(
                        data,
                        r.0,
                        BodyState { errors: r.1, queue: r.2, code_line: st.code_line + 1 },
                        pretty,
                    );
                },
                None => {},
            }
        }
    }
}

/// The sections of a baseline add to the diagnostics of its head, one by
/// one and in their order: they give lengths and related diagnostics, and
/// leave file, place, code, message and hints as they are.
pub proof fn lemma_sections_keep_diagnostics(
    data: Seq<u8>,
    pos: int,
    errors: Seq<FileErrorView>,
    pretty: bool,
)
    ensures
        sections(data, pos, errors, pretty) matches Some(r) ==> same_diagnostics(r, errors),
{
    match first_section(data, pos) {
        Some(first) => match enter_section(errors, first.1) {
            Some(st) => {
                lemma_body_keeps(data, first.0, st, pretty);
            },
            None => {},
        },
        None => {},
    }
}

/// Number of annotations with an `r` in fifth place among the annotations
/// from `pos` on: those that stand for a related diagnostic.
pub open spec fn related_lines(data: Seq<u8>, pos: int) -> nat
    decreases data.len() + 1 - pos,
{
    if byte_at(data, pos) == Some(BANG) {
        let line = line_content(data, pos);
        proof {
            lemma_next_pos(data, pos);
        }
        if line.len() > 4 && line[4] == LOWER_R {
            1 + related_lines(data, next_pos(data, pos))
        } else {
            related_lines(data, next_pos(data, pos))
        }
    } else {
        0
    }
}

/// In a plain baseline every annotation that stands for a related diagnostic
/// adds one.
pub proof fn lemma_notes_count(
    data: Seq<u8>,
    pos: int,
    parent: FileErrorView,
    notes: Seq<FileErrorView>,
)
    ensures
        notes_from(data, pos, parent, notes) matches Some(r) ==> r.1.len() == notes.len()
            + related_lines(data, pos),
    decreases data.len() + 1 - pos,
{
    if byte_at(data, pos) == Some(BANG) {
        lemma_next_pos(data, pos);
        let line = line_content(data, pos);
        if line.len() > 4 {
            if line[4] == LOWER_R {
                if related_of(line, parent) is Some {
                    lemma_notes_count(
                        data,
                        next_pos(data, pos),
                        parent,
                        notes.push(related_of(line, parent)->0),
                    );
                }
            } else {
                lemma_notes_count(data, next_pos(data, pos), parent, notes);
            }
        }
    }
}

/// In a pretty baseline the annotations that stand for related diagnostics
/// are as many as the related diagnostics that the head of the baseline gave
/// to the error; else the baseline is not well-formed.
pub proof fn lemma_codes_count(data: Seq<u8>, pos: int, related: Seq<FileErrorView>, j: int)
    requires
        0 <= j <= related.len(),
    ensures
        codes_from(data, pos, related, j) matches Some(r) ==> related_lines(data, pos)
            == related.len() - j && r.1.len() == related.len(),
    decreases data.len() + 1 - pos,
{
    if byte_at(data, pos) == Some(BANG) {
        lemma_next_pos(data, pos);
        let line = line_content(data, pos);
        if line.len() > 4 {
            if line[4] == LOWER_R {
                if 0 <= j < related.len() && line.len() >= 14 {
                    let end = first_from(line, SPACE, 14);
                    if end is Some && text_between(line, 14, end->0) is Some {
                        lemma_codes_count(
                            data,
                            next_pos(data, pos),
                            related.update(
                                j,
                                FileErrorView {
                                    code: text_between(line, 14, end->0)->0,
                                    ..related[j]
                                },
                            ),
                            j + 1,
                        );
                    }
                }
            } else {
                lemma_codes_count(data, next_pos(data, pos), related, j);
            }
        }
    }
}

/// Whether, going through the pending errors from the `k`-th on, the error
/// at index `i` is done with.
pub open spec fn mark_finishes(
    data: Seq<u8>,
    pos: int,
    errors: Seq<FileErrorView>,
    queue: Seq<usize>,
    k: int,
    code_line: int,
    pretty: bool,
    i: int,
) -> bool
    decreases queue.len() - k,
{
    if 0 <= k < queue.len() {
        let idx = queue[k] as int;
        if idx < errors.len() && errors[idx].loc is Some && (errors[idx].loc->0).0 <= code_line {
            match mark_step(data, pos, errors, idx, code_line, pretty) {
                Some(s) => (s.2 && idx == i) || mark_finishes(
                    data,
                    s.0,
                    s.1,
                    queue,
                    k + 1,
                    code_line,
                    pretty,
                    i,
                ),
                None => false,
            }
        } else {
            false
        }
    } else {
        false
    }
}

/// Whether, somewhere in the sections from `pos` on, the error at index `i`
/// is done with under its own line: the annotations follow the underline of
/// the source line that the error's place names. An error that never is has
/// an underline that spans further lines, or no annotation at all.
pub open spec fn finished_on_own_line(
    data: Seq<u8>,
    pos: int,
    st: BodyState,
    pretty: bool,
    i: int,
) -> bool
    decreases data.len() + 1 - pos,
{
    if has_line(data, pos) {
        let line = line_content(data, pos);
        let next = next_pos(data, pos);
        proof {
            lemma_next_pos(data, pos);
        }
        if is_section(line) {
            match section_name(line) {
                Some(file) => match enter_section(st.errors, file) {
                    Some(st1) => finished_on_own_line(data, next, st1, pretty, i),
                    None => false,
                },
                None => false,
            }
        } else if st.queue.len() == 0 {
            finished_on_own_line(data, next, st, pretty, i)
        } else if st.code_line >= u32::MAX {
            false
        } else {
            match mark(data, next, st.errors, st.queue, 0, st.code_line + 1, Seq::empty(), pretty) {
                Some(r) => {
                    proof {
                        lemma_mark_advances(
                            data,
                            next,
                            st.errors,
                            st.queue,
                            0,
                            st.code_line + 1,
                            Seq::empty(),
                            pretty,
                        );
                    }
                    (0 <= i < st.errors.len() && st.errors[i].loc is Some && (st.errors[i].loc->0).0
                        == st.code_line + 1 && mark_finishes(
                        data,
                        next,
                        st.errors,
                        st.queue,
                        0,
                        st.code_line + 1,
                        pretty,
                        i,
                    )) || finished_on_own_line(
                        data,
                        r.0,
                        BodyState { errors: r.1, queue: r.2, code_line: st.code_line + 1 },
                        pretty,
                        i,
                    )
                },
                None => false,
            }
        }
    } else {
        false
    }
}

/// Going through the pending errors of a plain baseline gives an error that
/// has no length one only where it is done with and the source line is its
/// own.
proof fn lemma_mark_length(
    data: Seq<u8>,
    pos: int,
    errors: Seq<FileErrorView>,
    queue: Seq<usize>,
    k: int,
    code_line: int,
    kept: Seq<usize>,
    i: int,
)
    requires
        0 <= i < errors.len(),
        errors[i].length is None,
        errors[i].loc is Some ==> (errors[i].loc->0).0 != code_line || !mark_finishes(
            data,
            pos,
            errors,
            queue,
            k,
            code_line,
            false,
            i,
        ),
    ensures
        mark(data, pos, errors, queue, k, code_line, kept, false) matches Some(r) ==> r.1.len()
            == errors.len() && r.1[i].length is None && r.1[i].loc == errors[i].loc,
    decreases queue.len() - k,
{
    if 0 <= k < queue.len() {
        let idx = queue[k] as int;
        if idx < errors.len() && errors[idx].loc is Some && (errors[idx].loc->0).0 <= code_line {
            match mark_step(data, pos, errors, idx, code_line, false) {
                Some(s) => {
                    assert(s.1.len() == errors.len());
                    assert(s.1[i].loc == errors[i].loc);
                    assert(s.1[i].length is None);
                    lemma_mark_length(
                        data,
                        s.0,
                        s.1,
                        queue,
                        k + 1,
                        code_line,
                        if s.2 {
                            kept
                        } else {
                            kept.push(queue[k])
                        },
                        i,
                    );
                },
                None => {},
            }
        }
    }
}

/// In the sections of a plain baseline, an error that has no length and is
/// never done with under its own line keeps its place and gets no length.
pub proof fn lemma_body_length(data: Seq<u8>, pos: int, st: BodyState, i: int)
    requires
        0 <= i < st.errors.len(),
        st.errors[i].length is None,
        !finished_on_own_line(data, pos, st, false, i),
    ensures
        body(data, pos, st, false) matches Some(r) ==> r.len() == st.errors.len()
            && r[i].length is None && r[i].loc == st.errors[i].loc,
    decreases data.len() + 1 - pos,
{
    if has_line(data, pos) {
        let line = line_content(data, pos);
        let next = next_pos(data, pos);
        lemma_next_pos(data, pos);
        if is_section(line) {
            if section_name(line) is Some && enter_section(st.errors, section_name(line)->0)
                is Some {
                lemma_body_length(
                    data,
                    next,
                    enter_section(st.errors, section_name(line)->0)->0,
                    i,
                );
            }
        } else if st.queue.len() == 0 {
            lemma_body_length(data, next, st, i);
        } else if st.code_line < u32::MAX {
            lemma_mark_advances(
                data,
                next,
                st.errors,
                st.queue,
                0,
                st.code_line + 1,
                Seq::empty(),
                false,
            );
            match mark(data, next, st.errors, st.queue, 0, st.code_line + 1, Seq::empty(), false) {
                Some(r) => {
                    lemma_mark_length(
                        data,
                        next,
                        st.errors,
                        st.queue,
                        0,
                        st.code_line + 1,
                        Seq::empty(),
                        i,
                    );
                    lemma_body_length(
                        data,
                        r.0,
                        BodyState { errors: r.1, queue: r.2, code_line: st.code_line + 1 },
                        i,
                    );
                },
                None => {},
            }
        }
    }
}

/// Whether, in the sections that are looked for from `pos` on, the error at
/// index `i` is done with under its own line.
pub open spec fn underlined_on_own_line(
    data: Seq<u8>,
    pos: int,
    errors: Seq<FileErrorView>,
    pretty: bool,
    i: int,
) -> bool {
    match first_section(data, pos) {
        Some(first) => match enter_section(errors, first.1) {
            Some(st) => finished_on_own_line(data, first.0, st, pretty, i),
            None => false,
        },
        None => false,
    }
}

/// In a plain baseline, an error that has no length before the sections and
/// is never done with under its own line keeps its place and has no length
/// behind them.
pub proof fn lemma_sections_length(data: Seq<u8>, pos: int, errors: Seq<FileErrorView>, i: int)
    requires
        0 <= i < errors.len(),
        errors[i].length is None,
        !underlined_on_own_line(data, pos, errors, false, i),
    ensures
        sections(data, pos, errors, false) matches Some(r) ==> r.len() == errors.len()
            && r[i].length is None && r[i].loc == errors[i].loc,
{
    match first_section(data, pos) {
        Some(first) => match enter_section(errors, first.1) {
            Some(st) => {
                lemma_body_length(data, first.0, st, i);
            },
            None => {},
        },
        None => {},
    }
}

/// An error that is done with on a line behind its own, because its
/// underline spans several lines, keeps its place and gets no length from
/// the underline.
pub proof fn lemma_multi_line_span(
    data: Seq<u8>,
    pos: int,
    errors: Seq<FileErrorView>,
    idx: int,
    code_line: int,
)
    requires
        0 <= idx < errors.len(),
        errors[idx].loc is Some,
        (errors[idx].loc->0).0 != code_line,
    ensures
        mark_step(data, pos, errors, idx, code_line, false) matches Some(s) ==> s.1[idx].loc
            == errors[idx].loc && s.1[idx].length == errors[idx].length,
{
}

/// An error that is done with on its own line has the length that the
/// underline gives.
pub proof fn lemma_single_line_span(
    data: Seq<u8>,
    pos: int,
    errors: Seq<FileErrorView>,
    idx: int,
    code_line: int,
)
    requires
        0 <= idx < errors.len(),
        errors[idx].loc is Some,
        (errors[idx].loc->0).0 == code_line,
    ensures
        mark_step(data, pos, errors, idx, code_line, false) matches Some(s) ==> s.1[idx].loc
            == errors[idx].loc && (s.2 ==> Some(s.1[idx].length) == underline_length(
            line_content(data, pos),
            (errors[idx].loc->0).1,
        )),
{
}

/// Whether two orders are the same.
fn same_order(a: FileOrder, b: FileOrder) -> (r: bool)
    ensures
        r == (a == b),
{
    match (a, b) {
        (FileOrder::Before, FileOrder::Before) => true,
        (FileOrder::Same, FileOrder::Same) => true,
        (FileOrder::After, FileOrder::After) => true,
        _ => false,
    }
}

/// Reads the file that a section line names.
fn read_section_name<'a>(line: &'a [u8]) -> (r: Option<&'a str>)
    ensures
        match r {
            Some(n) => section_name(line@) == Some(n@),
            None => section_name(line@) is None,
        },
{
    if line.len() < 5 {
        return None;
    }
    let end = find_from(SPACE, line, 5)?;
    let name = slice_subrange(line, 5, end);
    if text(name).is_none() {
        return None;
    }
    if starts_with(name, "./".as_bytes()) && name.len() >= 2 {
        let rest = slice_subrange(name, 2, name.len());
        assert(rest@ =~= name@.skip(2));
        text(rest)
    } else {
        text(name)
    }
}

/// Reads the annotations of an error in a plain baseline.
fn read_notes<'a>(iter: &mut LineIter<'a>, parent: &FileError<'a>) -> (r: Option<
    Vec<FileError<'a>>,
>)
    requires
        old(iter).wf(),
    ensures
        final(iter).wf(),
        final(iter).data == old(iter).data,
        match r {
            Some(notes) => notes_from(old(iter).data@, old(iter).pos(), parent@, Seq::empty())
                == Some((final(iter).pos(), errors_view(notes@))),
            None => notes_from(old(iter).data@, old(iter).pos(), parent@, Seq::empty()) is None,
        },
{
    let ghost data = iter.data@;
    let ghost target = notes_from(data, iter.pos(), parent@, Seq::empty());
    let mut notes: Vec<FileError<'a>> = Vec::new();
    assert(errors_view(notes@) =~= Seq::empty());
    loop
        invariant
            iter.wf(),
            iter.data == old(iter).data,
            data == iter.data@,
            target == notes_from(old(iter).data@, old(iter).pos(), parent@, Seq::empty()),
            notes_from(data, iter.pos(), parent@, errors_view(notes@)) == target,
        decreases data.len() + 1 - iter.pos(),
    {
        if !iter.next_is(BANG) {
            return Some(notes);
        }
        proof {
            lemma_next_pos(data, iter.pos());
        }
        let line = match iter.next() {
            Some((_, _, line)) => line,
            None => {
                return None;
            },
        };
        if line.len() <= 4 {
            return None;
        }
        if line[4] == LOWER_R {
            match FileError::try_parse_related(line, parent) {
                Some(r) => {
                    let ghost before = errors_view(notes@);
                    notes.push(r);
                    assert(errors_view(notes@) =~= before.push(r@));
                },
                None => {
                    return None;
                },
            }
        }
    }
}

/// Reads the annotations of an error in a pretty baseline, which give the
/// codes of its related diagnostics.
fn fill_codes<'a>(iter: &mut LineIter<'a>, related: &mut Vec<FileError<'a>>) -> (ok: bool)
    requires
        old(iter).wf(),
    ensures
        final(iter).wf(),
        final(iter).data == old(iter).data,
        ok ==> codes_from(old(iter).data@, old(iter).pos(), errors_view(old(related)@), 0) == Some(
            (final(iter).pos(), errors_view(final(related)@)),
        ),
        !ok ==> codes_from(old(iter).data@, old(iter).pos(), errors_view(old(related)@), 0) is None,
{
    let ghost data = iter.data@;
    let ghost target = codes_from(data, iter.pos(), errors_view(related@), 0);
    let mut j: usize = 0;
    loop
        invariant
            iter.wf(),
            iter.data == old(iter).data,
            data == iter.data@,
            j <= related@.len(),
            target == codes_from(
                old(iter).data@,
                old(iter).pos(),
                errors_view(old(related)@),
                0,
            ),
            codes_from(data, iter.pos(), errors_view(related@), j as int) == target,
        decreases data.len() + 1 - iter.pos(),
    {
        if !iter.next_is(BANG) {
            return j == related.len();
        }
        proof {
            lemma_next_pos(data, iter.pos());
        }
        let line = match iter.next() {
            Some((_, _, line)) => line,
            None => {
                return false;
            },
        };
        if line.len() <= 4 {
            return false;
        }
        if line[4] == LOWER_R {
            if j >= related.len() || line.len() < 14 {
                return false;
            }
            let end = match find_from(SPACE, line, 14) {
                Some(end) => end,
                None => {
                    return false;
                },
            };
            let code = match read_between(line, 14, end) {
                Some(code) => code,
                None => {
                    return false;
                },
            };
            let ghost before = related@;
            related[j].code = code;
            proof {
                lemma_error_view(before[j as int]);
                lemma_error_view(related@[j as int]);
                assert(errors_view(related@) =~= errors_view(before).update(
                    j as int,
                    FileErrorView { code: code@, ..errors_view(before)[j as int] },
                ));
            }
            j += 1;
        }
    }
}

impl<'a> ErrorsScanner<'a> {
    /// Counts the errors in a row, from index `from` on, whose file stands to
    /// `file` as `order` says.
    fn run_len(&self, file: &str, order: FileOrder, from: usize) -> (n: usize)
        requires
            from <= self.errors@.len(),
        ensures
            n == run_of(errors_view(self.errors@), file@, order, from as int),
            from + n <= self.errors@.len(),
    {
        let ghost v = errors_view(self.errors@);
        let mut i = from;
        let mut going = true;
        while going
            invariant
                from <= i <= self.errors@.len(),
                v == errors_view(self.errors@),
                run_of(v, file@, order, from as int) == (i - from) + run_of(
                    v,
                    file@,
                    order,
                    i as int,
                ),
                !going ==> run_of(v, file@, order, i as int) == 0,
            decreases self.errors@.len() - i + (if going { 1int } else { 0int }),
        {
            if i < self.errors.len() && same_order(order_files(self.errors[i].file, file), order) {
                i += 1;
            } else {
                going = false;
            }
        }
        i - from
    }

    /// Makes the errors of `file` the pending ones.
    fn enter_section(&mut self, file: &str) -> (ok: bool)
        requires
            old(self).iter.wf(),
        ensures
            final(self).iter == old(self).iter,
            final(self).errors == old(self).errors,
            final(self).config_errors == old(self).config_errors,
            ok ==> final(self).wf(),
            ok ==> enter_section(errors_view(old(self).errors@), file@) == Some(
                final(self).body_state(),
            ),
            !ok ==> enter_section(errors_view(old(self).errors@), file@) is None,
    {
        let len = self.errors.len();
        let start = self.run_len(file, FileOrder::Before, 0);
        let same = self.run_len(file, FileOrder::Same, start);
        let end = start + same;
        let after = self.run_len(file, FileOrder::After, end);
        if end + after != self.errors.len() {
            return false;
        }
        let mut queue: Vec<usize> = Vec::new();
        let mut i = start;
        while i < end
            invariant
                start <= i <= end,
                end <= self.errors@.len(),
                queue@ =~= index_range(start as int, i as int),
            decreases end - i,
        {
            queue.push(i);
            i += 1;
        }
        self.queue = queue;
        self.code_line = 0;
        true
    }

    /// Passes the lines before the first section and reads its file name.
    fn first_section(&mut self) -> (r: Option<&'a str>)
        requires
            old(self).iter.wf(),
        ensures
            final(self).iter.wf(),
            final(self).iter.data == old(self).iter.data,
            final(self).errors == old(self).errors,
            final(self).config_errors == old(self).config_errors,
            match r {
                Some(file) => first_section(old(self).iter.data@, old(self).iter.pos()) == Some(
                    (final(self).iter.pos(), file@),
                ),
                None => first_section(old(self).iter.data@, old(self).iter.pos()) is None,
            },
    {
        let ghost data = self.iter.data@;
        let ghost target = first_section(data, self.iter.pos());
        loop
            invariant
                self.iter.wf(),
                self.iter.data == old(self).iter.data,
                data == self.iter.data@,
                self.errors == old(self).errors,
                self.config_errors == old(self).config_errors,
                target == first_section(old(self).iter.data@, old(self).iter.pos()),
                first_section(data, self.iter.pos()) == target,
            decreases data.len() + 1 - self.iter.pos(),
        {
            proof {
                if has_line(data, self.iter.pos()) {
                    lemma_next_pos(data, self.iter.pos());
                }
            }
            match self.iter.next() {
                Some((_, _, line)) => {
                    if line.len() > 0 && line[0] == EQUALS {
                        return read_section_name(line);
                    }
                },
                None => {
                    proof {
                        reveal_strlit("");
                        assert(""@ =~= Seq::<char>::empty());
                    }
                    return Some("");
                },
            }
        }
    }

    /// Reads what follows a source line for one pending error of a plain
    /// baseline; says whether the error is done with.
    fn mark_plain(&mut self, idx: usize, loc: (u32, u32)) -> (r: Option<bool>)
        requires
            old(self).wf(),
            idx < old(self).errors@.len(),
            old(self).errors@[idx as int].loc == Some(loc),
        ensures
            final(self).wf(),
            final(self).iter.data == old(self).iter.data,
            final(self).queue == old(self).queue,
            final(self).code_line == old(self).code_line,
            final(self).config_errors == old(self).config_errors,
            final(self).errors@.len() == old(self).errors@.len(),
            match r {
                Some(done) => mark_step(
                    old(self).iter.data@,
                    old(self).iter.pos(),
                    errors_view(old(self).errors@),
                    idx as int,
                    old(self).code_line as int,
                    false,
                ) == Some((final(self).iter.pos(), errors_view(final(self).errors@), done)),
                None => mark_step(
                    old(self).iter.data@,
                    old(self).iter.pos(),
                    errors_view(old(self).errors@),
                    idx as int,
                    old(self).code_line as int,
                    false,
                ) is None,
            },
    {
        let ghost data = self.iter.data@;
        let ghost before = errors_view(self.errors@);
        proof {
            lemma_error_view(self.errors@[idx as int]);
            if has_line(data, self.iter.pos()) {
                lemma_next_pos(data, self.iter.pos());
            }
        }
        let underline = match self.iter.next() {
            Some((_, _, line)) => line,
            None => {
                return None;
            },
        };
        match self.iter.peek() {
            Some(b) => {
                if b != BANG {
                    return Some(false);
                }
            },
            None => {
                return None;
            },
        }
        if self.code_line == loc.0 {
            let length = read_underline(underline, loc.1)?;
            self.errors[idx].length = length;
        }
        let ghost parent = self.errors@[idx as int];
        proof {
            lemma_error_view(parent);
        }
        let mut notes = read_notes(&mut self.iter, &self.errors[idx])?;
        let ghost added = errors_view(notes@);
        self.errors[idx].related.append(&mut notes);
        proof {
            lemma_error_view(self.errors@[idx as int]);
            assert(errors_view(self.errors@[idx as int].related@) =~= parent@.related + added);
            assert(errors_view(self.errors@) =~= before.update(
                idx as int,
                FileErrorView { related: parent@.related + added, ..parent@ },
            ));
        }
        Some(true)
    }

    /// Reads what follows a source line for one pending error of a pretty
    /// baseline; says whether the error is done with.
    fn mark_pretty(&mut self, idx: usize) -> (r: Option<bool>)
        requires
            old(self).wf(),
            idx < old(self).errors@.len(),
        ensures
            final(self).wf(),
            final(self).iter.data == old(self).iter.data,
            final(self).queue == old(self).queue,
            final(self).code_line == old(self).code_line,
            final(self).config_errors == old(self).config_errors,
            final(self).errors@.len() == old(self).errors@.len(),
            match r {
                Some(done) => mark_step(
                    old(self).iter.data@,
                    old(self).iter.pos(),
                    errors_view(old(self).errors@),
                    idx as int,
                    old(self).code_line as int,
                    true,
                ) == Some((final(self).iter.pos(), errors_view(final(self).errors@), done)),
                None => mark_step(
                    old(self).iter.data@,
                    old(self).iter.pos(),
                    errors_view(old(self).errors@),
                    idx as int,
                    old(self).code_line as int,
                    true,
                ) is None,
            },
    {
        let ghost before = errors_view(self.errors@);
        let ghost e = self.errors@[idx as int];
        proof {
            lemma_error_view(e);
        }
        match self.iter.peek() {
            Some(b) => {
                if b != BANG {
                    return Some(false);
                }
            },
            None => {
                return None;
            },
        }
        if !fill_codes(&mut self.iter, &mut self.errors[idx].related) {
            return None;
        }
        proof {
            lemma_error_view(self.errors@[idx as int]);
            assert(errors_view(self.errors@) =~= before.update(
                idx as int,
                FileErrorView { related: errors_view(self.errors@[idx as int].related@), ..e@ },
            ));
        }
        Some(true)
    }

    /// Goes through the pending errors whose line has been reached.
    fn mark(&mut self, pretty: bool) -> (ok: bool)
        requires
            old(self).wf(),
        ensures
            final(self).wf(),
            final(self).iter.data == old(self).iter.data,
            final(self).code_line == old(self).code_line,
            final(self).config_errors == old(self).config_errors,
            ok ==> mark(
                old(self).iter.data@,
                old(self).iter.pos(),
                errors_view(old(self).errors@),
                old(self).queue@,
                0,
                old(self).code_line as int,
                Seq::empty(),
                pretty,
            ) == Some((final(self).iter.pos(), errors_view(final(self).errors@), final(self).queue@)),
            !ok ==> mark(
                old(self).iter.data@,
                old(self).iter.pos(),
                errors_view(old(self).errors@),
                old(self).queue@,
                0,
                old(self).code_line as int,
                Seq::empty(),
                pretty,
            ) is None,
    {
        let ghost data = self.iter.data@;
        let ghost queue = self.queue@;
        let ghost line = self.code_line as int;
        let ghost target = mark(
            data,
            self.iter.pos(),
            errors_view(self.errors@),
            queue,
            0,
            line,
            Seq::empty(),
            pretty,
        );
        let mut kept: Vec<usize> = Vec::new();
        let mut k: usize = 0;
        let mut going = true;
        while going && k < self.queue.len()
            invariant
                self.wf(),
                self.iter.data == old(self).iter.data,
                data == self.iter.data@,
                self.queue@ == queue,
                self.code_line == line,
                self.code_line == old(self).code_line,
                self.config_errors == old(self).config_errors,
                self.errors@.len() == old(self).errors@.len(),
                k <= queue.len(),
                forall|i: int| 0 <= i < kept@.len() ==> kept@[i] < self.errors@.len(),
                target == mark(
                    old(self).iter.data@,
                    old(self).iter.pos(),
                    errors_view(old(self).errors@),
                    old(self).queue@,
                    0,
                    old(self).code_line as int,
                    Seq::empty(),
                    pretty,
                ),
                going ==> mark(
                    data,
                    self.iter.pos(),
                    errors_view(self.errors@),
                    queue,
                    k as int,
                    line,
                    kept@,
                    pretty,
                ) == target,
                !going ==> k < queue.len() && target == Some(
                    (self.iter.pos(), errors_view(self.errors@), kept@ + queue.skip(k as int)),
                ),
            decreases queue.len() - k + (if going { 1int } else { 0int }),
        {
            let idx = self.queue[k];
            proof {
                lemma_error_view(self.errors@[idx as int]);
            }

            let loc = match self.errors[idx].loc {
                Some(loc) => loc,
                None => {
                    return false;
                },
            };
            if loc.0 > self.code_line {
                going = false;
            } else {
                let step = if pretty {
                    self.mark_pretty(idx)
                } else {
                    self.mark_plain(idx, loc)
                };
                match step {
                    Some(done) => {
                        if !done {
                            kept.push(idx);
                        }
                    },
                    None => {
                        return false;
                    },
                }
                k += 1;
            }
        }
        let ghost kept0 = kept@;
        let ghost k0 = k;
        while k < self.queue.len()
            invariant
                self.queue@ == queue,
                k0 <= k <= queue.len(),
                kept@ =~= kept0 + queue.subrange(k0 as int, k as int),
                forall|i: int| 0 <= i < queue.len() ==> queue[i] < self.errors@.len(),
                forall|i: int| 0 <= i < kept@.len() ==> kept@[i] < self.errors@.len(),
            decreases queue.len() - k,
        {
            kept.push(self.queue[k]);
            k += 1;
        }
        proof {
            assert(queue.subrange(k0 as int, queue.len() as int) =~= queue.skip(k0 as int));
            if going {
                assert(kept0 + queue.skip(k0 as int) =~= kept0);
            }
        }
        self.queue = kept;
        true
    }

    /// Reads the sections up to the end of the data.
    fn body(&mut self, pretty: bool) -> (ok: bool)
        requires
            old(self).wf(),
        ensures
            final(self).config_errors == old(self).config_errors,
            ok ==> body(
                old(self).iter.data@,
                old(self).iter.pos(),
                old(self).body_state(),
                pretty,
            ) == Some(errors_view(final(self).errors@)),
            !ok ==> body(
                old(self).iter.data@,
                old(self).iter.pos(),
                old(self).body_state(),
                pretty,
            ) is None,
    {
        let ghost data = self.iter.data@;
        let ghost target = body(data, self.iter.pos(), self.body_state(), pretty);
        loop
            invariant
                self.wf(),
                data == self.iter.data@,
                self.config_errors == old(self).config_errors,
                self.iter.pos() <= data.len() + 1,
                target == body(
                    old(self).iter.data@,
                    old(self).iter.pos(),
                    old(self).body_state(),
                    pretty,
                ),
                body(data, self.iter.pos(), self.body_state(), pretty) == target,
            decreases data.len() + 1 - self.iter.pos(),
        {
            let ghost pos = self.iter.pos();
            let ghost st = self.body_state();
            proof {
                if has_line(data, pos) {
                    lemma_next_pos(data, pos);
                }
            }
            let line = match self.iter.next() {
                Some((_, _, line)) => line,
                None => {
                    return true;
                },
            };
            if line.len() > 0 && line[0] == EQUALS {
                let file = match read_section_name(line) {
                    Some(file) => file,
                    None => {
                        return false;
                    },
                };
                if !self.enter_section(file) {
                    return false;
                }
            } else if self.queue.len() != 0 {
                if self.code_line == u32::MAX {
                    return false;
                }
                self.code_line = self.code_line + 1;
                proof {
                    lemma_mark_advances(
                        data,
                        self.iter.pos(),
                        st.errors,
                        st.queue,
                        0,
                        st.code_line + 1,
                        Seq::empty(),
                        pretty,
                    );
                }
                if !self.mark(pretty) {
                    return false;
                }
            }
        }
    }

    /// Reads all sections, from the lines before the first one on.
    pub(crate) fn sections(&mut self, pretty: bool) -> (ok: bool)
        requires
            old(self).iter.wf(),
        ensures
            final(self).config_errors == old(self).config_errors,
            ok ==> sections(
                old(self).iter.data@,
                old(self).iter.pos(),
                errors_view(old(self).errors@),
                pretty,
            ) == Some(errors_view(final(self).errors@)),
            !ok ==> sections(
                old(self).iter.data@,
                old(self).iter.pos(),
                errors_view(old(self).errors@),
                pretty,
            ) is None,
    {
        let file = match self.first_section() {
            Some(file) => file,
            None => {
                return false;
            },
        };
        if !self.enter_section(file) {
            return false;
        }
        self.body(pretty)
    }
}

} // verus!

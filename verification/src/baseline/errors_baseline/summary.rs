//! The summary at the head of a plain errors baseline: one line for each
//! diagnostic, each followed by its hints, and two empty lines at the end.

use vstd::prelude::*;
use vstd::string::StringSliceAdditionalSpecFns;
use crate::byte_utils::SPACE;
use crate::scan::{has_prefix, starts_with};
use crate::baseline::line_iter::{line_content, next_pos, has_line, lemma_next_pos};
use crate::baseline::errors_baseline::{
    ConfigError, FileError, ConfigErrorView, FileErrorView, ErrorsView, errors_view,
    config_errors_view, lemma_error_view, ErrorsScanner,
};
use crate::baseline::errors_baseline::diagnostic::{
    hint_of, config_error_of, file_error_of, read_hint,
};

verus! {

/// `st` with one more hint under its last diagnostic: the last one with a
/// file if there is any, else the last one without.
pub open spec fn add_hint(st: ErrorsView, hint: (u8, Seq<char>)) -> Option<ErrorsView> {
    if st.file_errors.len() > 0 {
        let last = st.file_errors.last();
        Some(
            ErrorsView {
                file_errors: st.file_errors.update(
                    st.file_errors.len() - 1,
                    FileErrorView { hint: last.hint.push(hint), ..last },
                ),
                ..st
            },
        )
    } else if st.config_errors.len() > 0 {
        let last = st.config_errors.last();
        Some(
            ErrorsView {
                config_errors: st.config_errors.update(
                    st.config_errors.len() - 1,
                    ConfigErrorView { hint: last.hint.push(hint), ..last },
                ),
                ..st
            },
        )
    } else {
        None
    }
}

/// The summary after one more of its lines, which is not empty. A line that
/// starts with a space is a hint. Diagnostics without a file all come before
/// those with one.
pub open spec fn summary_line(st: ErrorsView, line: Seq<u8>) -> Option<ErrorsView>
    recommends
        line.len() > 0,
{
    if line[0] == SPACE {
        match hint_of(line) {
            Some(hint) => add_hint(st, hint),
            None => None,
        }
    } else if has_prefix(line, "error TS".spec_bytes()) {
        match config_error_of(line) {
            Some(e) => if st.file_errors.len() == 0 {
                Some(ErrorsView { config_errors: st.config_errors.push(e), ..st })
            } else {
                None
            },
            None => None,
        }
    } else {
        match file_error_of(line) {
            Some(e) => Some(ErrorsView { file_errors: st.file_errors.push(e), ..st }),
            None => None,
        }
    }
}

/// The summary that starts at `pos`, and the position behind the two empty
/// lines that end it.
pub open spec fn summary(data: Seq<u8>, pos: int, st: ErrorsView) -> Option<(int, ErrorsView)>
    decreases data.len() + 1 - pos,
{
    if has_line(data, pos) {
        let line = line_content(data, pos);
        let next = next_pos(data, pos);
        proof {
            lemma_next_pos(data, pos);
        }
        if line.len() == 0 {
            if has_line(data, next) && line_content(data, next).len() == 0 {
                Some((next_pos(data, next), st))
            } else {
                None
            }
        } else {
            match summary_line(st, line) {
                Some(st1) => summary(data, next, st1),
                None => None,
            }
        }
    } else {
        Some((pos, st))
    }
}

/// Whether no diagnostic has a length.
pub open spec fn without_lengths(errors: Seq<FileErrorView>) -> bool {
    forall|i: int| 0 <= i < errors.len() ==> (#[trigger] errors[i]).length is None
}

/// The summary gives no diagnostic a length.
pub proof fn lemma_summary_without_lengths(data: Seq<u8>, pos: int, st: ErrorsView)
    requires
        without_lengths(st.file_errors),
    ensures
        summary(data, pos, st) matches Some(r) ==> without_lengths(r.1.file_errors),
    decreases data.len() + 1 - pos,
{
    if has_line(data, pos) {
        let line = line_content(data, pos);
        lemma_next_pos(data, pos);
        if line.len() > 0 {
            match summary_line(st, line) {
                Some(st1) => {
                    assert(without_lengths(st1.file_errors)) by {
                        assert forall|i: int| 0 <= i < st1.file_errors.len() implies (
                        #[trigger] st1.file_errors[i]).length is None by {
                            if i < st.file_errors.len() {
                                assert(st.file_errors[i].length is None);
                            }
                        }
                    }
                    lemma_summary_without_lengths(data, next_pos(data, pos), st1);
                },
                None => {},
            }
        }
    }
}

impl<'a> ErrorsScanner<'a> {
    /// Adds a hint to the last diagnostic.
    fn add_hint(&mut self, hint: (u8, &'a str)) -> (ok: bool)
        ensures
            final(self).iter == old(self).iter,
            final(self).queue == old(self).queue,
            final(self).code_line == old(self).code_line,
            ok ==> add_hint(old(self).summary_state(), (hint.0, hint.1@)) == Some(
                final(self).summary_state(),
            ),
            !ok ==> add_hint(old(self).summary_state(), (hint.0, hint.1@)) is None,
    {
        if self.errors.len() > 0 {
            let last = self.errors.len() - 1;
            self.errors[last].hint.push(hint);
            proof {
                lemma_error_view(old(self).errors@[last as int]);
                lemma_error_view(self.errors@[last as int]);
                let before = errors_view(old(self).errors@);
                assert(self.errors@[last as int]@.hint =~= before[last as int].hint.push(
                    (hint.0, hint.1@),
                ));
                assert(errors_view(self.errors@) =~= before.update(
                    last as int,
                    FileErrorView {
                        hint: before[last as int].hint.push((hint.0, hint.1@)),
                        ..before[last as int]
                    },
                ));
            }
            true
        } else if self.config_errors.len() > 0 {
            let last = self.config_errors.len() - 1;
            self.config_errors[last].hint.push(hint);
            proof {
                let before = config_errors_view(old(self).config_errors@);
                assert(self.config_errors@[last as int]@.hint =~= before[last as int].hint.push(
                    (hint.0, hint.1@),
                ));
                assert(config_errors_view(self.config_errors@) =~= before.update(
                    last as int,
                    ConfigErrorView {
                        hint: before[last as int].hint.push((hint.0, hint.1@)),
                        ..before[last as int]
                    },
                ));
            }
            true
        } else {
            false
        }
    }

    /// Reads one line of the summary.
    fn summary_line(&mut self, line: &'a [u8]) -> (ok: bool)
        requires
            line@.len() > 0,
        ensures
            final(self).iter == old(self).iter,
            final(self).queue == old(self).queue,
            final(self).code_line == old(self).code_line,
            ok ==> summary_line(old(self).summary_state(), line@) == Some(
                final(self).summary_state(),
            ),
            !ok ==> summary_line(old(self).summary_state(), line@) is None,
    {
        if line[0] == SPACE {
            match read_hint(line) {
                Some(hint) => self.add_hint(hint),
                None => false,
            }
        } else if starts_with(line, "error TS".as_bytes()) {
            match ConfigError::try_parse(line) {
                Some(e) => {
                    if self.errors.len() != 0 {
                        return false;
                    }
                    self.config_errors.push(e);
                    assert(config_errors_view(self.config_errors@) =~= config_errors_view(
                        old(self).config_errors@,
                    ).push(e@));
                    true
                },
                None => false,
            }
        } else {
            match FileError::try_parse(line) {
                Some(e) => {
                    self.errors.push(e);
                    assert(errors_view(self.errors@) =~= errors_view(old(self).errors@).push(e@));
                    true
                },
                None => false,
            }
        }
    }

    /// Reads the summary and the two empty lines that end it.
    pub(crate) fn summary(&mut self) -> (ok: bool)
        requires
            old(self).iter.wf(),
        ensures
            final(self).iter.wf(),
            final(self).iter.data == old(self).iter.data,
            final(self).queue == old(self).queue,
            final(self).code_line == old(self).code_line,
            ok ==> summary(old(self).iter.data@, old(self).iter.pos(), old(self).summary_state())
                == Some((final(self).iter.pos(), final(self).summary_state())),
            !ok ==> summary(old(self).iter.data@, old(self).iter.pos(), old(self).summary_state())
                is None,
    {
        let ghost data = self.iter.data@;
        let ghost target = summary(data, self.iter.pos(), self.summary_state());
        loop
            invariant
                self.iter.wf(),
                self.iter.data == old(self).iter.data,
                data == self.iter.data@,
                self.queue == old(self).queue,
                self.code_line == old(self).code_line,
                target == summary(
                    old(self).iter.data@,
                    old(self).iter.pos(),
                    old(self).summary_state(),
                ),
                summary(data, self.iter.pos(), self.summary_state()) == target,
            decreases data.len() + 1 - self.iter.pos(),
        {
            proof {
                if has_line(data, self.iter.pos()) {
                    lemma_next_pos(data, self.iter.pos());
                }
            }
            let line = match self.iter.next() {
                Some((_, _, line)) => line,
                None => {
                    return true;
                },
            };
            if line.len() == 0 {
                return match self.iter.next() {
                    Some((_, _, second)) => second.len() == 0,
                    None => false,
                };
            }
            if !self.summary_line(line) {
                return false;
            }
        }
    }
}

} // verus!

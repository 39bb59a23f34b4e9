//! The errors baseline: the diagnostics that a test unit is expected to
//! produce, as a summary followed by the unit's sources with each diagnostic
//! marked under the line it belongs to.
//!
//! ```text
//! a.ts(2,18): error TS1440: Variable declaration not allowed at this location.
//!
//!
//! ==== a.ts (1 errors) ====
//!     class C {
//!         public const var export foo = 10;
//!                      ~~~
//! !!! error TS1440: Variable declaration not allowed at this location.
//!     }
//! ```
//!
//! A baseline that starts with the escape character is in the "pretty"
//! rendering, where the summary is replaced by colored diagnostics, each with
//! a snippet of its source.

use vstd::prelude::*;
use std::path::Path;
use crate::scan::ESC;
use crate::baseline::line_iter::LineIter;
use crate::baseline::errors_baseline::summary::{summary, lemma_summary_without_lengths};
use crate::baseline::errors_baseline::sections::{
    BodyState, sections, underlined_on_own_line, same_diagnostics, lemma_sections_length,
    lemma_sections_keep_diagnostics,
};
use crate::baseline::errors_baseline::pretty::pretty_errors;

pub mod diagnostic;
pub mod pretty;
pub mod sections;
pub mod summary;

verus! {

/// A diagnostic that belongs to no file, such as one about an option.
#[derive(Debug, PartialEq, Eq)]
pub struct ConfigError<'a> {
    pub code: &'a str,
    pub message: &'a str,
    /// Continuation lines of the message, each with its depth of indentation.
    pub hint: Vec<(u8, &'a str)>,
}

/// A diagnostic in a file.
#[derive(Debug, PartialEq)]
pub struct FileError<'a> {
    pub file: &'a str,
    /// Line and column, counted from 1; absent where the baseline gives none.
    pub loc: Option<(u32, u32)>,
    /// Number of columns that the underline spans; absent where it spans
    /// several lines.
    pub length: Option<u32>,
    pub code: &'a str,
    pub message: &'a str,
    /// Continuation lines of the message, each with its depth of indentation.
    pub hint: Vec<(u8, &'a str)>,
    /// Diagnostics that point to other places to explain this one.
    pub related: Vec<FileError<'a>>,
}

/// A parsed errors baseline.
#[derive(Debug, PartialEq)]
pub struct ErrorsBaseline<'a> {
    pub config_errors: Vec<ConfigError<'a>>,
    pub file_errors: Vec<FileError<'a>>,
}

/// What a diagnostic without a file holds.
pub struct ConfigErrorView {
    pub code: Seq<char>,
    pub message: Seq<char>,
    pub hint: Seq<(u8, Seq<char>)>,
}

/// What a diagnostic in a file holds.
pub struct FileErrorView {
    pub file: Seq<char>,
    pub loc: Option<(u32, u32)>,
    pub length: Option<u32>,
    pub code: Seq<char>,
    pub message: Seq<char>,
    pub hint: Seq<(u8, Seq<char>)>,
    pub related: Seq<FileErrorView>,
}

/// What an errors baseline holds.
pub struct ErrorsView {
    pub config_errors: Seq<ConfigErrorView>,
    pub file_errors: Seq<FileErrorView>,
}

/// The hints that a sequence of depth and text pairs holds.
pub open spec fn hints_view(hint: Seq<(u8, &str)>) -> Seq<(u8, Seq<char>)> {
    hint.map_values(|h: (u8, &str)| (h.0, h.1@))
}

impl<'a> View for ConfigError<'a> {
    type V = ConfigErrorView;

    open spec fn view(&self) -> ConfigErrorView {
        ConfigErrorView { code: self.code@, message: self.message@, hint: hints_view(self.hint@) }
    }
}

/// What a file error holds, related diagnostics included.
pub open spec fn error_view(e: FileError) -> FileErrorView
    decreases e,
{
    FileErrorView {
        file: e.file@,
        loc: e.loc,
        length: e.length,
        code: e.code@,
        message: e.message@,
        hint: hints_view(e.hint@),
        related: Seq::new(
            e.related@.len(),
            |i: int|
                if 0 <= i < e.related@.len() {
                    error_view(e.related@[i])
                } else {
                    arbitrary()
                },
        ),
    }
}

impl<'a> View for FileError<'a> {
    type V = FileErrorView;

    open spec fn view(&self) -> FileErrorView {
        error_view(*self)
    }
}

/// The views of a sequence of file errors.
pub open spec fn errors_view(errors: Seq<FileError>) -> Seq<FileErrorView> {
    errors.map_values(|e: FileError| e@)
}

/// The views of a sequence of config errors.
pub open spec fn config_errors_view(errors: Seq<ConfigError>) -> Seq<ConfigErrorView> {
    errors.map_values(|e: ConfigError| e@)
}

impl<'a> View for ErrorsBaseline<'a> {
    type V = ErrorsView;

    open spec fn view(&self) -> ErrorsView {
        ErrorsView {
            config_errors: config_errors_view(self.config_errors@),
            file_errors: errors_view(self.file_errors@),
        }
    }
}

/// The view of an error, field by field.
pub proof fn lemma_error_view(e: FileError)
    ensures
        e@ == (FileErrorView {
            file: e.file@,
            loc: e.loc,
            length: e.length,
            code: e.code@,
            message: e.message@,
            hint: hints_view(e.hint@),
            related: errors_view(e.related@),
        }),
{
    lemma_related_view(e);
}

/// The related diagnostics of an error are the views of those it holds.
pub proof fn lemma_related_view(e: FileError)
    ensures
        e@.related == errors_view(e.related@),
{
    reveal_with_fuel(error_view, 2);
    let a = e@.related;
    let b = errors_view(e.related@);
    assert(a.len() == b.len());
    assert forall|i: int| 0 <= i < a.len() implies a[i] == b[i] by {
        assert(b[i] == e.related@[i]@);
    }
    assert(a =~= b);
}

impl<'a> Default for ErrorsBaseline<'a> {
    fn default() -> (r: Self)
        ensures
            r@.config_errors.len() == 0,
            r@.file_errors.len() == 0,
    {
        ErrorsBaseline { config_errors: Vec::new(), file_errors: Vec::new() }
    }
}

/// A baseline without diagnostics.
pub open spec fn no_errors() -> ErrorsView {
    ErrorsView { config_errors: Seq::empty(), file_errors: Seq::empty() }
}

/// The baseline that `data` holds in the plain rendering.
pub open spec fn plain_baseline_of(data: Seq<u8>) -> Option<ErrorsView> {
    match summary(data, 0, no_errors()) {
        Some(s) => match sections(data, s.0, s.1.file_errors, false) {
            Some(errors) => Some(
                ErrorsView { config_errors: s.1.config_errors, file_errors: errors },
            ),
            None => None,
        },
        None => None,
    }
}

/// The diagnostics with a file that the summary of a plain baseline gives.
pub open spec fn summary_errors(data: Seq<u8>) -> Seq<FileErrorView> {
    match summary(data, 0, no_errors()) {
        Some(s) => s.1.file_errors,
        None => Seq::empty(),
    }
}

/// Whether the diagnostic at index `i` of a plain baseline is never done
/// with under its own line: where its annotations follow an underline, it is
/// that of a later source line, as with an underline that spans several
/// lines.
pub open spec fn spans_several_lines(data: Seq<u8>, i: int) -> bool {
    match summary(data, 0, no_errors()) {
        Some(s) => !underlined_on_own_line(data, s.0, s.1.file_errors, false, i),
        None => false,
    }
}

/// In a plain baseline, the sections leave file, place, code, message and
/// hints of the diagnostics as the summary gives them, and a diagnostic that
/// is never done with under its own line has no length.
pub proof fn lemma_multi_line_span_has_no_length(data: Seq<u8>, i: int)
    requires
        plain_baseline_of(data) is Some,
        0 <= i < plain_baseline_of(data)->0.file_errors.len(),
    ensures
        same_diagnostics(plain_baseline_of(data)->0.file_errors, summary_errors(data)),
        spans_several_lines(data, i) ==> plain_baseline_of(data)->0.file_errors[i].length
            is None,
{
    let s = summary(data, 0, no_errors())->0;
    lemma_summary_without_lengths(data, 0, no_errors());
    lemma_sections_keep_diagnostics(data, s.0, s.1.file_errors, false);
    if spans_several_lines(data, i) {
        lemma_sections_length(data, s.0, s.1.file_errors, i);
    }
}

/// The baseline that `data` holds in the pretty rendering.
pub open spec fn pretty_baseline_of(data: Seq<u8>) -> Option<ErrorsView> {
    match pretty_errors(data, 0, Seq::empty()) {
        Some(p) => match sections(data, p.0, p.1, true) {
            Some(errors) => Some(ErrorsView { config_errors: Seq::empty(), file_errors: errors }),
            None => None,
        },
        None => None,
    }
}

/// The baseline that `data` holds, or `None` where `data` is no well-formed
/// errors baseline. The rendering is pretty where the first byte is the
/// escape character.
pub open spec fn errors_baseline_of(data: Seq<u8>) -> Option<ErrorsView> {
    if data.len() == 0 {
        None
    } else if data[0] == ESC {
        pretty_baseline_of(data)
    } else {
        plain_baseline_of(data)
    }
}

/// The parser's variables while it goes through the lines.
pub(crate) struct ErrorsScanner<'a> {
    pub(crate) iter: LineIter<'a>,
    pub(crate) config_errors: Vec<ConfigError<'a>>,
    pub(crate) errors: Vec<FileError<'a>>,
    pub(crate) queue: Vec<usize>,
    pub(crate) code_line: u32,
}

impl<'a> ErrorsScanner<'a> {
    /// The scanner's invariant: the cursor is sound and the pending errors exist.
    pub(crate) open spec fn wf(&self) -> bool {
        &&& self.iter.wf()
        &&& forall|k: int| 0 <= k < self.queue@.len() ==> self.queue@[k] < self.errors@.len()
    }

    /// The diagnostics read so far.
    pub(crate) open spec fn summary_state(&self) -> ErrorsView {
        ErrorsView {
            config_errors: config_errors_view(self.config_errors@),
            file_errors: errors_view(self.errors@),
        }
    }

    /// Where the scanner stands in the sections.
    pub(crate) open spec fn body_state(&self) -> BodyState {
        BodyState {
            errors: errors_view(self.errors@),
            queue: self.queue@,
            code_line: self.code_line as int,
        }
    }
}

impl<'a> ErrorsBaseline<'a> {
    /// Parses a baseline in the pretty rendering. The path only says where
    /// the data came from.
    pub fn parse_formatted(path: &Path, data: &'a [u8]) -> (r: Self)
        requires
            pretty_baseline_of(data@) is Some,
        ensures
            pretty_baseline_of(data@) == Some(r@),
    {
        Self::try_parse_formatted(data).unwrap()
    }

    /// Parses a baseline in the pretty rendering, if `data` holds one.
    pub fn try_parse_formatted(data: &'a [u8]) -> (r: Option<Self>)
        ensures
            match r {
                Some(b) => pretty_baseline_of(data@) == Some(b@),
                None => pretty_baseline_of(data@) is None,
            },
    {
        let mut scanner = ErrorsScanner {
            iter: LineIter::new(data),
            config_errors: Vec::new(),
            errors: Vec::new(),
            queue: Vec::new(),
            code_line: 0,
        };
        assert(errors_view(scanner.errors@) =~= Seq::empty());
        if !scanner.pretty_errors() {
            return None;
        }
        if !scanner.sections(true) {
            return None;
        }
        let r = ErrorsBaseline { config_errors: scanner.config_errors, file_errors: scanner.errors };
        assert(r@.config_errors =~= Seq::empty());
        Some(r)
    }

    /// Parses a baseline in either rendering.
    fn scan(data: &'a [u8]) -> (r: Option<Self>)
        ensures
            match r {
                Some(b) => errors_baseline_of(data@) == Some(b@),
                None => errors_baseline_of(data@) is None,
            },
    {
        if data.len() == 0 {
            None
        } else if data[0] == ESC {
            Self::try_parse_formatted(data)
        } else {
            Self::scan_plain(data)
        }
    }

    /// Whether `data` is a well-formed errors baseline.
    pub fn accepts(data: &[u8]) -> (r: bool)
        ensures
            r == (errors_baseline_of(data@) is Some),
    {
        ErrorsBaseline::scan(data).is_some()
    }

    /// Parses the errors baseline in `data`. The path only says where the
    /// data came from.
    pub fn parse(path: &Path, data: &'a [u8]) -> (r: Self)
        requires
            errors_baseline_of(data@) is Some,
        ensures
            errors_baseline_of(data@) == Some(r@),
            data@[0] != ESC ==> same_diagnostics(r@.file_errors, summary_errors(data@)),
            data@[0] != ESC ==> forall|i: int|
                0 <= i < r@.file_errors.len() && #[trigger] spans_several_lines(data@, i)
                    ==> r@.file_errors[i].length is None,
    {
        proof {
            if data@[0] != ESC {
                assert forall|i: int|
                    0 <= i < plain_baseline_of(data@)->0.file_errors.len()
                        && #[trigger] spans_several_lines(
                        data@,
                        i,
                    ) implies plain_baseline_of(data@)->0.file_errors[i].length is None by {
                    lemma_multi_line_span_has_no_length(data@, i);
                }
                if plain_baseline_of(data@)->0.file_errors.len() > 0 {
                    lemma_multi_line_span_has_no_length(data@, 0);
                } else {
                    let s = summary(data@, 0, no_errors())->0;
                    lemma_sections_keep_diagnostics(data@, s.0, s.1.file_errors, false);
                }
            }
        }
        Self::scan(data).unwrap()
    }

    /// Parses the errors baseline in `data` if it is well-formed.
    pub fn try_parse(path: &Path, data: &'a [u8]) -> (r: Option<Self>)
        ensures
            match r {
                Some(b) => errors_baseline_of(data@) == Some(b@),
                None => errors_baseline_of(data@) is None,
            },
    {
        if Self::accepts(data) {
            Some(Self::parse(path, data))
        } else {
            None
        }
    }

    /// Parses a baseline in the plain rendering.
    fn scan_plain(data: &'a [u8]) -> (r: Option<Self>)
        ensures
            match r {
                Some(b) => plain_baseline_of(data@) == Some(b@),
                None => plain_baseline_of(data@) is None,
            },
    {
        let mut scanner = ErrorsScanner {
            iter: LineIter::new(data),
            config_errors: Vec::new(),
            errors: Vec::new(),
            queue: Vec::new(),
            code_line: 0,
        };
        assert(scanner.summary_state().config_errors =~= Seq::empty());
        assert(scanner.summary_state().file_errors =~= Seq::empty());
        if !scanner.summary() {
            return None;
        }
        if !scanner.sections(false) {
            return None;
        }
        Some(ErrorsBaseline { config_errors: scanner.config_errors, file_errors: scanner.errors })
    }
}

} // verus!

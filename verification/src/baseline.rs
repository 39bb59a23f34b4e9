//! Recorded baselines: the expected diagnostics and the expected types of a
//! test unit.

use vstd::prelude::*;
use std::path::Path;
use crate::baseline::errors_baseline::{ErrorsBaseline, ErrorsView, errors_baseline_of};
use crate::baseline::types_baseline::{TypesBaseline, TypesView, types_baseline_of};

pub mod errors_baseline;
pub mod file_order;
pub mod line_iter;
pub mod types_baseline;

verus! {

/// The baselines of one variant of a test unit: its types, and its errors
/// if it has any.
#[derive(Debug, PartialEq)]
pub struct Baseline<'a> {
    pub types: TypesBaseline<'a>,
    pub errors: Option<ErrorsBaseline<'a>>,
}

/// What the baselines of a variant hold.
pub struct BaselineView {
    pub types: TypesView,
    pub errors: Option<ErrorsView>,
}

impl<'a> View for Baseline<'a> {
    type V = BaselineView;

    open spec fn view(&self) -> BaselineView {
        BaselineView {
            types: self.types@,
            errors: match self.errors {
                Some(e) => Some(e@),
                None => None,
            },
        }
    }
}

/// The baselines that the data of a types baseline and, where there is one,
/// of an errors baseline hold; `None` where either is not well-formed.
pub open spec fn baseline_of(types_data: Seq<u8>, errors_data: Option<Seq<u8>>) -> Option<
    BaselineView,
> {
    match types_baseline_of(types_data) {
        Some(types) => match errors_data {
            Some(data) => match errors_baseline_of(data) {
                Some(errors) => Some(BaselineView { types, errors: Some(errors) }),
                None => None,
            },
            None => Some(BaselineView { types, errors: None }),
        },
        None => None,
    }
}

/// The bytes of a slice that may be absent.
pub open spec fn bytes_opt(data: Option<&[u8]>) -> Option<Seq<u8>> {
    match data {
        Some(d) => Some(d@),
        None => None,
    }
}

impl<'a> Baseline<'a> {
    /// Whether the data hold well-formed baselines.
    pub fn accepts(types_data: &[u8], errors_data: Option<&[u8]>) -> (r: bool)
        ensures
            r == (baseline_of(types_data@, bytes_opt(errors_data)) is Some),
    {
        TypesBaseline::accepts(types_data) && match errors_data {
            Some(data) => ErrorsBaseline::accepts(data),
            None => true,
        }
    }

    /// Parses the types baseline and, where there is one, the errors
    /// baseline. The paths only say where the data came from.
    pub fn parse(
        types_path: &Path,
        types_data: &'a [u8],
        errors_path: &Path,
        errors_data: Option<&'a [u8]>,
    ) -> (r: Self)
        requires
            baseline_of(types_data@, bytes_opt(errors_data)) is Some,
        ensures
            baseline_of(types_data@, bytes_opt(errors_data)) == Some(r@),
    {
        Baseline {
            types: TypesBaseline::parse(types_path, types_data),
            errors: match errors_data {
                Some(data) => Some(ErrorsBaseline::parse(errors_path, data)),
                None => None,
            },
        }
    }

    /// Parses the baselines if they are well-formed.
    pub fn try_parse(
        types_path: &Path,
        types_data: &'a [u8],
        errors_path: &Path,
        errors_data: Option<&'a [u8]>,
    ) -> (r: Option<Self>)
        ensures
            match r {
                Some(b) => baseline_of(types_data@, bytes_opt(errors_data)) == Some(b@),
                None => baseline_of(types_data@, bytes_opt(errors_data)) is None,
            },
    {
        if Baseline::accepts(types_data, errors_data) {
            Some(Baseline::parse(types_path, types_data, errors_path, errors_data))
        } else {
            None
        }
    }
}

} // verus!

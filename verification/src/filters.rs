//! The filter chain's stages: each filter is a pure keep/drop predicate over
//! one record, safe to evaluate anywhere since it touches no shared state.

use vstd::prelude::*;
use crate::codec::{json_err, ErrMark, Record};

verus! {

/// One stateless filter stage: a pure predicate deciding whether a record is
/// kept, parameterized only by the filter's own construction-time values.
pub trait Filter {
    /// What this filter keeps, stated over the record's source line.
    spec fn keep_spec(&self, line: Seq<char>) -> bool;

    /// The verdict for one record; true means the record is kept.
    fn keep(&self, rec: &Record) -> (r: bool)
        requires
            rec.wf(),
        ensures
            r == self.keep_spec(rec.src()),
    ;
}

/// The validity filter: drops a record whose error indicator is present and
/// non-null; keeps a record whose indicator is null or absent.
pub struct StatusFilter;

impl Filter for StatusFilter {
    open spec fn keep_spec(&self, line: Seq<char>) -> bool {
        json_err(line) != Some(false)
    }

    fn keep(&self, rec: &Record) -> (r: bool) {
        match rec.err_mark() {
            ErrMark::Present => false,
            ErrMark::Null => true,
            ErrMark::Absent => true,
        }
    }
}

/// A placeholder slot for a minimum-value threshold check: it keeps every
/// record until the withheld domain rule is supplied.
pub struct SpamFilter {
    pub min_lamports: u64,
}

impl Filter for SpamFilter {
    open spec fn keep_spec(&self, line: Seq<char>) -> bool {
        true
    }

    fn keep(&self, rec: &Record) -> (r: bool) {
        true
    }
}

/// A placeholder slot for a payload-encoding check: it keeps every record
/// until the withheld domain rule is supplied.
pub struct Utf8Filter;

impl Filter for Utf8Filter {
    open spec fn keep_spec(&self, line: Seq<char>) -> bool {
        true
    }

    fn keep(&self, rec: &Record) -> (r: bool) {
        true
    }
}

/// One configured stage of the chain. A new filter is added as a variant here,
/// with no change to the chain's evaluation logic.
pub enum FilterKind {
    Status(StatusFilter),
    Spam(SpamFilter),
    Utf8(Utf8Filter),
}

impl Filter for FilterKind {
    open spec fn keep_spec(&self, line: Seq<char>) -> bool {
        match self {
            FilterKind::Status(f) => f.keep_spec(line),
            FilterKind::Spam(f) => f.keep_spec(line),
            FilterKind::Utf8(f) => f.keep_spec(line),
        }
    }

    fn keep(&self, rec: &Record) -> (r: bool) {
        match self {
            FilterKind::Status(f) => f.keep(rec),
            FilterKind::Spam(f) => f.keep(rec),
            FilterKind::Utf8(f) => f.keep(rec),
        }
    }
}

/// Every configured filter keeps the line's record.
pub open spec fn chain_keeps(filters: Seq<FilterKind>, line: Seq<char>) -> bool {
    forall|i: int| 0 <= i < filters.len() ==> (#[trigger] filters[i]).keep_spec(line)
}

} // verus!

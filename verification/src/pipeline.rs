//! The pipeline: composes the filter chain and the deduplication engine into
//! one per-record decision. A record survives only if every stateless filter
//! keeps it and it then wins the uniqueness claim of its identity.

use vstd::prelude::*;
use crate::codec::{json_sig, Record};
use crate::dedup::{claim_admits, claim_next, Deduplicator};
use crate::filters::{chain_keeps, Filter, FilterKind};

verus! {

/// Whether one record survives the whole pipeline against the given state:
/// every stateless filter keeps it and, when a deduplication engine is
/// installed, its claim is admitted.
pub open spec fn pipeline_admits(
    filters: Seq<FilterKind>,
    dedup: Option<Set<Seq<u8>>>,
    line: Seq<char>,
) -> bool {
    &&& chain_keeps(filters, line)
    &&& (match dedup {
        Some(seen) => claim_admits(seen, json_sig(line)),
        None => true,
    })
}

/// The deduplication state after one record went through the pipeline. The
/// claim is made only when every stateless filter kept the record, so records
/// already disqualified by stateless policy never touch the shared state.
pub open spec fn pipeline_next(
    filters: Seq<FilterKind>,
    dedup: Option<Set<Seq<u8>>>,
    line: Seq<char>,
) -> Option<Set<Seq<u8>>> {
    match dedup {
        Some(seen) => if chain_keeps(filters, line) {
            Some(claim_next(seen, json_sig(line)))
        } else {
            Some(seen)
        },
        None => None,
    }
}

/// A record with no identity is never admitted, whatever the filters decide,
/// whenever a deduplication engine is installed.
pub proof fn lemma_missing_identity(filters: Seq<FilterKind>, seen: Set<Seq<u8>>, line: Seq<char>)
    requires
        json_sig(line) is None,
    ensures
        !pipeline_admits(filters, Some(seen), line),
{
}

/// The per-record decision function: an ordered chain of stateless filters and
/// an optional shared deduplication engine.
pub struct Pipeline {
    filters: Vec<FilterKind>,
    deduplicator: Option<Deduplicator>,
}

impl Pipeline {
    /// The configured filter stages, in evaluation order.
    pub closed spec fn filters_view(self) -> Seq<FilterKind> {
        self.filters@
    }

    /// The seen-set of the installed deduplication engine, if one is installed.
    pub closed spec fn dedup_view(self) -> Option<Set<Seq<u8>>> {
        match self.deduplicator {
            Some(d) => Some(d.seen_set()),
            None => None,
        }
    }

    /// An empty pipeline: no filter stages and no deduplication engine.
    pub fn new() -> (r: Self)
        ensures
            r.filters_view() == Seq::<FilterKind>::empty(),
            r.dedup_view() is None,
    {
        Pipeline { filters: Vec::new(), deduplicator: None }
    }

    /// Append one filter stage at the end of the chain.
    pub fn add_filter(self, filter: FilterKind) -> (r: Self)
        ensures
            r.filters_view() == self.filters_view().push(filter),
            r.dedup_view() == self.dedup_view(),
    {
        let mut next = self;
        next.filters.push(filter);
        next
    }

    /// Install the deduplication engine the pipeline claims identities from.
    pub fn with_deduplication(self, dedup: Deduplicator) -> (r: Self)
        ensures
            r.filters_view() == self.filters_view(),
            r.dedup_view() == Some(dedup.seen_set()),
    {
        let mut next = self;
        next.deduplicator = Some(dedup);
        next
    }

    /// The per-record decision: the stateless filters run first, in order,
    /// with a short-circuit at the first drop; only a record they all keep
    /// touches the shared claim. A record is fully admitted or fully dropped;
    /// there is no intermediate state.
    pub fn process(&mut self, rec: &Record) -> (r: bool)
        requires
            rec.wf(),
        ensures
            r == pipeline_admits(old(self).filters_view(), old(self).dedup_view(), rec.src()),
            final(self).filters_view() == old(self).filters_view(),
            final(self).dedup_view() == pipeline_next(
                old(self).filters_view(),
                old(self).dedup_view(),
                rec.src(),
            ),
    {
        let n = self.filters.len();
        let mut i: usize = 0;
        while i < n
            invariant
                n == self.filters.len(),
                0 <= i <= n,
                rec.wf(),
                forall|j: int| 0 <= j < i ==> (#[trigger] self.filters@[j]).keep_spec(rec.src()),
            decreases n - i,
        {
            if !self.filters[i].keep(rec) {
                assert(!chain_keeps(self.filters@, rec.src()));
                return false;
            }
            i += 1;
        }
        assert(chain_keeps(self.filters@, rec.src()));
        match &mut self.deduplicator {
            None => true,
            Some(d) => d.is_unique(rec),
        }
    }
}

} // verus!

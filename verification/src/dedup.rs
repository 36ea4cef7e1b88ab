//! The deduplication engine: a growing set of fixed-size identity digests with
//! a single atomic claim operation. A record is admitted at most once per
//! distinct identity for the lifetime of one run.

use vstd::prelude::*;
use crate::codec::{json_sig, opt_str_view, Record};

verus! {

/// The 256-bit digest of an identity: what sha2's SHA-256 of the identity's
/// UTF-8 bytes returns, which depends on those characters alone.
pub uninterp spec fn digest_of(ident: Seq<char>) -> Seq<u8>;

/// Relies on sha2::Sha256::digest: a pure function of the input bytes.
#[verifier::external_body]
fn sha256_ident(s: &str) -> (r: [u8; 32])
    ensures
        r@ == digest_of(s@),
{
    let out: [u8; 32] = <sha2::Sha256 as sha2::Digest>::digest(s.as_bytes()).into();
    out
}

#[verifier::external_type_specification]
#[verifier::external_body]
#[verifier::reject_recursive_types(K)]
#[verifier::reject_recursive_types(V)]
#[verifier::reject_recursive_types(S)]
pub struct ExDashMap<K, V, S>(dashmap::DashMap<K, V, S>);

/// The set of keys a concurrency-safe marker map holds.
pub uninterp spec fn marks_of(m: dashmap::DashMap<[u8; 32], ()>) -> Set<Seq<u8>>;

/// Relies on dashmap::DashMap::new: a fresh map holds no key.
#[verifier::external_body]
fn new_marks() -> (m: dashmap::DashMap<[u8; 32], ()>)
    ensures
        marks_of(m) == Set::<Seq<u8>>::empty(),
{
    dashmap::DashMap::new()
}

/// Relies on dashmap::DashMap::insert: one indivisible test-and-insert. It
/// returns the previous value under the key, so `None` means this very call
/// inserted the key.
#[verifier::external_body]
fn mark(m: &mut dashmap::DashMap<[u8; 32], ()>, d: [u8; 32]) -> (fresh: bool)
    ensures
        fresh == !marks_of(*old(m)).contains(d@),
        marks_of(*final(m)) == marks_of(*old(m)).insert(d@),
{
    m.insert(d, ()).is_none()
}

/// Whether a claim of the given identity against the given seen-set is
/// admitted: the record must carry an identity, and its digest must not be
/// present yet. A record with no identity is never admissible.
pub open spec fn claim_admits(seen: Set<Seq<u8>>, ident: Option<Seq<char>>) -> bool {
    match ident {
        Some(s) => !seen.contains(digest_of(s)),
        None => false,
    }
}

/// The seen-set after a claim: an admitted claim inserts the identity's
/// digest; a refused claim leaves the set as it was.
pub open spec fn claim_next(seen: Set<Seq<u8>>, ident: Option<Seq<char>>) -> Set<Seq<u8>> {
    match ident {
        Some(s) => seen.insert(digest_of(s)),
        None => seen,
    }
}

/// The seen-set after a whole sequence of claims, made in order.
pub open spec fn claims_fold(seen: Set<Seq<u8>>, idents: Seq<Option<Seq<char>>>) -> Set<Seq<u8>>
    decreases idents.len(),
{
    if idents.len() == 0 {
        seen
    } else {
        claims_fold(claim_next(seen, idents[0]), idents.drop_first())
    }
}

/// Claims only grow the seen-set: a digest that is present stays present
/// through any further sequence of claims.
pub proof fn lemma_claims_monotone(seen: Set<Seq<u8>>, idents: Seq<Option<Seq<char>>>, d: Seq<u8>)
    requires
        seen.contains(d),
    ensures
        claims_fold(seen, idents).contains(d),
    decreases idents.len(),
{
    if idents.len() > 0 {
        lemma_claims_monotone(claim_next(seen, idents[0]), idents.drop_first(), d);
    }
}

/// Idempotent claim: a first claim of an identity is admitted exactly when its
/// digest is not yet present, and after it every later claim of the same
/// identity is refused, whatever other claims come between.
pub proof fn lemma_claim_idempotent(seen: Set<Seq<u8>>, ident: Seq<char>, between: Seq<Option<Seq<char>>>)
    ensures
        claim_admits(seen, Some(ident)) == !seen.contains(digest_of(ident)),
        !claim_admits(claims_fold(claim_next(seen, Some(ident)), between), Some(ident)),
{
    lemma_claims_monotone(claim_next(seen, Some(ident)), between, digest_of(ident));
}

/// The deduplication engine. Its state is the set of digests of every identity
/// admitted so far in this run; the set only grows, and nothing is ever
/// removed from it.
pub struct Deduplicator {
    seen: dashmap::DashMap<[u8; 32], ()>,
}

impl Deduplicator {
    /// The set of identity digests already admitted.
    pub closed spec fn seen_set(self) -> Set<Seq<u8>> {
        marks_of(self.seen)
    }

    /// A fresh engine that has admitted nothing.
    pub fn new() -> (r: Self)
        ensures
            r.seen_set() == Set::<Seq<u8>>::empty(),
    {
        Deduplicator { seen: new_marks() }
    }

    /// The atomic claim: returns true exactly when the record carries an
    /// identity whose digest was not yet in the seen-set, and records that
    /// digest in the same indivisible step — never a separate check followed
    /// by a separate insert.
    pub fn is_unique(&mut self, rec: &Record) -> (r: bool)
        requires
            rec.wf(),
        ensures
            r == claim_admits(old(self).seen_set(), json_sig(rec.src())),
            final(self).seen_set() == claim_next(old(self).seen_set(), json_sig(rec.src())),
    {
        match rec.identity() {
            None => false,
            Some(s) => {
                let d = sha256_ident(s.as_str());
                mark(&mut self.seen, d)
            },
        }
    }
}

} // verus!

//! Bounded-memory record of recently seen vote requests, kept in a cuckoo
//! filter. A lookup never misses a resident request; it may report a request
//! that was never added (a false positive), and an insertion under capacity
//! pressure may push out another resident fingerprint.
use vstd::prelude::*;
use std::collections::hash_map::DefaultHasher;
use cuckoofilter::{CuckooError, CuckooFilter};
use crate::codec::RequestVote;

verus! {

#[verifier::external_type_specification]
#[verifier::external_body]
#[verifier::reject_recursive_types(H)]
pub struct ExCuckooFilter<H>(CuckooFilter<H>);

#[verifier::external_type_specification]
#[verifier::external_body]
pub struct ExCuckooError(CuckooError);

/// The fields of a vote request, in declaration order: what the filter hashes.
pub type DedupKey = (u32, u32, u32, u32);

pub open spec fn dedup_key(m: RequestVote) -> DedupKey {
    (m.term, m.candidate_id, m.last_log_term, m.last_log_index)
}

/// The keys on which the filter's `contains` answers `true`: those whose
/// fingerprint sits in one of their two buckets. The filter hashes with a
/// fixed-key `DefaultHasher`, so this depends on the filter's contents alone.
pub uninterp spec fn filter_residents(f: CuckooFilter<DefaultHasher>) -> Set<DedupKey>;

/// Relies on `CuckooFilter::new`: every bucket starts empty.
#[verifier::external_body]
fn filter_new() -> (r: CuckooFilter<DefaultHasher>)
    ensures
        filter_residents(r) == Set::<DedupKey>::empty(),
{
    CuckooFilter::new()
}

/// Relies on `CuckooFilter::contains`: true exactly when the key's fingerprint
/// is in one of its two buckets.
#[verifier::external_body]
fn filter_contains(f: &CuckooFilter<DefaultHasher>, k: &DedupKey) -> (r: bool)
    ensures
        r == filter_residents(*f).contains(*k),
{
    f.contains(k)
}

/// Relies on `CuckooFilter::add`: on `Ok` the key's fingerprint was placed and
/// every fingerprint it displaced found another slot in its alternate bucket.
/// On `NotEnoughSpace` one fingerprint was dropped at the end of the chain of
/// displacements, which may be any resident one.
#[verifier::external_body]
fn filter_add(f: &mut CuckooFilter<DefaultHasher>, k: &DedupKey) -> (r: Result<(), CuckooError>)
    ensures
        r is Ok ==> filter_residents(*final(f)).contains(*k),
        r is Ok ==> filter_residents(*old(f)).subset_of(filter_residents(*final(f))),
{
    f.add(k)
}

/// How an insertion went.
#[derive(Debug, Clone, Copy, PartialEq, Eq, Structural)]
pub enum AddOutcome {
    /// The request is resident and no other one was pushed out.
    Inserted,
    /// The request was inserted but the filter was full: some resident
    /// fingerprint was dropped.
    EvictedOther,
}

/// What an insertion of `k` guarantees, from the residents `before` to `after`.
pub open spec fn add_effect(before: Set<DedupKey>, k: DedupKey, o: AddOutcome, after: Set<
    DedupKey,
>) -> bool {
    o == AddOutcome::Inserted ==> (after.contains(k) && before.subset_of(after))
}

pub struct DedupFilter {
    inner: CuckooFilter<DefaultHasher>,
}

impl DedupFilter {
    /// The keys that `contains` reports.
    pub closed spec fn residents(&self) -> Set<DedupKey> {
        filter_residents(self.inner)
    }

    /// An empty filter of the default capacity.
    pub fn new() -> (r: DedupFilter)
        ensures
            r.residents() == Set::<DedupKey>::empty(),
    {
        DedupFilter { inner: filter_new() }
    }

    /// Whether `m` may have been seen: always `true` for a resident request.
    pub fn contains(&self, m: &RequestVote) -> (r: bool)
        ensures
            r == self.residents().contains(dedup_key(*m)),
    {
        let k: DedupKey = (m.term, m.candidate_id, m.last_log_term, m.last_log_index);
        filter_contains(&self.inner, &k)
    }

    /// Records `m` as seen.
    pub fn add(&mut self, m: &RequestVote) -> (r: AddOutcome)
        ensures
            add_effect(old(self).residents(), dedup_key(*m), r, final(self).residents()),
    {
        let k: DedupKey = (m.term, m.candidate_id, m.last_log_term, m.last_log_index);
        match filter_add(&mut self.inner, &k) {
            Ok(()) => AddOutcome::Inserted,
            Err(_) => AddOutcome::EvictedOther,
        }
    }
}

/// No false negatives: after a run of insertions that all went without an
/// eviction, every inserted request is still reported, as is every request
/// that was resident before the run.
pub proof fn lemma_no_false_negatives(states: Seq<Set<DedupKey>>, keys: Seq<DedupKey>)
    requires
        states.len() == keys.len() + 1,
        forall|i: int|
            0 <= i < keys.len() ==> add_effect(
                #[trigger] states[i],
                keys[i],
                AddOutcome::Inserted,
                states[i + 1],
            ),
    ensures
        forall|i: int| 0 <= i < keys.len() ==> states.last().contains(#[trigger] keys[i]),
        states[0].subset_of(states.last()),
    decreases keys.len(),
{
    if keys.len() > 0 {
        let n = keys.len() as int;
        let ps = states.drop_last();
        let pk = keys.drop_last();
        assert forall|i: int| 0 <= i < pk.len() implies add_effect(
            #[trigger] ps[i],
            pk[i],
            AddOutcome::Inserted,
            ps[i + 1],
        ) by {
            assert(add_effect(states[i], keys[i], AddOutcome::Inserted, states[i + 1]));
        }
        lemma_no_false_negatives(ps, pk);
        assert(ps.last() == states[n - 1]);
        assert(add_effect(states[n - 1], keys[n - 1], AddOutcome::Inserted, states[n]));
        assert forall|i: int| 0 <= i < keys.len() implies states.last().contains(
            #[trigger] keys[i],
        ) by {
            if i < n - 1 {
                assert(pk[i] == keys[i]);
            }
        }
    }
}

} // verus!

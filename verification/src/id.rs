//! Process-wide unique promise identities, scoped per worker.

use vstd::prelude::*;

verus! {

/// Identity of a promise: the owning worker's token paired with a
/// monotonically increasing local serial. Used exclusively as a registry
/// key; never dereferenced, never inspected for meaning beyond identity.
#[derive(Clone, Copy, PartialEq, Eq, Hash, Debug, Structural)]
pub struct PromiseId {
    pub worker: u64,
    pub local: u64,
}

/// Per-worker identity generator. Each worker owns its own counter, so no
/// cross-worker coordination is needed: identities from different workers
/// differ in the `worker` field, identities from one worker differ in the
/// strictly increasing `local` field.
#[derive(Clone, Copy, PartialEq, Eq, Debug, Structural)]
pub struct IdGen {
    pub worker: u64,
    pub next_local: u64,
}

impl IdGen {
    /// The set of identities this generator has already handed out.
    pub open spec fn issued(self) -> Set<PromiseId> {
        Set::new(|id: PromiseId| id.worker == self.worker && id.local < self.next_local)
    }

    /// One step of identity generation: `g2` is `g1` after handing out `id`.
    pub open spec fn fresh_step(g1: IdGen, g2: IdGen, id: PromiseId) -> bool {
        &&& g1.next_local < u64::MAX
        &&& g2.worker == g1.worker
        &&& g2.next_local == g1.next_local + 1
        &&& id == (PromiseId { worker: g1.worker, local: g1.next_local })
    }

    pub fn new(worker: u64) -> (out: IdGen)
        ensures
            out.worker == worker,
            out.next_local == 0,
            out.issued() == Set::<PromiseId>::empty(),
    {
        let out = IdGen { worker, next_local: 0 };
        proof {
            assert(out.issued() =~= Set::<PromiseId>::empty());
        }
        out
    }

    /// Hand out the next identity. Never returns the same identity twice
    /// for the generator's lifetime.
    pub fn fresh(&mut self) -> (out: PromiseId)
        requires
            old(self).next_local < u64::MAX,
        ensures
            IdGen::fresh_step(*old(self), *final(self), out),
            !old(self).issued().contains(out),
            final(self).issued() == old(self).issued().insert(out),
            out.worker == old(self).worker,
            out.local == old(self).next_local,
    {
        let out = PromiseId { worker: self.worker, local: self.next_local };
        self.next_local = self.next_local + 1;
        proof {
            assert(self.issued() =~= old(self).issued().insert(out));
        }
        out
    }
}

/// Identities handed out by workers with different tokens are distinct,
/// whatever their local serials.
pub proof fn lemma_cross_worker_distinct(a: PromiseId, b: PromiseId)
    requires
        a.worker != b.worker,
    ensures
        a != b,
{
}

/// Along a single worker's generation trace, the counter only grows.
proof fn lemma_trace_monotone(gens: Seq<IdGen>, ids: Seq<PromiseId>, i: int, j: int)
    requires
        gens.len() == ids.len() + 1,
        forall|k: int| 0 <= k < ids.len() ==> IdGen::fresh_step(gens[k], gens[k + 1], ids[k]),
        0 <= i <= j <= ids.len(),
    ensures
        gens[i].next_local <= gens[j].next_local,
    decreases j - i,
{
    if i < j {
        assert(IdGen::fresh_step(gens[j - 1], gens[j], ids[j - 1]));
        lemma_trace_monotone(gens, ids, i, j - 1);
    }
}

/// Uniqueness: for any sequence of identity-generation calls on one worker
/// (each step handing out `ids[k]` and advancing the generator), the
/// identities handed out are pairwise distinct. Together with
/// [`lemma_cross_worker_distinct`] this covers traces interleaved across
/// concurrent workers.
pub proof fn lemma_identity_uniqueness(gens: Seq<IdGen>, ids: Seq<PromiseId>)
    requires
        gens.len() == ids.len() + 1,
        forall|k: int| 0 <= k < ids.len() ==> IdGen::fresh_step(gens[k], gens[k + 1], ids[k]),
    ensures
        forall|i: int, j: int| 0 <= i < j < ids.len() ==> ids[i] != ids[j],
{
    assert forall|i: int, j: int| 0 <= i < j < ids.len() implies ids[i] != ids[j] by {
        assert(IdGen::fresh_step(gens[i], gens[i + 1], ids[i]));
        assert(IdGen::fresh_step(gens[j], gens[j + 1], ids[j]));
        lemma_trace_monotone(gens, ids, i + 1, j);
        assert(ids[i].local < gens[i + 1].next_local);
    }
}

} // verus!

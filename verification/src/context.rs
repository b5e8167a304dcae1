//! The shared execution context: the promise registry, the lifecycle
//! engine, and the journals through which the outside world observes it.
//!
//! The three lifecycle operations — [`promise_register`], [`promise_resolve`],
//! [`promise_discard`] — are the only operations that touch the registry.
//! Within one invocation, every synchronous chain reaction it triggers
//! completes before it returns, leaving the graph consistent: every
//! identity is either absent, or present with exactly its stored resolve
//! continuation.

use vstd::prelude::*;

use crate::id::{IdGen, PromiseId};
use crate::promise::{sibling_ids, DisCont, Promise, PromiseResult, RegCont, ResCont};
use crate::value::{apply_val_fn, clone_val, list_of, StepFn, Val};

verus! {

/// A pending node as stored in the registry: the resolve continuation it
/// waits with, its cleanup, and — for an `all` parent — the slot array
/// collecting sibling results.
#[derive(Debug)]
pub struct Node {
    pub res: Option<ResCont>,
    pub dis: DisCont,
    pub slots: Option<Vec<Option<Val>>>,
}

/// An announcement to an external collaborator, appended to the effect
/// journal. The collaborator addressed by `token` is expected to later
/// resolve (or never touch) the identity.
#[derive(Debug, PartialEq, Eq)]
pub enum Effect {
    /// The node is registered and external work for it should start.
    ExternalStart { token: u64, id: PromiseId },
    /// The node was cancelled; the collaborator should drop its record.
    ExternalCancel { token: u64, id: PromiseId },
}

/// Diagnostics: the only externally observable side channel besides the
/// promise results themselves. None of these is fatal.
#[derive(Debug, PartialEq, Eq)]
pub enum LogEvent {
    /// `resolve` was called for an identity absent from the registry:
    /// already resolved, discarded, or never registered.
    StaleResolve(PromiseId),
    /// `discard` was called for an absent identity; expected during
    /// combinator fan-out.
    StaleDiscard(PromiseId),
    /// An attempt to register an identity that is already pending or
    /// already completed; the node is dropped.
    RejectedRegister(PromiseId),
    /// The identity space of this worker is exhausted; the node that
    /// needed a fresh identity is dropped.
    IdsExhausted,
    /// Protocol violation: an awaited node already carries a resolve
    /// continuation, so two continuations would race to claim the same
    /// downstream identity. The branch is dropped.
    MisconfiguredResolve(PromiseId),
}

/// A deferred resolution: an order to resolve `id` with `result` at the
/// next flush of deferred mutations.
#[derive(Debug, PartialEq, Eq)]
pub struct PromiseCommand {
    pub id: PromiseId,
    pub result: Val,
}

impl PromiseCommand {
    /// Build the order to resolve `id` with `result`.
    pub fn resolve(id: PromiseId, result: Val) -> (out: PromiseCommand)
        ensures
            out == (PromiseCommand { id, result }),
    {
        PromiseCommand { id, result }
    }
}

/// Whether a discard continuation needs no propagation of its own.
pub open spec fn leaf_dis(n: Node) -> bool {
    n.dis is Nothing || n.dis is External
}

/// A register continuation that starts with a synchronous user step.
pub open spec fn is_sync_start(r: RegCont) -> bool {
    match r {
        RegCont::Start { state, step } => step.is_sync(),
        _ => false,
    }
}

/// The captured state of a `Start` register continuation.
pub open spec fn start_state(r: RegCont) -> Val {
    match r {
        RegCont::Start { state, step } => state,
        _ => Val::Unit,
    }
}

/// The user step of a `Start` register continuation.
pub open spec fn start_step(r: RegCont) -> StepFn {
    match r {
        RegCont::Start { state, step } => step,
        _ => StepFn::ResolveWith {
            state_fn: crate::value::ValFn::Ident,
            result_fn: crate::value::ValFn::Ident,
        },
    }
}

/// A register continuation that drives an upstream node.
pub open spec fn is_upstream(r: RegCont) -> bool {
    r matches RegCont::Upstream(u)
}

/// The upstream node of an `Upstream` register continuation.
pub open spec fn upstream_of(r: RegCont) -> Promise {
    match r {
        RegCont::Upstream(u) => *u,
        _ => Promise {
            id: PromiseId { worker: 0, local: 0 },
            reg: RegCont::External { token: 0 },
            dis: DisCont::Nothing,
            res: None,
        },
    }
}

/// The siblings of an `any` fan-out register continuation.
pub open spec fn fan_any_sibs(r: RegCont) -> Seq<Promise> {
    match r {
        RegCont::FanAny(v) => v@,
        _ => Seq::empty(),
    }
}

/// The siblings of an `all` fan-out register continuation.
pub open spec fn fan_all_sibs(r: RegCont) -> Seq<Promise> {
    match r {
        RegCont::FanAll(v) => v@,
        _ => Seq::empty(),
    }
}

/// Siblings a combinator clause can speak about: externally controlled
/// root nodes with fresh, pairwise distinct identities, none of them the
/// parent's.
pub open spec fn external_siblings(sibs: Seq<Promise>, c: Context, parent: PromiseId) -> bool {
    &&& forall|j: int|
        0 <= j < sibs.len() ==> (#[trigger] sibs[j]).reg is External && sibs[j].res is None
            && sibs[j].id.worker == c.gen.worker && sibs[j].id.local < c.gen.next_local
            && !c.pending(sibs[j].id) && !c.delivered(sibs[j].id) && sibs[j].id != parent
    &&& forall|i: int, j: int| 0 <= i < j < sibs.len() ==> sibs[i].id != sibs[j].id
}

/// The first element of a sibling sequence, with a harmless stand-in for
/// an empty one.
pub open spec fn upd_first(sibs: Seq<Promise>) -> Promise {
    if sibs.len() > 0 {
        sibs[0]
    } else {
        Promise {
            id: PromiseId { worker: 0, local: 0 },
            reg: RegCont::External { token: 0 },
            dis: DisCont::Nothing,
            res: None,
        }
    }
}

/// Siblings for the racing clause: the first resolves synchronously
/// during its own registration, the rest are externally controlled, all
/// with fresh, pairwise distinct identities avoiding the parent's.
pub open spec fn sync_winner_siblings(sibs: Seq<Promise>, c: Context, parent: PromiseId) -> bool {
    &&& sibs.len() >= 1
    &&& is_sync_start(sibs[0].reg)
    &&& sibs[0].res is None
    &&& sibs[0].dis is Nothing
    &&& sibs[0].id.worker == c.gen.worker
    &&& sibs[0].id.local < c.gen.next_local
    &&& !c.pending(sibs[0].id)
    &&& !c.delivered(sibs[0].id)
    &&& sibs[0].id != parent
    &&& forall|j: int|
        1 <= j < sibs.len() ==> (#[trigger] sibs[j]).reg is External && sibs[j].res is None
            && sibs[j].id.worker == c.gen.worker && sibs[j].id.local < c.gen.next_local
            && !c.pending(sibs[j].id) && !c.delivered(sibs[j].id) && sibs[j].id != parent
    &&& forall|i: int, j: int| 0 <= i < j < sibs.len() ==> sibs[i].id != sibs[j].id
}

/// A register continuation that starts with an awaiting user step.
pub open spec fn is_await_start(r: RegCont) -> bool {
    match r {
        RegCont::Start { state, step } => step is AwaitExternal,
        _ => false,
    }
}

/// The token of an awaiting `Start` register continuation.
pub open spec fn start_token(r: RegCont) -> u64 {
    match r {
        RegCont::Start { state, step } => match step {
            StepFn::AwaitExternal { token } => token,
            _ => 0,
        },
        _ => 0,
    }
}

/// A stored continuation that runs a synchronous user step.
pub open spec fn is_sync_run(r: Option<ResCont>) -> bool {
    match r {
        Some(ResCont::Run { step, to }) => step.is_sync(),
        _ => false,
    }
}

/// The user step of a stored `Run` continuation.
pub open spec fn run_step(r: Option<ResCont>) -> StepFn {
    match r {
        Some(ResCont::Run { step, to }) => step,
        _ => StepFn::ResolveWith { state_fn: crate::value::ValFn::Ident, result_fn: crate::value::ValFn::Ident },
    }
}

/// The downstream identity of a stored `Run` continuation.
pub open spec fn run_to(r: Option<ResCont>) -> PromiseId {
    match r {
        Some(ResCont::Run { step, to }) => to,
        _ => PromiseId { worker: 0, local: 0 },
    }
}

/// A stored continuation that feeds the pair unchanged downstream.
pub open spec fn is_forward(r: Option<ResCont>) -> bool {
    r matches Some(ResCont::Forward(to))
}

/// The downstream identity of a stored `Forward` continuation.
pub open spec fn forward_to(r: Option<ResCont>) -> PromiseId {
    match r {
        Some(ResCont::Forward(to)) => to,
        _ => PromiseId { worker: 0, local: 0 },
    }
}

/// A stored continuation transforming the state only.
pub open spec fn is_map_state(r: Option<ResCont>) -> bool {
    r matches Some(ResCont::MapState { f, to })
}

/// The pure function of a stored `MapState` continuation.
pub open spec fn map_state_f(r: Option<ResCont>) -> crate::value::ValFn {
    match r {
        Some(ResCont::MapState { f, to }) => f,
        _ => crate::value::ValFn::Ident,
    }
}

/// The downstream identity of a stored `MapState` continuation.
pub open spec fn map_state_to(r: Option<ResCont>) -> PromiseId {
    match r {
        Some(ResCont::MapState { f, to }) => to,
        _ => PromiseId { worker: 0, local: 0 },
    }
}

/// A stored continuation transforming the result only.
pub open spec fn is_map_result(r: Option<ResCont>) -> bool {
    r matches Some(ResCont::MapResult { f, to })
}

/// The pure function of a stored `MapResult` continuation.
pub open spec fn map_result_f(r: Option<ResCont>) -> crate::value::ValFn {
    match r {
        Some(ResCont::MapResult { f, to }) => f,
        _ => crate::value::ValFn::Ident,
    }
}

/// The downstream identity of a stored `MapResult` continuation.
pub open spec fn map_result_to(r: Option<ResCont>) -> PromiseId {
    match r {
        Some(ResCont::MapResult { f, to }) => to,
        _ => PromiseId { worker: 0, local: 0 },
    }
}

/// A stored continuation that runs an awaiting user step.
pub open spec fn is_await_run(r: Option<ResCont>) -> bool {
    match r {
        Some(ResCont::Run { step, to }) => step is AwaitExternal,
        _ => false,
    }
}

/// The token of a stored awaiting `Run` continuation.
pub open spec fn await_token(r: Option<ResCont>) -> u64 {
    match r {
        Some(ResCont::Run { step, to }) => match step {
            StepFn::AwaitExternal { token } => token,
            _ => 0,
        },
        _ => 0,
    }
}

/// A stored continuation racing for an `any` parent.
pub open spec fn is_any_arm(r: Option<ResCont>) -> bool {
    r matches Some(ResCont::AnyArm { parent, siblings, index })
}

/// The parent of a stored `any` arm.
pub open spec fn any_parent(r: Option<ResCont>) -> PromiseId {
    match r {
        Some(ResCont::AnyArm { parent, siblings, index }) => parent,
        _ => PromiseId { worker: 0, local: 0 },
    }
}

/// The sibling identities of a stored `any` arm.
pub open spec fn any_sibs(r: Option<ResCont>) -> Seq<PromiseId> {
    match r {
        Some(ResCont::AnyArm { parent, siblings, index }) => siblings@,
        _ => Seq::empty(),
    }
}

/// The own index of a stored `any` arm.
pub open spec fn any_index(r: Option<ResCont>) -> int {
    match r {
        Some(ResCont::AnyArm { parent, siblings, index }) => index as int,
        _ => 0,
    }
}

/// A stored continuation filling a slot of an `all` parent.
pub open spec fn is_all_arm(r: Option<ResCont>) -> bool {
    r matches Some(ResCont::AllArm { parent, index })
}

/// The parent of a stored `all` arm.
pub open spec fn all_parent(r: Option<ResCont>) -> PromiseId {
    match r {
        Some(ResCont::AllArm { parent, index }) => parent,
        _ => PromiseId { worker: 0, local: 0 },
    }
}

/// The own index of a stored `all` arm.
pub open spec fn all_index(r: Option<ResCont>) -> int {
    match r {
        Some(ResCont::AllArm { parent, index }) => index as int,
        _ => 0,
    }
}

/// The payload behind a slot, with the unit value for an empty slot.
pub open spec fn opt_val(o: Option<Val>) -> Val {
    match o {
        Some(v) => v,
        None => Val::Unit,
    }
}

/// The slot array of an `all` parent node, as a sequence.
pub open spec fn slots_of(n: Node) -> Seq<Option<Val>> {
    match n.slots {
        Some(v) => v@,
        None => Seq::empty(),
    }
}

/// The payloads an `all` parent delivers once its last slot, at `idx`, is
/// filled with `pair`: every other slot's payload, in index order.
pub open spec fn filled_vals(sl: Seq<Option<Val>>, idx: int, pair: Val) -> Seq<Val> {
    Seq::new(sl.len(), |k: int| if k == idx { pair } else { opt_val(sl[k]) })
}

/// The shared mutable execution context. All registry mutation and all
/// continuation execution happens synchronously inside calls made while
/// holding exclusive access to this value.
pub struct Context {
    /// This worker's identity generator.
    pub gen: IdGen,
    /// The registry: pending identities with their stored nodes.
    pub reg: Vec<(PromiseId, Node)>,
    /// Terminal deliveries: each `(id, state, result)` recorded here fired
    /// a chain's terminal continuation.
    pub journal: Vec<(PromiseId, Val, Val)>,
    /// Announcements to external collaborators, in order.
    pub effects: Vec<Effect>,
    /// Diagnostics, in order.
    pub log: Vec<LogEvent>,
    /// Deferred resolutions awaiting the next flush.
    pub deferred: Vec<PromiseCommand>,
}

impl Context {
    /// Identity `id` is pending: present in the registry.
    pub open spec fn pending(self, id: PromiseId) -> bool {
        exists|k: int| 0 <= k < self.reg@.len() && self.reg@[k].0 == id
    }

    /// The node stored for a pending identity.
    pub open spec fn node_of(self, id: PromiseId) -> Node {
        self.reg@[choose|k: int| 0 <= k < self.reg@.len() && self.reg@[k].0 == id].1
    }

    /// Identity `id` was delivered: a terminal continuation fired for it.
    pub open spec fn delivered(self, id: PromiseId) -> bool {
        exists|k: int| 0 <= k < self.journal@.len() && self.journal@[k].0 == id
    }

    /// Registry identities are pairwise distinct.
    pub open spec fn reg_no_dup(self) -> bool {
        forall|a: int, b: int|
            0 <= a < b < self.reg@.len() ==> self.reg@[a].0 != self.reg@[b].0
    }

    /// Journal identities are pairwise distinct: no identity is delivered
    /// twice.
    pub open spec fn journal_no_dup(self) -> bool {
        forall|a: int, b: int|
            0 <= a < b < self.journal@.len() ==> self.journal@[a].0 != self.journal@[b].0
    }

    /// Every identity the context has seen was issued by its own
    /// generator.
    pub open spec fn ids_bounded(self) -> bool {
        &&& forall|k: int|
            0 <= k < self.reg@.len() ==> (#[trigger] self.reg@[k]).0.worker == self.gen.worker
                && self.reg@[k].0.local < self.gen.next_local
        &&& forall|k: int|
            0 <= k < self.journal@.len() ==> (#[trigger] self.journal@[k]).0.worker
                == self.gen.worker && self.journal@[k].0.local < self.gen.next_local
    }

    /// Well-formedness: distinct pending identities, distinct deliveries,
    /// no identity both pending and delivered, and every identity issued
    /// by this worker's generator.
    pub open spec fn wf(self) -> bool {
        &&& self.reg_no_dup()
        &&& self.journal_no_dup()
        &&& forall|x: PromiseId| self.pending(x) ==> !self.delivered(x)
        &&& self.ids_bounded()
    }

    /// A fresh context for a worker: empty registry, empty journals.
    pub fn new(worker: u64) -> (out: Context)
        ensures
            out.wf(),
            out.gen == (IdGen { worker, next_local: 0 }),
            out.reg@.len() == 0,
            out.journal@.len() == 0,
            out.effects@.len() == 0,
            out.log@.len() == 0,
            out.deferred@.len() == 0,
    {
        Context {
            gen: IdGen::new(worker),
            reg: Vec::new(),
            journal: Vec::new(),
            effects: Vec::new(),
            log: Vec::new(),
            deferred: Vec::new(),
        }
    }

    /// Scan the registry for an identity.
    fn find_index(&self, id: PromiseId) -> (out: Option<usize>)
        ensures
            match out {
                Some(i) => i < self.reg@.len() && self.reg@[i as int].0 == id,
                None => !self.pending(id),
            },
    {
        let mut i: usize = 0;
        while i < self.reg.len()
            invariant
                i <= self.reg@.len(),
                forall|k: int| 0 <= k < i ==> self.reg@[k].0 != id,
            decreases self.reg@.len() - i,
        {
            if self.reg[i].0 == id {
                return Some(i);
            }
            i = i + 1;
        }
        None
    }

    /// Guarded insertion: a node enters the registry only under an
    /// identity this worker issued that is neither pending nor already
    /// delivered. A violation is logged and the node dropped.
    fn insert_node(&mut self, id: PromiseId, node: Node) -> (ok: bool)
        requires
            old(self).wf(),
        ensures
            final(self).wf(),
            final(self).gen == old(self).gen,
            final(self).journal == old(self).journal,
            final(self).effects == old(self).effects,
            final(self).deferred == old(self).deferred,
            ok ==> final(self).reg@ == old(self).reg@.push((id, node))
                && final(self).log == old(self).log
                && !old(self).pending(id) && !old(self).delivered(id),
            !ok ==> final(self).reg == old(self).reg
                && final(self).log@ == old(self).log@.push(LogEvent::RejectedRegister(id)),
            ok == (id.worker == old(self).gen.worker && id.local < old(self).gen.next_local
                && !old(self).pending(id) && !old(self).delivered(id)),
            forall|x: PromiseId| final(self).pending(x) <==> (old(self).pending(x) || (ok && x
                == id)),
            forall|x: PromiseId| old(self).pending(x) ==> final(self).node_of(x) == old(
                self,
            ).node_of(x),
            ok ==> final(self).node_of(id) == node,
    {
        let in_range = id.worker == self.gen.worker && id.local < self.gen.next_local;
        let is_pending = self.find_index(id).is_some();
        let is_done = self.find_journal(id);
        if in_range && !is_pending && !is_done {
            let ghost r0 = self.reg@;
            self.reg.push((id, node));
            proof {
                assert(self.reg@ == r0.push((id, node)));
                assert forall|k: int| 0 <= k < r0.len() implies self.reg@[k] == r0[k] by {}
                assert(self.reg_no_dup());
                assert forall|x: PromiseId| self.pending(x) implies (old(self).pending(x) || x
                    == id) by {
                    let k = choose|k: int| 0 <= k < self.reg@.len() && self.reg@[k].0 == x;
                    if k < r0.len() {
                        assert(r0[k].0 == x);
                    }
                }
                assert forall|x: PromiseId| old(self).pending(x) implies self.pending(x)
                    && self.node_of(x) == old(self).node_of(x) by {
                    let k0 = choose|k0: int| 0 <= k0 < r0.len() && r0[k0].0 == x;
                    assert(old(self).node_of(x) == r0[k0].1);
                    assert(self.reg@[k0].0 == x);
                    lemma_node_of(*self, x, k0);
                }
                lemma_node_of(*self, id, r0.len() as int);
                assert forall|x: PromiseId| self.pending(x) implies !self.delivered(x) by {
                    if x != id {
                        assert(old(self).pending(x));
                        assert(!old(self).delivered(x));
                    } else {
                        assert(!old(self).delivered(x));
                    }
                }
            }
            true
        } else {
            self.log.push(LogEvent::RejectedRegister(id));
            proof {
                lemma_wf_same_core(*old(self), *self);
            }
            false
        }
    }

    /// Scan the delivery journal for an identity.
    fn find_journal(&self, id: PromiseId) -> (out: bool)
        ensures
            out == self.delivered(id),
    {
        let mut i: usize = 0;
        while i < self.journal.len()
            invariant
                i <= self.journal@.len(),
                forall|k: int| 0 <= k < i ==> self.journal@[k].0 != id,
            decreases self.journal@.len() - i,
        {
            if self.journal[i].0 == id {
                return true;
            }
            i = i + 1;
        }
        false
    }
}

/// Well-formedness depends only on the registry, the delivery journal and
/// the generator.
proof fn lemma_wf_same_core(c0: Context, c1: Context)
    requires
        c0.wf(),
        c1.reg == c0.reg,
        c1.journal == c0.journal,
        c1.gen == c0.gen,
    ensures
        c1.wf(),
        forall|x: PromiseId| c1.pending(x) <==> c0.pending(x),
        forall|x: PromiseId| c1.pending(x) ==> c1.node_of(x) == c0.node_of(x),
        forall|x: PromiseId| c1.delivered(x) <==> c0.delivered(x),
{
    assert forall|x: PromiseId| c1.pending(x) implies !c1.delivered(x) by {
        assert(c0.pending(x));
        assert(!c0.delivered(x));
    }
    assert forall|x: PromiseId| c1.pending(x) <==> c0.pending(x) by {}
    assert forall|x: PromiseId| c1.pending(x) implies c1.node_of(x) == c0.node_of(x) by {}
}

/// With distinct registry identities, the stored node is the one at any
/// index where the identity sits.
proof fn lemma_node_of(ctx: Context, id: PromiseId, i: int)
    requires
        ctx.reg_no_dup(),
        0 <= i < ctx.reg@.len(),
        ctx.reg@[i].0 == id,
    ensures
        ctx.pending(id),
        ctx.node_of(id) == ctx.reg@[i].1,
{
    let k = choose|k: int| 0 <= k < ctx.reg@.len() && ctx.reg@[k].0 == id;
    if k != i {
        assert(false);
    }
}

/// Discard: extract and run the node's discard continuation, removing the
/// identity from the registry; cancellation propagates strictly
/// downstream. Discarding an absent identity is a logged no-op.
#[verifier::loop_isolation(false)]
pub fn promise_discard(ctx: &mut Context, id: PromiseId)
    requires
        old(ctx).wf(),
    ensures
        final(ctx).wf(),
        final(ctx).gen == old(ctx).gen,
        final(ctx).journal == old(ctx).journal,
        final(ctx).deferred == old(ctx).deferred,
        old(ctx).effects@.is_prefix_of(final(ctx).effects@),
        old(ctx).log@.is_prefix_of(final(ctx).log@),
        !final(ctx).pending(id),
        final(ctx).reg@.len() <= old(ctx).reg@.len(),
        forall|x: PromiseId|
            final(ctx).pending(x) ==> old(ctx).pending(x)
                && final(ctx).node_of(x) == old(ctx).node_of(x),
        !old(ctx).pending(id) ==> final(ctx).reg == old(ctx).reg
            && final(ctx).effects == old(ctx).effects
            && final(ctx).log@ == old(ctx).log@.push(LogEvent::StaleDiscard(id)),
        (old(ctx).pending(id) && leaf_dis(old(ctx).node_of(id))) ==> (forall|x: PromiseId|
            final(ctx).pending(x) <==> (old(ctx).pending(x) && x != id)),
        (old(ctx).pending(id) && old(ctx).node_of(id).dis is Downstream
            && (old(ctx).pending(old(ctx).node_of(id).dis->Downstream_0)
                ==> leaf_dis(old(ctx).node_of(old(ctx).node_of(id).dis->Downstream_0))))
            ==> (forall|x: PromiseId|
                final(ctx).pending(x) <==> (old(ctx).pending(x) && x != id
                    && x != old(ctx).node_of(id).dis->Downstream_0)),
        (old(ctx).pending(id) && old(ctx).node_of(id).dis is External) ==> final(ctx).effects@
            == old(ctx).effects@.push(
            Effect::ExternalCancel {
                token: old(ctx).node_of(id).dis->External_token,
                id: old(ctx).node_of(id).dis->External_id,
            },
        ),
        (old(ctx).pending(id) && old(ctx).node_of(id).dis is FanOut) ==> (forall|j: int|
            0 <= j < old(ctx).node_of(id).dis->FanOut_0@.len()
                ==> !final(ctx).pending(old(ctx).node_of(id).dis->FanOut_0@[j])),
    decreases old(ctx).reg@.len(),
{
    let found = ctx.find_index(id);
    match found {
        None => {
            ctx.log.push(LogEvent::StaleDiscard(id));
            proof {
                lemma_wf_same_core(*old(ctx), *ctx);
            }
        },
        Some(i) => {
            proof {
                lemma_node_of(*ctx, id, i as int);
            }
            let (_gone, node) = ctx.reg.remove(i);
            proof {
                lemma_reg_remove(*old(ctx), *ctx, i as int);
            }
            match node.dis {
                DisCont::Nothing => {},
                DisCont::External { token, id: tid } => {
                    let ghost mid = *ctx;
                    ctx.effects.push(Effect::ExternalCancel { token, id: tid });
                    proof {
                        lemma_wf_same_core(mid, *ctx);
                    }
                },
                DisCont::Downstream(t) => {
                    promise_discard(ctx, t);
                },
                DisCont::FanOut(ids) => {
                    let ghost mid = *ctx;
                    let mut k: usize = 0;
                    while k < ids.len()
                        invariant
                            mid.wf(),
                            ctx.wf(),
                            ctx.gen == mid.gen,
                            ctx.journal == mid.journal,
                            ctx.deferred == mid.deferred,
                            mid.effects@.is_prefix_of(ctx.effects@),
                            mid.log@.is_prefix_of(ctx.log@),
                            ctx.reg@.len() <= mid.reg@.len(),
                            forall|x: PromiseId| ctx.pending(x) ==> mid.pending(x)
                                && ctx.node_of(x) == mid.node_of(x),
                            forall|j: int| 0 <= j < k ==> !ctx.pending(ids@[j]),
                        decreases ids.len() - k,
                    {
                        promise_discard(ctx, ids[k]);
                        k = k + 1;
                    }
                },
            }
        },
    }
}

/// Removing one registry entry: distinctness is kept, the removed
/// identity is no longer pending, and every other entry is untouched.
proof fn lemma_reg_remove(c0: Context, c1: Context, i: int)
    requires
        c0.wf(),
        0 <= i < c0.reg@.len(),
        c1.reg@ == c0.reg@.remove(i),
        c1.journal == c0.journal,
        c1.gen == c0.gen,
    ensures
        c1.wf(),
        !c1.pending(c0.reg@[i].0),
        c1.reg@.len() == c0.reg@.len() - 1,
        forall|x: PromiseId| c1.pending(x) <==> (c0.pending(x) && x != c0.reg@[i].0),
        forall|x: PromiseId| c1.pending(x) ==> c1.node_of(x) == c0.node_of(x),
{
    let id = c0.reg@[i].0;
    assert forall|k: int| 0 <= k < c1.reg@.len() implies c1.reg@[k] == (if k < i {
        c0.reg@[k]
    } else {
        c0.reg@[k + 1]
    }) by {
        assert(c1.reg@[k] == c0.reg@.remove(i)[k]);
    }
    assert forall|x: PromiseId| c1.pending(x) implies (c0.pending(x) && x != id) by {
        let k = choose|k: int| 0 <= k < c1.reg@.len() && c1.reg@[k].0 == x;
        if k < i {
            assert(c0.reg@[k].0 == x);
        } else {
            assert(c0.reg@[k + 1].0 == x);
        }
    }
    assert forall|x: PromiseId| c0.pending(x) && x != id implies c1.pending(x) by {
        let k = choose|k: int| 0 <= k < c0.reg@.len() && c0.reg@[k].0 == x;
        if k < i {
            assert(c1.reg@[k].0 == x);
        } else {
            assert(k > i);
            assert(c1.reg@[k - 1].0 == x);
        }
    }
    assert forall|x: PromiseId| c1.pending(x) implies c1.node_of(x) == c0.node_of(x) by {
        let k = choose|k: int| 0 <= k < c1.reg@.len() && c1.reg@[k].0 == x;
        lemma_node_of(c1, x, k);
        if k < i {
            lemma_node_of(c0, x, k);
        } else {
            lemma_node_of(c0, x, k + 1);
        }
    }
    assert forall|x: PromiseId| c1.pending(x) implies !c1.delivered(x) by {
        assert(c0.pending(x));
    }
}

/// Recording a terminal delivery keeps the context well-formed, provided
/// the delivered identity is neither pending nor already delivered.
proof fn lemma_journal_push(c0: Context, c1: Context, id: PromiseId, s: Val, r: Val)
    requires
        c0.wf(),
        !c0.pending(id),
        !c0.delivered(id),
        id.worker == c0.gen.worker,
        id.local < c0.gen.next_local,
        c1.journal@ == c0.journal@.push((id, s, r)),
        c1.reg == c0.reg,
        c1.gen == c0.gen,
    ensures
        c1.wf(),
        forall|x: PromiseId| c1.pending(x) <==> c0.pending(x),
{
    assert forall|a: int, b: int| 0 <= a < b < c1.journal@.len() implies c1.journal@[a].0
        != c1.journal@[b].0 by {
        if b == c1.journal@.len() - 1 {
            if c1.journal@[a].0 == id {
                assert(c0.delivered(id));
            }
        }
    }
    assert forall|x: PromiseId| c1.pending(x) implies !c1.delivered(x) by {
        assert(c0.pending(x));
        assert(!c0.delivered(x));
        assert(x != id);
        if c1.delivered(x) {
            let k = choose|k: int| 0 <= k < c1.journal@.len() && c1.journal@[k].0 == x;
            assert(k < c0.journal@.len());
            assert(c0.journal@[k].0 == x);
        }
    }
}

/// Spawn a fresh externally controlled node whose resolution forwards to
/// `to`, announcing it under `token`. If the identity space is exhausted,
/// the branch is dropped with a diagnostic.
fn spawn_external(ctx: &mut Context, token: u64, to: PromiseId)
    requires
        old(ctx).wf(),
    ensures
        final(ctx).wf(),
        final(ctx).gen.worker == old(ctx).gen.worker,
        old(ctx).gen.next_local <= final(ctx).gen.next_local,
        final(ctx).journal == old(ctx).journal,
        old(ctx).effects@.is_prefix_of(final(ctx).effects@),
        old(ctx).log@.is_prefix_of(final(ctx).log@),
        final(ctx).deferred == old(ctx).deferred,
        final(ctx).reg@.len() <= old(ctx).reg@.len() + 1,
        forall|x: PromiseId|
            final(ctx).pending(x) ==> old(ctx).pending(x) || (x.worker == old(ctx).gen.worker
                && x.local >= old(ctx).gen.next_local),
        old(ctx).gen.next_local < u64::MAX ==> ({
            let eid = PromiseId { worker: old(ctx).gen.worker, local: old(ctx).gen.next_local };
            final(ctx).gen.next_local == old(ctx).gen.next_local + 1 && final(ctx).pending(eid)
                && final(ctx).node_of(eid) == (Node {
                res: Some(ResCont::Forward(to)),
                dis: DisCont::External { token, id: eid },
                slots: None,
            }) && final(ctx).effects@ == old(ctx).effects@.push(
                Effect::ExternalStart { token, id: eid },
            ) && (forall|x: PromiseId|
                final(ctx).pending(x) <==> (old(ctx).pending(x) || x == eid)) && (forall|
                x: PromiseId,
            |
                old(ctx).pending(x) ==> final(ctx).node_of(x) == old(ctx).node_of(x))
        }),
{
    if ctx.gen.next_local == u64::MAX {
        ctx.log.push(LogEvent::IdsExhausted);
        proof {
            lemma_wf_same_core(*old(ctx), *ctx);
        }
        return ;
    }
    let eid = ctx.gen.fresh();
    proof {
        assert forall|x: PromiseId| ctx.pending(x) implies !ctx.delivered(x) by {
            assert(old(ctx).pending(x));
            assert(!old(ctx).delivered(x));
        }
        assert(ctx.wf());
        if ctx.pending(eid) {
            let k = choose|k: int| 0 <= k < ctx.reg@.len() && ctx.reg@[k].0 == eid;
            assert(ctx.reg@[k].0.local < old(ctx).gen.next_local);
        }
        if ctx.delivered(eid) {
            let k = choose|k: int| 0 <= k < ctx.journal@.len() && ctx.journal@[k].0 == eid;
            assert(ctx.journal@[k].0.local < old(ctx).gen.next_local);
        }
    }
    let ghost mid = *ctx;
    let _ok = ctx.insert_node(
        eid,
        Node {
            res: Some(ResCont::Forward(to)),
            dis: DisCont::External { token, id: eid },
            slots: None,
        },
    );
    let ghost mid2 = *ctx;
    ctx.effects.push(Effect::ExternalStart { token, id: eid });
    proof {
        lemma_wf_same_core(mid2, *ctx);
    }
}

/// Write one element of a slot array.
fn set_slot(v: &mut Vec<Option<Val>>, i: usize, val: Val)
    requires
        i < old(v)@.len(),
    ensures
        final(v)@ == old(v)@.update(i as int, Some(val)),
{
    let elem = &mut v[i];
    *elem = Some(val);
}

/// Whether every slot of an `all` parent is filled.
fn all_filled(v: &Vec<Option<Val>>) -> (out: bool)
    ensures
        out == (forall|k: int| 0 <= k < v@.len() ==> v@[k] is Some),
{
    let mut i: usize = 0;
    while i < v.len()
        invariant
            i <= v@.len(),
            forall|k: int| 0 <= k < i ==> v@[k] is Some,
        decreases v@.len() - i,
    {
        if v[i].is_none() {
            return false;
        }
        i = i + 1;
    }
    true
}

/// Collect a filled slot array into the ordered list value, in index
/// order. Also hands back, as ghost data, the sequence of collected
/// payloads.
fn collect_slots(v: &Vec<Option<Val>>) -> (out: (Val, Ghost<Seq<Val>>))
    requires
        forall|k: int| 0 <= k < v@.len() ==> v@[k] is Some,
    ensures
        out.1@.len() == v@.len(),
        forall|k: int| 0 <= k < v@.len() ==> v@[k] == Some(out.1@[k]),
        out.0 == list_of(out.1@),
{
    let mut acc = Val::Nil;
    let ghost mut vals = Seq::<Val>::empty();
    proof {
        assert(acc == list_of(vals));
    }
    let mut i: usize = v.len();
    while i > 0
        invariant
            i <= v@.len(),
            forall|k: int| 0 <= k < v@.len() ==> v@[k] is Some,
            vals.len() == v@.len() - i,
            forall|k: int| 0 <= k < vals.len() ==> v@[i + k] == Some(vals[k]),
            acc == list_of(vals),
        decreases i,
    {
        i = i - 1;
        let x = match &v[i] {
            Some(inner) => clone_val(inner),
            None => Val::Unit,
        };
        let ghost prev = vals;
        proof {
            vals = seq![x].add(prev);
            assert(vals.drop_first() =~= prev);
            assert(vals[0] == x);
        }
        acc = Val::Cons(Box::new(x), Box::new(acc));
        proof {
            assert(acc == list_of(vals));
            assert forall|k: int| 0 <= k < vals.len() implies v@[i + k] == Some(vals[k]) by {
                if k > 0 {
                    assert(v@[i + 1 + (k - 1)] == Some(prev[k - 1]));
                }
            }
        }
    }
    (acc, Ghost(vals))
}

/// Resolve: look the identity up, extract its stored resolve
/// continuation, run it with the state and result, and remove the
/// identity. Resolving an unknown identity is a logged no-op.
#[verifier::loop_isolation(false)]
#[verifier::rlimit(60)]
pub fn promise_resolve(ctx: &mut Context, id: PromiseId, state: Val, result: Val)
    requires
        old(ctx).wf(),
    ensures
        final(ctx).wf(),
        final(ctx).gen.worker == old(ctx).gen.worker,
        old(ctx).gen.next_local <= final(ctx).gen.next_local,
        old(ctx).journal@.is_prefix_of(final(ctx).journal@),
        old(ctx).effects@.is_prefix_of(final(ctx).effects@),
        old(ctx).log@.is_prefix_of(final(ctx).log@),
        final(ctx).deferred == old(ctx).deferred,
        final(ctx).reg@.len() <= old(ctx).reg@.len(),
        !final(ctx).pending(id),
        forall|x: PromiseId|
            final(ctx).pending(x) ==> old(ctx).pending(x) || (x.worker == old(ctx).gen.worker
                && x.local >= old(ctx).gen.next_local),
        !old(ctx).pending(id) ==> final(ctx).reg == old(ctx).reg
            && final(ctx).journal == old(ctx).journal
            && final(ctx).effects == old(ctx).effects
            && final(ctx).gen == old(ctx).gen
            && final(ctx).log@ == old(ctx).log@.push(LogEvent::StaleResolve(id)),
        (old(ctx).pending(id) && old(ctx).node_of(id).res is None) ==> final(ctx).journal@
            == old(ctx).journal@.push((id, state, result))
            && (forall|x: PromiseId|
                final(ctx).pending(x) <==> (old(ctx).pending(x) && x != id))
            && final(ctx).effects == old(ctx).effects
            && final(ctx).gen == old(ctx).gen,
        ({
            let nr = old(ctx).node_of(id).res;
            (old(ctx).pending(id) && is_sync_run(nr) && run_to(nr) != id && old(ctx).pending(
                run_to(nr),
            ) && old(ctx).node_of(run_to(nr)).res is None) ==> final(ctx).journal@ == old(
                ctx,
            ).journal@.push(
                (run_to(nr), run_step(nr).sync_state(state), run_step(nr).sync_result(result)),
            ) && (forall|x: PromiseId|
                final(ctx).pending(x) <==> (old(ctx).pending(x) && x != id && x != run_to(nr)))
        }),
        ({
            let nr = old(ctx).node_of(id).res;
            (old(ctx).pending(id) && is_forward(nr) && forward_to(nr) != id && old(ctx).pending(
                forward_to(nr),
            ) && old(ctx).node_of(forward_to(nr)).res is None) ==> final(ctx).journal@ == old(
                ctx,
            ).journal@.push((forward_to(nr), state, result)) && (forall|x: PromiseId|
                final(ctx).pending(x) <==> (old(ctx).pending(x) && x != id && x != forward_to(
                    nr,
                )))
        }),
        ({
            let nr = old(ctx).node_of(id).res;
            (old(ctx).pending(id) && is_map_state(nr) && map_state_to(nr) != id && old(
                ctx,
            ).pending(map_state_to(nr)) && old(ctx).node_of(map_state_to(nr)).res is None)
                ==> final(ctx).journal@ == old(ctx).journal@.push(
                (map_state_to(nr), crate::value::val_fn_apply(map_state_f(nr), state), result),
            ) && (forall|x: PromiseId|
                final(ctx).pending(x) <==> (old(ctx).pending(x) && x != id && x != map_state_to(
                    nr,
                )))
        }),
        ({
            let nr = old(ctx).node_of(id).res;
            (old(ctx).pending(id) && is_map_result(nr) && map_result_to(nr) != id && old(
                ctx,
            ).pending(map_result_to(nr)) && old(ctx).node_of(map_result_to(nr)).res is None)
                ==> final(ctx).journal@ == old(ctx).journal@.push(
                (map_result_to(nr), state, crate::value::val_fn_apply(map_result_f(nr), result)),
            ) && (forall|x: PromiseId|
                final(ctx).pending(x) <==> (old(ctx).pending(x) && x != id
                    && x != map_result_to(nr)))
        }),
        ({
            let nr = old(ctx).node_of(id).res;
            let eid = PromiseId { worker: old(ctx).gen.worker, local: old(ctx).gen.next_local };
            (old(ctx).pending(id) && is_await_run(nr) && old(ctx).gen.next_local < u64::MAX)
                ==> final(ctx).journal == old(ctx).journal && final(ctx).pending(eid)
                && final(ctx).node_of(eid) == (Node {
                res: Some(ResCont::Forward(run_to(nr))),
                dis: DisCont::External { token: await_token(nr), id: eid },
                slots: None,
            }) && final(ctx).effects@ == old(ctx).effects@.push(
                Effect::ExternalStart { token: await_token(nr), id: eid },
            ) && (forall|x: PromiseId|
                final(ctx).pending(x) <==> ((old(ctx).pending(x) && x != id) || x == eid))
        }),
        ({
            let nr = old(ctx).node_of(id).res;
            (old(ctx).pending(id) && is_any_arm(nr) && any_parent(nr) != id && old(
                ctx,
            ).pending(any_parent(nr)) && old(ctx).node_of(any_parent(nr)).res is None && (
            forall|j: int|
                0 <= j < any_sibs(nr).len() && j != any_index(nr) && old(ctx).pending(
                    any_sibs(nr)[j],
                ) && any_sibs(nr)[j] != id ==> any_sibs(nr)[j] != any_parent(nr) && leaf_dis(
                    old(ctx).node_of(any_sibs(nr)[j]),
                ))) ==> final(ctx).journal@ == old(ctx).journal@.push(
                (any_parent(nr), Val::Unit, Val::Pair(Box::new(state), Box::new(result))),
            ) && !final(ctx).pending(any_parent(nr)) && (forall|j: int|
                0 <= j < any_sibs(nr).len() && j != any_index(nr) ==> !final(ctx).pending(
                    any_sibs(nr)[j],
                ))
        }),
        ({
            let nr = old(ctx).node_of(id).res;
            let np = old(ctx).node_of(all_parent(nr));
            let pair = Val::Pair(Box::new(state), Box::new(result));
            (old(ctx).pending(id) && is_all_arm(nr) && all_parent(nr) != id
                && old(ctx).pending(all_parent(nr)) && np.slots is Some
                && 0 <= all_index(nr) < slots_of(np).len() && (exists|k: int|
                0 <= k < slots_of(np).len() && k != all_index(nr) && slots_of(np)[k] is None))
                ==> final(ctx).journal == old(ctx).journal && final(ctx).pending(all_parent(nr))
                && final(ctx).node_of(all_parent(nr)).res == np.res
                && final(ctx).node_of(all_parent(nr)).dis == np.dis
                && final(ctx).node_of(all_parent(nr)).slots is Some
                && slots_of(final(ctx).node_of(all_parent(nr))) == slots_of(np).update(
                all_index(nr),
                Some(pair),
            ) && (forall|x: PromiseId|
                final(ctx).pending(x) <==> (old(ctx).pending(x) && x != id)) && (forall|
                x: PromiseId,
            |
                final(ctx).pending(x) && x != all_parent(nr) ==> final(ctx).node_of(x) == old(
                    ctx,
                ).node_of(x))
        }),
        ({
            let nr = old(ctx).node_of(id).res;
            let np = old(ctx).node_of(all_parent(nr));
            (old(ctx).pending(id) && is_all_arm(nr) && all_parent(nr) != id && old(
                ctx,
            ).pending(all_parent(nr)) && np.res is None && np.slots is Some && 0 <= all_index(
                nr,
            ) < slots_of(np).len() && (forall|k: int|
                0 <= k < slots_of(np).len() && k != all_index(nr) ==> slots_of(np)[k] is Some))
                ==> final(ctx).journal@ == old(ctx).journal@.push(
                (all_parent(nr), Val::Unit, list_of(
                    filled_vals(
                        slots_of(np),
                        all_index(nr),
                        Val::Pair(Box::new(state), Box::new(result)),
                    ),
                )),
            ) && (forall|x: PromiseId|
                final(ctx).pending(x) <==> (old(ctx).pending(x) && x != id && x != all_parent(
                    nr,
                )))
        }),
    decreases old(ctx).reg@.len(), 1int,
{
    let found = ctx.find_index(id);
    match found {
        None => {
            ctx.log.push(LogEvent::StaleResolve(id));
            proof {
                lemma_wf_same_core(*old(ctx), *ctx);
            }
        },
        Some(i) => {
            proof {
                lemma_node_of(*old(ctx), id, i as int);
                assert(old(ctx).reg@[i as int].0.local < old(ctx).gen.next_local);
            }
            let (_gone, node) = ctx.reg.remove(i);
            let ghost mid = *ctx;
            proof {
                lemma_reg_remove(*old(ctx), *ctx, i as int);
            }
            run_node(ctx, id, node, state, result);
            proof {
                let nr = old(ctx).node_of(id).res;
                let np = old(ctx).node_of(all_parent(nr));
                if old(ctx).pending(id) && is_all_arm(nr) && all_parent(nr) != id
                    && old(ctx).pending(all_parent(nr)) && np.slots is Some
                    && 0 <= all_index(nr) < slots_of(np).len() && (exists|k: int|
                    0 <= k < slots_of(np).len() && k != all_index(nr) && slots_of(
                        np,
                    )[k] is None) {
                    assert(node.res == nr);
                    assert(mid.pending(all_parent(nr)));
                    assert(mid.node_of(all_parent(nr)) == np);
                    let k = choose|k: int|
                        0 <= k < slots_of(np).len() && k != all_index(nr) && slots_of(
                            np,
                        )[k] is None;
                    assert(slots_of(mid.node_of(all_parent(node.res)))[k] is None);
                    assert(ctx.node_of(all_parent(nr)).slots is Some);
                    assert(slots_of(ctx.node_of(all_parent(nr))) == slots_of(np).update(
                        all_index(nr),
                        Some(Val::Pair(Box::new(state), Box::new(result))),
                    ));
                    assert forall|x: PromiseId|
                        ctx.pending(x) && x != all_parent(nr) implies ctx.node_of(x) == old(
                        ctx,
                    ).node_of(x) by {
                        assert(mid.pending(x));
                        assert(ctx.node_of(x) == mid.node_of(x));
                        assert(mid.node_of(x) == old(ctx).node_of(x));
                    }
                }
            }
        },
    }
}

/// Run an already extracted node's resolve continuation for its identity.
/// The identity has just been removed from the registry; every synchronous
/// chain reaction completes before this returns.
#[verifier::loop_isolation(false)]
fn run_node(ctx: &mut Context, id: PromiseId, node: Node, state: Val, result: Val)
    requires
        old(ctx).wf(),
        !old(ctx).pending(id),
        !old(ctx).delivered(id),
        id.worker == old(ctx).gen.worker,
        id.local < old(ctx).gen.next_local,
    ensures
        final(ctx).wf(),
        final(ctx).gen.worker == old(ctx).gen.worker,
        old(ctx).gen.next_local <= final(ctx).gen.next_local,
        old(ctx).journal@.is_prefix_of(final(ctx).journal@),
        old(ctx).effects@.is_prefix_of(final(ctx).effects@),
        old(ctx).log@.is_prefix_of(final(ctx).log@),
        final(ctx).deferred == old(ctx).deferred,
        final(ctx).reg@.len() <= old(ctx).reg@.len() + 1,
        !final(ctx).pending(id),
        forall|x: PromiseId|
            final(ctx).pending(x) ==> old(ctx).pending(x) || (x.worker == old(ctx).gen.worker
                && x.local >= old(ctx).gen.next_local),
        node.res is None ==> final(ctx).journal@ == old(ctx).journal@.push((id, state, result))
            && final(ctx).reg == old(ctx).reg
            && final(ctx).effects == old(ctx).effects
            && final(ctx).gen == old(ctx).gen,
        (is_sync_run(node.res) && old(ctx).pending(run_to(node.res))
            && old(ctx).node_of(run_to(node.res)).res is None) ==> final(ctx).journal@
            == old(ctx).journal@.push(
            (run_to(node.res), run_step(node.res).sync_state(state),
            run_step(node.res).sync_result(result)),
        ) && (forall|x: PromiseId|
            final(ctx).pending(x) <==> (old(ctx).pending(x) && x != run_to(node.res))),
        (is_forward(node.res) && old(ctx).pending(forward_to(node.res))
            && old(ctx).node_of(forward_to(node.res)).res is None) ==> final(ctx).journal@
            == old(ctx).journal@.push((forward_to(node.res), state, result)) && (forall|
            x: PromiseId,
        |
            final(ctx).pending(x) <==> (old(ctx).pending(x) && x != forward_to(node.res))),
        (is_map_state(node.res) && old(ctx).pending(map_state_to(node.res))
            && old(ctx).node_of(map_state_to(node.res)).res is None) ==> final(ctx).journal@
            == old(ctx).journal@.push(
            (map_state_to(node.res), crate::value::val_fn_apply(map_state_f(node.res), state),
            result),
        ) && (forall|x: PromiseId|
            final(ctx).pending(x) <==> (old(ctx).pending(x) && x != map_state_to(node.res))),
        (is_map_result(node.res) && old(ctx).pending(map_result_to(node.res))
            && old(ctx).node_of(map_result_to(node.res)).res is None) ==> final(ctx).journal@
            == old(ctx).journal@.push(
            (map_result_to(node.res), state,
            crate::value::val_fn_apply(map_result_f(node.res), result)),
        ) && (forall|x: PromiseId|
            final(ctx).pending(x) <==> (old(ctx).pending(x) && x != map_result_to(node.res))),
        (is_await_run(node.res) && old(ctx).gen.next_local < u64::MAX) ==> ({
            let eid = PromiseId { worker: old(ctx).gen.worker, local: old(ctx).gen.next_local };
            final(ctx).journal == old(ctx).journal && final(ctx).pending(eid)
                && final(ctx).node_of(eid) == (Node {
                res: Some(ResCont::Forward(run_to(node.res))),
                dis: DisCont::External { token: await_token(node.res), id: eid },
                slots: None,
            }) && final(ctx).effects@ == old(ctx).effects@.push(
                Effect::ExternalStart { token: await_token(node.res), id: eid },
            ) && (forall|x: PromiseId|
                final(ctx).pending(x) <==> (old(ctx).pending(x) || x == eid))
        }),
        (is_any_arm(node.res) && old(ctx).pending(any_parent(node.res))
            && old(ctx).node_of(any_parent(node.res)).res is None
            && (forall|j: int|
                0 <= j < any_sibs(node.res).len() && j != any_index(node.res)
                    && old(ctx).pending(any_sibs(node.res)[j]) ==> any_sibs(node.res)[j]
                    != any_parent(node.res)
                    && leaf_dis(old(ctx).node_of(any_sibs(node.res)[j]))))
            ==> final(ctx).journal@ == old(ctx).journal@.push(
            (any_parent(node.res), Val::Unit, Val::Pair(Box::new(state), Box::new(result))),
        ) && !final(ctx).pending(any_parent(node.res)) && (forall|j: int|
            0 <= j < any_sibs(node.res).len() && j != any_index(node.res)
                ==> !final(ctx).pending(any_sibs(node.res)[j])),
        ({
            let np = old(ctx).node_of(all_parent(node.res));
            let pair = Val::Pair(Box::new(state), Box::new(result));
            (is_all_arm(node.res) && old(ctx).pending(all_parent(node.res)) && np.slots is Some
                && 0 <= all_index(node.res) < slots_of(np).len() && (exists|k: int|
                0 <= k < slots_of(np).len() && k != all_index(node.res) && slots_of(
                    np,
                )[k] is None)) ==> final(ctx).journal == old(ctx).journal
                && final(ctx).pending(all_parent(node.res))
                && final(ctx).node_of(all_parent(node.res)).res == np.res
                && final(ctx).node_of(all_parent(node.res)).dis == np.dis
                && final(ctx).node_of(all_parent(node.res)).slots is Some
                && slots_of(final(ctx).node_of(all_parent(node.res))) == slots_of(np).update(
                all_index(node.res),
                Some(pair),
            ) && (forall|x: PromiseId| final(ctx).pending(x) <==> old(ctx).pending(x)) && (
            forall|x: PromiseId|
                final(ctx).pending(x) && x != all_parent(node.res) ==> final(ctx).node_of(x)
                    == old(ctx).node_of(x))
        }),
        (is_all_arm(node.res) && old(ctx).pending(all_parent(node.res))
            && old(ctx).node_of(all_parent(node.res)).res is None
            && old(ctx).node_of(all_parent(node.res)).slots is Some
            && 0 <= all_index(node.res) < slots_of(old(ctx).node_of(all_parent(node.res))).len()
            && (forall|k: int|
                0 <= k < slots_of(old(ctx).node_of(all_parent(node.res))).len() && k
                    != all_index(node.res) ==> slots_of(
                    old(ctx).node_of(all_parent(node.res)),
                )[k] is Some)) ==> final(ctx).journal@ == old(ctx).journal@.push(
            (all_parent(node.res), Val::Unit, list_of(
                filled_vals(
                    slots_of(old(ctx).node_of(all_parent(node.res))),
                    all_index(node.res),
                    Val::Pair(Box::new(state), Box::new(result)),
                ),
            )),
        ) && (forall|x: PromiseId|
            final(ctx).pending(x) <==> (old(ctx).pending(x) && x != all_parent(node.res))),
    decreases old(ctx).reg@.len(), 2int,
{
    match node.res {
        None => {
            let ghost mid = *ctx;
            ctx.journal.push((id, state, result));
            proof {
                lemma_journal_push(mid, *ctx, id, state, result);
            }
        },
        Some(ResCont::Forward(to)) => {
            promise_resolve(ctx, to, state, result);
        },
        Some(ResCont::Run { step, to }) => {
            match step {
                StepFn::ResolveWith { state_fn, result_fn } => {
                    let s2 = apply_val_fn(&state_fn, state);
                    let r2 = apply_val_fn(&result_fn, result);
                    promise_resolve(ctx, to, s2, r2);
                },
                StepFn::AwaitExternal { token } => {
                    spawn_external(ctx, token, to);
                },
            }
        },
        Some(ResCont::MapState { f, to }) => {
            let s2 = apply_val_fn(&f, state);
            promise_resolve(ctx, to, s2, result);
        },
        Some(ResCont::MapResult { f, to }) => {
            let r2 = apply_val_fn(&f, result);
            promise_resolve(ctx, to, state, r2);
        },
        Some(ResCont::AnyArm { parent, siblings, index }) => {
            let ghost mid = *ctx;
            let ghost hyp = mid.pending(parent) && mid.node_of(parent).res is None && (forall|
                j: int,
            |
                0 <= j < siblings@.len() && j != index && mid.pending(siblings@[j])
                    ==> siblings@[j] != parent && leaf_dis(mid.node_of(siblings@[j])));
            let mut k: usize = 0;
            while k < siblings.len()
                invariant
                    ctx.wf(),
                    ctx.gen == mid.gen,
                    ctx.journal == mid.journal,
                    ctx.deferred == mid.deferred,
                    mid.effects@.is_prefix_of(ctx.effects@),
                    mid.log@.is_prefix_of(ctx.log@),
                    ctx.reg@.len() <= mid.reg@.len(),
                    forall|x: PromiseId|
                        ctx.pending(x) ==> mid.pending(x) && ctx.node_of(x) == mid.node_of(x),
                    hyp ==> ctx.pending(parent) && ctx.node_of(parent) == mid.node_of(parent),
                    hyp ==> (forall|j: int|
                        0 <= j < k && j != index ==> !ctx.pending(siblings@[j])),
                decreases siblings.len() - k,
            {
                if k != index {
                    promise_discard(ctx, siblings[k]);
                }
                k = k + 1;
            }
            proof {
                let nr = node.res;
                if is_any_arm(nr) && mid.pending(any_parent(nr)) && mid.node_of(
                    any_parent(nr),
                ).res is None && (forall|j: int|
                    0 <= j < any_sibs(nr).len() && j != any_index(nr) && mid.pending(
                        any_sibs(nr)[j],
                    ) ==> any_sibs(nr)[j] != any_parent(nr) && leaf_dis(
                        mid.node_of(any_sibs(nr)[j]),
                    )) {
                    assert forall|j: int|
                        0 <= j < siblings@.len() && j != index && mid.pending(
                            siblings@[j],
                        ) implies siblings@[j] != parent && leaf_dis(
                        mid.node_of(siblings@[j]),
                    ) by {
                        assert(any_sibs(nr)[j] == siblings@[j]);
                    }
                    assert(hyp);
                }
            }
            promise_resolve(
                ctx,
                parent,
                Val::Unit,
                Val::Pair(Box::new(state), Box::new(result)),
            );
        },
        Some(ResCont::AllArm { parent, index }) => {
            let found = ctx.find_index(parent);
            match found {
                None => {
                    ctx.log.push(LogEvent::StaleResolve(parent));
                    proof {
                        lemma_wf_same_core(*old(ctx), *ctx);
                    }
                },
                Some(i) => {
                    proof {
                        lemma_node_of(*old(ctx), parent, i as int);
                        assert(old(ctx).reg@[i as int].0.local < old(ctx).gen.next_local);
                    }
                    let (_pid, mut pnode) = ctx.reg.remove(i);
                    proof {
                        lemma_reg_remove(*old(ctx), *ctx, i as int);
                    }
                    let mut full = false;
                    let mut usable = false;
                    match &mut pnode.slots {
                        Some(slots) => {
                            if index < slots.len() {
                                usable = true;
                                set_slot(slots, index, Val::Pair(
                                    Box::new(state),
                                    Box::new(result),
                                ));
                                full = all_filled(slots);
                            }
                        },
                        None => {},
                    }
                    proof {
                        let nr = node.res;
                        let np = old(ctx).node_of(all_parent(nr));
                        if is_all_arm(nr) && old(ctx).pending(all_parent(nr))
                            && np.slots is Some && 0 <= all_index(nr) < slots_of(np).len()
                            && (exists|k: int|
                            0 <= k < slots_of(np).len() && k != all_index(nr) && slots_of(
                                np,
                            )[k] is None) {
                            let k = choose|k: int|
                                0 <= k < slots_of(np).len() && k != all_index(nr) && slots_of(
                                    np,
                                )[k] is None;
                            assert(slots_of(pnode)[k] is None);
                            assert(!full);
                        }
                    }
                    if !usable {
                        let ghost mid3 = *ctx;
                        ctx.log.push(LogEvent::StaleResolve(parent));
                        proof {
                            lemma_wf_same_core(mid3, *ctx);
                        }
                        let _ok = ctx.insert_node(parent, pnode);
                    } else if full {
                        let collected = match &pnode.slots {
                            Some(slots) => collect_slots(slots),
                            None => (Val::Nil, Ghost(Seq::empty())),
                        };
                        let list = collected.0;
                        proof {
                            let p0 = old(ctx).node_of(parent);
                            let pair = Val::Pair(Box::new(state), Box::new(result));
                            if 0 <= index < slots_of(p0).len() && (forall|k: int|
                                0 <= k < slots_of(p0).len() && k != index
                                    ==> slots_of(p0)[k] is Some) {
                                assert forall|k: int|
                                    0 <= k < collected.1@.len() implies collected.1@[k]
                                    == filled_vals(slots_of(p0), index as int, pair)[k] by {
                                    assert(slots_of(pnode)[k] == slots_of(p0).update(
                                        index as int,
                                        Some(pair),
                                    )[k]);
                                }
                                assert(collected.1@ =~= filled_vals(
                                    slots_of(p0),
                                    index as int,
                                    pair,
                                ));
                            }
                        }
                        run_node(ctx, parent, pnode, Val::Unit, list);
                    } else {
                        let _ok = ctx.insert_node(parent, pnode);
                    }
                },
            }
        },
    }
}

/// Single delivery: in a well-formed context no identity is delivered
/// twice — the delivery journal never holds two entries for one identity.
/// Every lifecycle operation requires and preserves well-formedness, and
/// a discard never appends to the delivery journal, so along any run a
/// chain's terminal continuation fires at most once, via resolve or via
/// discard, never both.
pub proof fn lemma_single_delivery(ctx: Context)
    requires
        ctx.wf(),
    ensures
        forall|a: int, b: int|
            0 <= a < b < ctx.journal@.len() ==> ctx.journal@[a].0 != ctx.journal@[b].0,
        forall|x: PromiseId| ctx.delivered(x) ==> !ctx.pending(x),
{
    assert forall|x: PromiseId| ctx.delivered(x) implies !ctx.pending(x) by {
        if ctx.pending(x) {
            assert(!ctx.delivered(x));
        }
    }
}

/// A slot array of `n` empty slots.
fn make_slots(n: usize) -> (out: Vec<Option<Val>>)
    ensures
        out@.len() == n,
        forall|k: int| 0 <= k < n ==> out@[k] is None,
{
    let mut out: Vec<Option<Val>> = Vec::new();
    let mut i: usize = 0;
    while i < n
        invariant
            i <= n,
            out@.len() == i,
            forall|k: int| 0 <= k < i ==> out@[k] is None,
        decreases n - i,
    {
        out.push(None);
        i = i + 1;
    }
    out
}

/// Copy a vector of identities.
fn copy_ids(v: &Vec<PromiseId>) -> (out: Vec<PromiseId>)
    ensures
        out@ == v@,
{
    let mut out: Vec<PromiseId> = Vec::new();
    let mut i: usize = 0;
    while i < v.len()
        invariant
            i <= v@.len(),
            out@ =~= v@.subrange(0, i as int),
        decreases v@.len() - i,
    {
        out.push(v[i]);
        i = i + 1;
    }
    proof {
        assert(out@ =~= v@);
    }
    out
}

/// Register: insert the node into the registry under its identity, and
/// only afterwards run its register continuation — the continuation may
/// itself synchronously resolve the very same identity, so the node must
/// already be discoverable. Registration drives whole chains: registering
/// a chained node registers its upstream, and registering a combinator
/// parent registers every sibling in collection order.
#[verifier::loop_isolation(false)]
fn register_node(ctx: &mut Context, p: Promise, over: Option<ResCont>)
    requires
        old(ctx).wf(),
    ensures
        final(ctx).wf(),
        final(ctx).gen.worker == old(ctx).gen.worker,
        old(ctx).gen.next_local <= final(ctx).gen.next_local,
        old(ctx).journal@.is_prefix_of(final(ctx).journal@),
        old(ctx).effects@.is_prefix_of(final(ctx).effects@),
        old(ctx).log@.is_prefix_of(final(ctx).log@),
        final(ctx).deferred == old(ctx).deferred,
        (p.reg is External && p.id.worker == old(ctx).gen.worker
            && p.id.local < old(ctx).gen.next_local && !old(ctx).pending(p.id)
            && !old(ctx).delivered(p.id)) ==> final(ctx).pending(p.id)
            && final(ctx).journal == old(ctx).journal
            && final(ctx).node_of(p.id) == (Node {
            res: if over is Some { over } else { p.res },
            dis: p.dis,
            slots: None,
        }) && final(ctx).effects@ == old(ctx).effects@.push(
            Effect::ExternalStart { token: p.reg->External_token, id: p.id },
        ) && (forall|x: PromiseId|
            final(ctx).pending(x) <==> (old(ctx).pending(x) || x == p.id)) && (forall|
            x: PromiseId,
        |
            old(ctx).pending(x) ==> final(ctx).node_of(x) == old(ctx).node_of(x)),
        ({
            let nres = if over is Some { over } else { p.res };
            let u = upstream_of(p.reg);
            (is_upstream(p.reg) && u.reg is External && u.id != p.id
                && p.id.worker == old(ctx).gen.worker && p.id.local < old(ctx).gen.next_local
                && !old(ctx).pending(p.id) && !old(ctx).delivered(p.id)
                && u.id.worker == old(ctx).gen.worker && u.id.local < old(ctx).gen.next_local
                && !old(ctx).pending(u.id) && !old(ctx).delivered(u.id)) ==> final(ctx).pending(
                p.id,
            ) && final(ctx).node_of(p.id) == (Node { res: nres, dis: p.dis, slots: None })
                && final(ctx).pending(u.id) && final(ctx).node_of(u.id) == (Node {
                res: u.res,
                dis: u.dis,
                slots: None,
            }) && final(ctx).journal == old(ctx).journal && final(ctx).effects@ == old(
                ctx,
            ).effects@.push(Effect::ExternalStart { token: u.reg->External_token, id: u.id })
                && (forall|x: PromiseId|
                final(ctx).pending(x) <==> (old(ctx).pending(x) || x == p.id || x == u.id))
        }),
        ({
            let nres = if over is Some { over } else { p.res };
            let sibs = fan_all_sibs(p.reg);
            (p.reg is FanAll && p.id.worker == old(ctx).gen.worker
                && p.id.local < old(ctx).gen.next_local && !old(ctx).pending(p.id)
                && !old(ctx).delivered(p.id) && external_siblings(sibs, *old(ctx), p.id))
                ==> final(ctx).pending(p.id) && final(ctx).node_of(p.id).res == nres
                && final(ctx).node_of(p.id).dis == p.dis
                && slots_of(final(ctx).node_of(p.id)).len() == sibs.len() && (forall|m: int|
                0 <= m < sibs.len() ==> slots_of(final(ctx).node_of(p.id))[m] is None) && (
            forall|j: int|
                0 <= j < sibs.len() ==> final(ctx).pending((#[trigger] sibs[j]).id)
                    && is_all_arm(final(ctx).node_of(sibs[j].id).res)
                    && all_parent(final(ctx).node_of(sibs[j].id).res) == p.id
                    && all_index(final(ctx).node_of(sibs[j].id).res) == j
                    && final(ctx).node_of(sibs[j].id).dis == sibs[j].dis)
                && final(ctx).journal == old(ctx).journal
        }),
        ({
            let nres = if over is Some { over } else { p.res };
            let sibs = fan_any_sibs(p.reg);
            (p.reg is FanAny && p.id.worker == old(ctx).gen.worker
                && p.id.local < old(ctx).gen.next_local && !old(ctx).pending(p.id)
                && !old(ctx).delivered(p.id) && external_siblings(sibs, *old(ctx), p.id))
                ==> final(ctx).pending(p.id) && final(ctx).node_of(p.id).res == nres
                && final(ctx).node_of(p.id).dis == p.dis && (forall|j: int|
                0 <= j < sibs.len() ==> final(ctx).pending((#[trigger] sibs[j]).id)
                    && is_any_arm(final(ctx).node_of(sibs[j].id).res)
                    && any_parent(final(ctx).node_of(sibs[j].id).res) == p.id
                    && any_index(final(ctx).node_of(sibs[j].id).res) == j
                    && any_sibs(final(ctx).node_of(sibs[j].id).res) == sibs.map_values(
                    |q: Promise| q.id,
                ) && final(ctx).node_of(sibs[j].id).dis == sibs[j].dis)
                && final(ctx).journal == old(ctx).journal
        }),
        ({
            let nres = if over is Some { over } else { p.res };
            let sibs = fan_any_sibs(p.reg);
            (p.reg is FanAny && nres is None && p.id.worker == old(ctx).gen.worker
                && p.id.local < old(ctx).gen.next_local && !old(ctx).pending(p.id)
                && !old(ctx).delivered(p.id) && sync_winner_siblings(sibs, *old(ctx), p.id))
                ==> final(ctx).journal@ == old(ctx).journal@.push(
                (p.id, Val::Unit, Val::Pair(
                    Box::new(start_step(sibs[0].reg).sync_state(start_state(sibs[0].reg))),
                    Box::new(start_step(sibs[0].reg).sync_result(Val::Unit)),
                )),
            ) && !final(ctx).pending(p.id) && (forall|j: int|
                0 <= j < sibs.len() ==> !final(ctx).pending((#[trigger] sibs[j]).id))
        }),
        ({
            let nres = if over is Some { over } else { p.res };
            (is_sync_start(p.reg) && nres is None && p.id.worker == old(ctx).gen.worker
                && p.id.local < old(ctx).gen.next_local && !old(ctx).pending(p.id)
                && !old(ctx).delivered(p.id)) ==> final(ctx).journal@ == old(ctx).journal@.push(
                (p.id, start_step(p.reg).sync_state(start_state(p.reg)),
                start_step(p.reg).sync_result(Val::Unit)),
            )
        }),
        ({
            let nres = if over is Some { over } else { p.res };
            let eid = PromiseId { worker: old(ctx).gen.worker, local: old(ctx).gen.next_local };
            (is_await_start(p.reg) && p.id.worker == old(ctx).gen.worker
                && p.id.local < old(ctx).gen.next_local && !old(ctx).pending(p.id)
                && !old(ctx).delivered(p.id) && old(ctx).gen.next_local < u64::MAX)
                ==> final(ctx).pending(p.id) && final(ctx).node_of(p.id) == (Node {
                res: nres,
                dis: p.dis,
                slots: None,
            }) && final(ctx).pending(eid) && final(ctx).node_of(eid) == (Node {
                res: Some(ResCont::Forward(p.id)),
                dis: DisCont::External { token: start_token(p.reg), id: eid },
                slots: None,
            }) && final(ctx).journal == old(ctx).journal && final(ctx).effects@ == old(
                ctx,
            ).effects@.push(Effect::ExternalStart { token: start_token(p.reg), id: eid })
        }),
        ({
            let sibs = any_sibs(over);
            (is_sync_start(p.reg) && (p.dis is Nothing || p.dis is External) && is_any_arm(
                over,
            ) && p.id.worker == old(ctx).gen.worker && p.id.local < old(ctx).gen.next_local
                && !old(ctx).pending(p.id) && !old(ctx).delivered(p.id)
                && any_parent(over) != p.id && old(ctx).pending(any_parent(over))
                && old(ctx).node_of(any_parent(over)).res is None && (forall|j: int|
                0 <= j < sibs.len() && j != any_index(over) ==> sibs[j] != p.id && (old(
                    ctx,
                ).pending(sibs[j]) ==> sibs[j] != any_parent(over) && leaf_dis(
                    old(ctx).node_of(sibs[j]),
                )))) ==> final(ctx).journal@ == old(ctx).journal@.push(
                (any_parent(over), Val::Unit, Val::Pair(
                    Box::new(start_step(p.reg).sync_state(start_state(p.reg))),
                    Box::new(start_step(p.reg).sync_result(Val::Unit)),
                )),
            ) && !final(ctx).pending(any_parent(over)) && !final(ctx).pending(p.id) && (forall|
                j: int,
            |
                0 <= j < sibs.len() && j != any_index(over) ==> !final(ctx).pending(sibs[j]))
        }),
    decreases p,
{
    let Promise { id, reg, dis, res } = p;
    let node_res = if over.is_some() {
        over
    } else {
        res
    };
    let slots = match &reg {
        RegCont::FanAll(sibs) => Some(make_slots(sibs.len())),
        _ => None,
    };
    let inserted = ctx.insert_node(id, Node { res: node_res, dis, slots });
    if !inserted {
        // Protocol violation: the identity is already pending or already
        // completed. The branch is dropped; the rejection is logged.
        return ;
    }
    match reg {
        RegCont::Start { state, step } => {
            match step {
                StepFn::ResolveWith { state_fn, result_fn } => {
                    let s2 = apply_val_fn(&state_fn, state);
                    let r2 = apply_val_fn(&result_fn, Val::Unit);
                    promise_resolve(ctx, id, s2, r2);
                },
                StepFn::AwaitExternal { token } => {
                    spawn_external(ctx, token, id);
                },
            }
        },
        RegCont::Upstream(up) => {
            proof {
                assert(decreases_to!(p => reg));
            }
            register_node(ctx, *up, None);
        },
        RegCont::External { token } => {
            let ghost mid = *ctx;
            ctx.effects.push(Effect::ExternalStart { token, id });
            proof {
                lemma_wf_same_core(mid, *ctx);
            }
        },
        RegCont::FanAny(mut sibs) => {
            let ids = sibling_ids(&sibs);
            let total: usize = sibs.len();
            let ghost sibs0 = sibs@;
            let ghost hyp = p.id.worker == old(ctx).gen.worker
                && p.id.local < old(ctx).gen.next_local && !old(ctx).pending(p.id)
                && !old(ctx).delivered(p.id) && external_siblings(sibs0, *old(ctx), p.id);
            let ghost nres0 = if over is Some { over } else { p.res };
            let ghost hyp2 = nres0 is None && p.id.worker == old(ctx).gen.worker
                && p.id.local < old(ctx).gen.next_local && !old(ctx).pending(p.id)
                && !old(ctx).delivered(p.id) && sync_winner_siblings(sibs0, *old(ctx), p.id);
            let ghost winner = (p.id, Val::Unit, Val::Pair(
                Box::new(start_step(upd_first(sibs0).reg).sync_state(
                    start_state(upd_first(sibs0).reg),
                )),
                Box::new(start_step(upd_first(sibs0).reg).sync_result(Val::Unit)),
            ));
            let mut k: usize = 0;
            while sibs.len() > 0
                invariant
                    ctx.wf(),
                    ctx.gen.worker == old(ctx).gen.worker,
                    old(ctx).gen.next_local <= ctx.gen.next_local,
                    old(ctx).journal@.is_prefix_of(ctx.journal@),
                    old(ctx).effects@.is_prefix_of(ctx.effects@),
                    old(ctx).log@.is_prefix_of(ctx.log@),
                    ctx.deferred == old(ctx).deferred,
                    k + sibs@.len() == sibs0.len(),
                    sibs0.len() == total,
                    sibs@ =~= sibs0.skip(k as int),
                    hyp ==> ctx.journal == old(ctx).journal,
                    hyp ==> ctx.pending(p.id) && ctx.node_of(p.id).res == (if over is Some {
                        over
                    } else {
                        p.res
                    }) && ctx.node_of(p.id).dis == p.dis,
                    hyp ==> (forall|j: int|
                        0 <= j < k ==> ctx.pending((#[trigger] sibs0[j]).id)
                            && is_any_arm(ctx.node_of(sibs0[j].id).res)
                            && any_parent(ctx.node_of(sibs0[j].id).res) == p.id
                            && any_index(ctx.node_of(sibs0[j].id).res) == j
                            && any_sibs(ctx.node_of(sibs0[j].id).res) == sibs0.map_values(
                            |q: Promise| q.id,
                        ) && ctx.node_of(sibs0[j].id).dis == sibs0[j].dis),
                    hyp ==> (forall|j: int|
                        k <= j < sibs0.len() ==> !ctx.pending((#[trigger] sibs0[j]).id)),
                    (hyp2 && k == 0) ==> ctx.journal == old(ctx).journal && ctx.pending(p.id)
                        && ctx.node_of(p.id).res == nres0 && (forall|j: int|
                        0 <= j < sibs0.len() ==> !ctx.pending((#[trigger] sibs0[j]).id)),
                    (hyp2 && k >= 1) ==> ctx.journal@ == old(ctx).journal@.push(winner)
                        && !ctx.pending(p.id) && (forall|j: int|
                        k <= j < sibs0.len() ==> !ctx.pending((#[trigger] sibs0[j]).id)),
                decreases sibs@.len(),
            {
                let sib = sibs.remove(0);
                proof {
                    assert(sib == sibs0[k as int]);
                    assert(decreases_to!(p => reg));
                    vstd::std_specs::vec::axiom_vec_decreases_to_view(
                        reg->FanAny_0,
                    );
                    vstd::seq::axiom_seq_index_decreases(sibs0, k as int);
                    assert(decreases_to!(p => sib));
                }
                let arm_ids = copy_ids(&ids);
                proof {
                    if hyp2 {
                        assert forall|j: int|
                            0 <= j < arm_ids@.len() implies arm_ids@[j] == sibs0[j].id by {}
                        if ctx.delivered(sib.id) {
                            let d = choose|d: int|
                                0 <= d < ctx.journal@.len() && ctx.journal@[d].0 == sib.id;
                            if d < old(ctx).journal@.len() {
                                assert(old(ctx).journal@[d].0 == sib.id);
                                assert(old(ctx).delivered(sib.id));
                            } else {
                                assert(ctx.journal@[d] == winner);
                            }
                        }
                        assert(!ctx.delivered(sib.id));
                    }
                }
                register_node(
                    ctx,
                    sib,
                    Some(ResCont::AnyArm { parent: id, siblings: arm_ids, index: k }),
                );
                proof {
                    if hyp2 && k == 0 {
                        assert(upd_first(sibs0) == sibs0[0]);
                        assert(ctx.journal@ == old(ctx).journal@.push(winner));
                        assert(!ctx.pending(p.id));
                        assert forall|j: int|
                            1 <= j < sibs0.len() implies !ctx.pending(sibs0[j].id) by {
                            assert(arm_ids@[j] == sibs0[j].id);
                        }
                    }
                }
                k = k + 1;
            }
            sweep_orphans(ctx, id, &ids);
            proof {
                if hyp2 {
                    assert(upd_first(sibs0) == sibs0[0]);
                    assert(ctx.journal@ == old(ctx).journal@.push(winner));
                    assert(!ctx.pending(p.id));
                    assert forall|j: int|
                        0 <= j < sibs0.len() implies !ctx.pending(sibs0[j].id) by {
                        assert(ids@[j] == sibs0[j].id);
                    }
                }
            }
        },
        RegCont::FanAll(mut sibs) => {
            let ids = sibling_ids(&sibs);
            let total: usize = sibs.len();
            let ghost sibs0 = sibs@;
            let ghost hyp = p.id.worker == old(ctx).gen.worker
                && p.id.local < old(ctx).gen.next_local && !old(ctx).pending(p.id)
                && !old(ctx).delivered(p.id) && external_siblings(sibs0, *old(ctx), p.id);
            let mut k: usize = 0;
            while sibs.len() > 0
                invariant
                    ctx.wf(),
                    ctx.gen.worker == old(ctx).gen.worker,
                    old(ctx).gen.next_local <= ctx.gen.next_local,
                    old(ctx).journal@.is_prefix_of(ctx.journal@),
                    old(ctx).effects@.is_prefix_of(ctx.effects@),
                    old(ctx).log@.is_prefix_of(ctx.log@),
                    ctx.deferred == old(ctx).deferred,
                    k + sibs@.len() == sibs0.len(),
                    sibs0.len() == total,
                    sibs@ =~= sibs0.skip(k as int),
                    hyp ==> ctx.journal == old(ctx).journal,
                    hyp ==> ctx.pending(p.id) && ctx.node_of(p.id).res == (if over is Some {
                        over
                    } else {
                        p.res
                    }) && ctx.node_of(p.id).dis == p.dis
                        && slots_of(ctx.node_of(p.id)).len() == sibs0.len() && (forall|m: int|
                        0 <= m < sibs0.len() ==> slots_of(ctx.node_of(p.id))[m] is None),
                    hyp ==> (forall|j: int|
                        0 <= j < k ==> ctx.pending((#[trigger] sibs0[j]).id)
                            && is_all_arm(ctx.node_of(sibs0[j].id).res)
                            && all_parent(ctx.node_of(sibs0[j].id).res) == p.id
                            && all_index(ctx.node_of(sibs0[j].id).res) == j
                            && ctx.node_of(sibs0[j].id).dis == sibs0[j].dis),
                    hyp ==> (forall|j: int|
                        k <= j < sibs0.len() ==> !ctx.pending((#[trigger] sibs0[j]).id)),
                decreases sibs@.len(),
            {
                let sib = sibs.remove(0);
                proof {
                    assert(sib == sibs0[k as int]);
                    assert(decreases_to!(p => reg));
                    vstd::std_specs::vec::axiom_vec_decreases_to_view(
                        reg->FanAll_0,
                    );
                    vstd::seq::axiom_seq_index_decreases(sibs0, k as int);
                    assert(decreases_to!(p => sib));
                }
                register_node(
                    ctx,
                    sib,
                    Some(ResCont::AllArm { parent: id, index: k }),
                );
                k = k + 1;
            }
            sweep_orphans(ctx, id, &ids);
        },
    }
}

/// After a combinator's siblings are registered: if the parent already
/// resolved while they were being driven — a sibling resolved
/// synchronously during registration — discard every sibling that is
/// still pending, so none outlives the decision.
fn sweep_orphans(ctx: &mut Context, parent: PromiseId, ids: &Vec<PromiseId>)
    requires
        old(ctx).wf(),
    ensures
        final(ctx).wf(),
        final(ctx).gen == old(ctx).gen,
        final(ctx).journal == old(ctx).journal,
        final(ctx).deferred == old(ctx).deferred,
        old(ctx).effects@.is_prefix_of(final(ctx).effects@),
        old(ctx).log@.is_prefix_of(final(ctx).log@),
        old(ctx).pending(parent) ==> final(ctx).reg == old(ctx).reg
            && final(ctx).effects == old(ctx).effects && final(ctx).log == old(ctx).log,
        !old(ctx).pending(parent) ==> (forall|j: int|
            0 <= j < ids@.len() ==> !final(ctx).pending(ids@[j])),
        forall|x: PromiseId|
            final(ctx).pending(x) ==> old(ctx).pending(x)
                && final(ctx).node_of(x) == old(ctx).node_of(x),
{
    let parent_done = ctx.find_index(parent).is_none();
    if !parent_done {
        return ;
    }
    let ghost mid = *ctx;
    let mut k: usize = 0;
    while k < ids.len()
        invariant
            ctx.wf(),
            ctx.gen == mid.gen,
            ctx.journal == mid.journal,
            ctx.deferred == mid.deferred,
            mid.effects@.is_prefix_of(ctx.effects@),
            mid.log@.is_prefix_of(ctx.log@),
            forall|x: PromiseId|
                ctx.pending(x) ==> mid.pending(x) && ctx.node_of(x) == mid.node_of(x),
            forall|j: int| 0 <= j < k ==> !ctx.pending(ids@[j]),
        decreases ids@.len() - k,
    {
        let still_pending = ctx.find_index(ids[k]).is_some();
        if still_pending {
            promise_discard(ctx, ids[k]);
        }
        k = k + 1;
    }
}

/// Route a continuation's outcome into the downstream identity `to`: a
/// synchronous `(state, result)` pair resolves `to` right now, while an
/// awaited node is registered with its eventual resolution redirected to
/// `to` — the splice point that lets arbitrarily long chains be built
/// without the caller ever seeing the registry. It is a protocol
/// violation, logged and absorbed, for the awaited node to already carry
/// a resolve continuation: two continuations would race to claim `to`.
pub fn promise_route(ctx: &mut Context, to: PromiseId, outcome: PromiseResult)
    requires
        old(ctx).wf(),
    ensures
        final(ctx).wf(),
        final(ctx).gen.worker == old(ctx).gen.worker,
        old(ctx).gen.next_local <= final(ctx).gen.next_local,
        old(ctx).journal@.is_prefix_of(final(ctx).journal@),
        old(ctx).effects@.is_prefix_of(final(ctx).effects@),
        old(ctx).log@.is_prefix_of(final(ctx).log@),
        final(ctx).deferred == old(ctx).deferred,
        (outcome matches PromiseResult::Resolve(s, r) && old(ctx).pending(to)
            && old(ctx).node_of(to).res is None) ==> final(ctx).journal@
            == old(ctx).journal@.push((to, outcome->Resolve_0, outcome->Resolve_1)),
        (outcome matches PromiseResult::Await(p) && p.res is Some) ==> final(ctx).reg
            == old(ctx).reg && final(ctx).journal == old(ctx).journal
            && final(ctx).log@ == old(ctx).log@.push(
            LogEvent::MisconfiguredResolve(outcome->Await_0.id),
        ),
        ({
            let p = outcome->Await_0;
            (outcome is Await && p.res is None && p.reg is External
                && p.id.worker == old(ctx).gen.worker && p.id.local < old(ctx).gen.next_local
                && !old(ctx).pending(p.id) && !old(ctx).delivered(p.id)) ==> final(ctx).pending(
                p.id,
            ) && final(ctx).node_of(p.id) == (Node {
                res: Some(ResCont::Forward(to)),
                dis: p.dis,
                slots: None,
            }) && final(ctx).journal == old(ctx).journal && final(ctx).effects@ == old(
                ctx,
            ).effects@.push(Effect::ExternalStart { token: p.reg->External_token, id: p.id })
                && (forall|x: PromiseId|
                final(ctx).pending(x) <==> (old(ctx).pending(x) || x == p.id))
        }),
{
    match outcome {
        PromiseResult::Resolve(s, r) => {
            promise_resolve(ctx, to, s, r);
        },
        PromiseResult::Await(p) => {
            if p.res.is_some() {
                ctx.log.push(LogEvent::MisconfiguredResolve(p.id));
                proof {
                    lemma_wf_same_core(*old(ctx), *ctx);
                }
            } else {
                register_node(ctx, p, Some(ResCont::Forward(to)));
            }
        },
    }
}

/// Drive a composed promise: move it into the registry and run its
/// register continuation. This is the only way a node enters the
/// registry; thereafter it is addressed purely by identity.
pub fn promise_register(ctx: &mut Context, promise: Promise)
    requires
        old(ctx).wf(),
    ensures
        final(ctx).wf(),
        final(ctx).gen.worker == old(ctx).gen.worker,
        old(ctx).gen.next_local <= final(ctx).gen.next_local,
        old(ctx).journal@.is_prefix_of(final(ctx).journal@),
        old(ctx).effects@.is_prefix_of(final(ctx).effects@),
        old(ctx).log@.is_prefix_of(final(ctx).log@),
        final(ctx).deferred == old(ctx).deferred,
        (promise.reg is External && promise.id.worker == old(ctx).gen.worker
            && promise.id.local < old(ctx).gen.next_local && !old(ctx).pending(promise.id)
            && !old(ctx).delivered(promise.id)) ==> final(ctx).pending(promise.id)
            && final(ctx).journal == old(ctx).journal
            && final(ctx).node_of(promise.id) == (Node {
            res: promise.res,
            dis: promise.dis,
            slots: None,
        }) && final(ctx).effects@ == old(ctx).effects@.push(
            Effect::ExternalStart { token: promise.reg->External_token, id: promise.id },
        ) && (forall|x: PromiseId|
            final(ctx).pending(x) <==> (old(ctx).pending(x) || x == promise.id)),
        ({
            let u = upstream_of(promise.reg);
            (is_upstream(promise.reg) && u.reg is External && u.id != promise.id
                && promise.id.worker == old(ctx).gen.worker
                && promise.id.local < old(ctx).gen.next_local && !old(ctx).pending(promise.id)
                && !old(ctx).delivered(promise.id) && u.id.worker == old(ctx).gen.worker
                && u.id.local < old(ctx).gen.next_local && !old(ctx).pending(u.id)
                && !old(ctx).delivered(u.id)) ==> final(ctx).pending(promise.id)
                && final(ctx).node_of(promise.id) == (Node {
                res: promise.res,
                dis: promise.dis,
                slots: None,
            }) && final(ctx).pending(u.id) && final(ctx).node_of(u.id) == (Node {
                res: u.res,
                dis: u.dis,
                slots: None,
            }) && final(ctx).journal == old(ctx).journal && final(ctx).effects@ == old(
                ctx,
            ).effects@.push(Effect::ExternalStart { token: u.reg->External_token, id: u.id })
                && (forall|x: PromiseId|
                final(ctx).pending(x) <==> (old(ctx).pending(x) || x == promise.id || x
                    == u.id))
        }),
        ({
            let sibs = fan_all_sibs(promise.reg);
            (promise.reg is FanAll && promise.id.worker == old(ctx).gen.worker
                && promise.id.local < old(ctx).gen.next_local && !old(ctx).pending(promise.id)
                && !old(ctx).delivered(promise.id) && external_siblings(
                sibs,
                *old(ctx),
                promise.id,
            )) ==> final(ctx).pending(promise.id) && final(ctx).node_of(promise.id).res
                == promise.res && final(ctx).node_of(promise.id).dis == promise.dis
                && slots_of(final(ctx).node_of(promise.id)).len() == sibs.len() && (forall|
                m: int,
            |
                0 <= m < sibs.len() ==> slots_of(final(ctx).node_of(promise.id))[m] is None)
                && (forall|j: int|
                0 <= j < sibs.len() ==> final(ctx).pending((#[trigger] sibs[j]).id)
                    && is_all_arm(final(ctx).node_of(sibs[j].id).res)
                    && all_parent(final(ctx).node_of(sibs[j].id).res) == promise.id
                    && all_index(final(ctx).node_of(sibs[j].id).res) == j
                    && final(ctx).node_of(sibs[j].id).dis == sibs[j].dis)
                && final(ctx).journal == old(ctx).journal
        }),
        ({
            let sibs = fan_any_sibs(promise.reg);
            (promise.reg is FanAny && promise.id.worker == old(ctx).gen.worker
                && promise.id.local < old(ctx).gen.next_local && !old(ctx).pending(promise.id)
                && !old(ctx).delivered(promise.id) && external_siblings(
                sibs,
                *old(ctx),
                promise.id,
            )) ==> final(ctx).pending(promise.id) && final(ctx).node_of(promise.id).res
                == promise.res && final(ctx).node_of(promise.id).dis == promise.dis && (forall|
                j: int,
            |
                0 <= j < sibs.len() ==> final(ctx).pending((#[trigger] sibs[j]).id)
                    && is_any_arm(final(ctx).node_of(sibs[j].id).res)
                    && any_parent(final(ctx).node_of(sibs[j].id).res) == promise.id
                    && any_index(final(ctx).node_of(sibs[j].id).res) == j
                    && any_sibs(final(ctx).node_of(sibs[j].id).res) == sibs.map_values(
                    |q: Promise| q.id,
                ) && final(ctx).node_of(sibs[j].id).dis == sibs[j].dis)
                && final(ctx).journal == old(ctx).journal
        }),
        (is_sync_start(promise.reg) && promise.res is None
            && promise.id.worker == old(ctx).gen.worker
            && promise.id.local < old(ctx).gen.next_local && !old(ctx).pending(promise.id)
            && !old(ctx).delivered(promise.id)) ==> final(ctx).journal@ == old(ctx).journal@.push(
            (promise.id, start_step(promise.reg).sync_state(start_state(promise.reg)),
            start_step(promise.reg).sync_result(Val::Unit)),
        ),
        ({
            let eid = PromiseId { worker: old(ctx).gen.worker, local: old(ctx).gen.next_local };
            (is_await_start(promise.reg) && promise.id.worker == old(ctx).gen.worker
                && promise.id.local < old(ctx).gen.next_local && !old(ctx).pending(promise.id)
                && !old(ctx).delivered(promise.id) && old(ctx).gen.next_local < u64::MAX)
                ==> final(ctx).pending(promise.id) && final(ctx).node_of(promise.id) == (Node {
                res: promise.res,
                dis: promise.dis,
                slots: None,
            }) && final(ctx).pending(eid) && final(ctx).node_of(eid) == (Node {
                res: Some(ResCont::Forward(promise.id)),
                dis: DisCont::External { token: start_token(promise.reg), id: eid },
                slots: None,
            }) && final(ctx).journal == old(ctx).journal && final(ctx).effects@ == old(
                ctx,
            ).effects@.push(
                Effect::ExternalStart { token: start_token(promise.reg), id: eid },
            )
        }),
        ({
            let sibs = fan_any_sibs(promise.reg);
            (promise.reg is FanAny && promise.res is None
                && promise.id.worker == old(ctx).gen.worker
                && promise.id.local < old(ctx).gen.next_local && !old(ctx).pending(promise.id)
                && !old(ctx).delivered(promise.id) && sync_winner_siblings(
                sibs,
                *old(ctx),
                promise.id,
            )) ==> final(ctx).journal@ == old(ctx).journal@.push(
                (promise.id, Val::Unit, Val::Pair(
                    Box::new(start_step(sibs[0].reg).sync_state(start_state(sibs[0].reg))),
                    Box::new(start_step(sibs[0].reg).sync_result(Val::Unit)),
                )),
            ) && !final(ctx).pending(promise.id) && (forall|j: int|
                0 <= j < sibs.len() ==> !final(ctx).pending((#[trigger] sibs[j]).id))
        }),
{
    register_node(ctx, promise, None);
}

impl Context {
    /// Schedule `id` to be resolved with `result` at the next flush of
    /// deferred mutations: the bridge through which external code
    /// resolves a promise by identity.
    pub fn defer_resolve(&mut self, id: PromiseId, result: Val)
        ensures
            final(self).deferred@ == old(self).deferred@.push(
                PromiseCommand { id, result },
            ),
            final(self).reg == old(self).reg,
            final(self).journal == old(self).journal,
            final(self).effects == old(self).effects,
            final(self).log == old(self).log,
            final(self).gen == old(self).gen,
    {
        self.deferred.push(PromiseCommand::resolve(id, result));
    }

    /// Flush deferred mutations: run every scheduled resolution, in the
    /// order scheduled, with the unit state.
    #[verifier::loop_isolation(false)]
    pub fn flush_deferred(&mut self)
        requires
            old(self).wf(),
        ensures
            final(self).wf(),
            final(self).deferred@.len() == 0,
            old(self).journal@.is_prefix_of(final(self).journal@),
            old(self).effects@.is_prefix_of(final(self).effects@),
            old(self).log@.is_prefix_of(final(self).log@),
            final(self).gen.worker == old(self).gen.worker,
            old(self).gen.next_local <= final(self).gen.next_local,
            forall|j: int|
                0 <= j < old(self).deferred@.len()
                    && (#[trigger] old(self).deferred@[j]).id.worker == old(self).gen.worker
                    && old(self).deferred@[j].id.local < old(self).gen.next_local
                    ==> !final(self).pending(old(self).deferred@[j].id),
            (old(self).deferred@.len() == 1 && old(self).pending(old(self).deferred@[0].id)
                && old(self).node_of(old(self).deferred@[0].id).res is None)
                ==> final(self).journal@ == old(self).journal@.push(
                (old(self).deferred@[0].id, Val::Unit, old(self).deferred@[0].result),
            ),
    {
        let ghost cmds0 = self.deferred@;
        let ghost mut k: int = 0;
        while self.deferred.len() > 0
            invariant
                self.wf(),
                self.gen.worker == old(self).gen.worker,
                old(self).gen.next_local <= self.gen.next_local,
                old(self).journal@.is_prefix_of(self.journal@),
                old(self).effects@.is_prefix_of(self.effects@),
                old(self).log@.is_prefix_of(self.log@),
                0 <= k,
                k + self.deferred@.len() == cmds0.len(),
                self.deferred@ =~= cmds0.skip(k),
                forall|j: int|
                    0 <= j < k && (#[trigger] cmds0[j]).id.worker == old(self).gen.worker
                        && cmds0[j].id.local < old(self).gen.next_local ==> !self.pending(
                        cmds0[j].id,
                    ),
                self.deferred@.len() == cmds0.len() ==> self.reg == old(self).reg
                    && self.journal == old(self).journal && self.gen == old(self).gen,
                (cmds0.len() == 1 && old(self).pending(cmds0[0].id)
                    && old(self).node_of(cmds0[0].id).res is None && self.deferred@.len() == 0)
                    ==> self.journal@ == old(self).journal@.push(
                    (cmds0[0].id, Val::Unit, cmds0[0].result),
                ),
            decreases self.deferred@.len(),
        {
            let ghost mid = *self;
            let cmd = self.deferred.remove(0);
            proof {
                lemma_wf_same_core(mid, *self);
                assert(cmd == cmds0[k]);
            }
            promise_resolve(self, cmd.id, Val::Unit, cmd.result);
            proof {
                k = k + 1;
                assert(self.deferred@ =~= cmds0.skip(k));
            }
        }
    }
}

} // verus!

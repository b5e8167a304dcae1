//! Promise nodes and their one-shot continuations, written as data.
//!
//! A node carries an identity plus up to three continuations: `reg`, run
//! exactly once when the node is first driven; `dis`, run exactly once if
//! the node is cancelled before resolution; and `res`, present only while
//! the node sits in the registry awaiting an upstream `(state, result)`
//! pair. The chaining operators build new nodes around old ones without
//! the caller ever touching the registry.

use vstd::prelude::*;

use crate::id::{IdGen, PromiseId};
use crate::value::{StepFn, Val, ValFn};

verus! {

/// The stored resolve continuation of a pending node: what the engine does
/// with the `(state, result)` pair that resolves the node.
#[derive(Debug)]
pub enum ResCont {
    /// Feed the pair unchanged to a downstream identity.
    Forward(PromiseId),
    /// Run a user continuation and route its outcome to a downstream
    /// identity.
    Run { step: StepFn, to: PromiseId },
    /// Transform the state with a pure function; the result passes
    /// through. Always resolves the downstream identity synchronously.
    MapState { f: ValFn, to: PromiseId },
    /// Transform the result with a pure function; the state passes
    /// through. Always resolves the downstream identity synchronously.
    MapResult { f: ValFn, to: PromiseId },
    /// This node is a sibling under an `any` combinator: on resolution,
    /// discard every sibling except one's own index, and resolve the
    /// parent with one's own pair.
    AnyArm { parent: PromiseId, siblings: Vec<PromiseId>, index: usize },
    /// This node is a sibling under an `all` combinator: on resolution,
    /// write one's own slot on the parent; whoever fills the last slot
    /// resolves the parent with the collected list.
    AllArm { parent: PromiseId, index: usize },
}

/// The discard continuation of a node: cleanup when it is cancelled.
#[derive(Debug)]
pub enum DisCont {
    /// Nothing to clean up.
    Nothing,
    /// An external collaborator (a timer, say) holds a record for the
    /// identity `id` under `token`; announce the cancellation so it can
    /// drop that record.
    External { token: u64, id: PromiseId },
    /// Cancellation propagates downstream to this identity.
    Downstream(PromiseId),
    /// Cancelling an `any`/`all` parent discards every sibling.
    FanOut(Vec<PromiseId>),
}

/// The register continuation of a node: what happens when it is first
/// driven.
#[derive(Debug)]
pub enum RegCont {
    /// Run a user function on the captured state, and route its outcome
    /// to this node's own identity.
    Start { state: Val, step: StepFn },
    /// Registering this node actually drives the upstream node it was
    /// chained onto.
    Upstream(Box<Promise>),
    /// An external collaborator takes over: announce the identity under
    /// `token` and wait for it to resolve or discard the node.
    External { token: u64 },
    /// Register every sibling of an `any` combinator, wiring each to race
    /// for the parent.
    FanAny(Vec<Promise>),
    /// Register every sibling of an `all` combinator, wiring each to fill
    /// its slot on the parent.
    FanAll(Vec<Promise>),
}

/// The central value type: an identity plus the three one-shot
/// continuations. While being composed it is exclusively owned by the
/// caller; once passed to `promise_register` it moves into the registry.
#[derive(Debug)]
pub struct Promise {
    pub id: PromiseId,
    pub reg: RegCont,
    pub dis: DisCont,
    pub res: Option<ResCont>,
}

/// What a continuation body produces: either the computation finished
/// synchronously with a `(state, result)` pair, or it is not finished and
/// hands back a new node to register and wait on.
#[derive(Debug)]
pub enum PromiseResult {
    Resolve(Val, Val),
    Await(Promise),
}

impl core::convert::From<Promise> for PromiseResult {
    /// A bare node used where an outcome is expected is awaited.
    fn from(value: Promise) -> (out: PromiseResult) {
        PromiseResult::Await(value)
    }
}

impl vstd::std_specs::convert::FromSpecImpl<Promise> for PromiseResult {
    open spec fn obeys_from_spec() -> bool {
        true
    }

    open spec fn from_spec(value: Promise) -> PromiseResult {
        PromiseResult::Await(value)
    }
}

/// Carrier for the state value threaded through a chain, with convenience
/// transformations that produce a [`PromiseResult`] without exposing the
/// registry.
#[derive(Debug, PartialEq, Eq)]
pub struct PromiseState {
    pub value: Val,
}

/// Wrapper marking a state value as handed over to asynchronous
/// operations.
#[derive(Debug, PartialEq, Eq)]
pub struct AsyncOps(pub Val);

impl Promise {
    /// A brand-new root node with empty state: registering it runs `step`
    /// once and routes the outcome to the node's own identity.
    pub fn start(gen: &mut IdGen, step: StepFn) -> (out: Promise)
        requires
            old(gen).next_local < u64::MAX,
        ensures
            IdGen::fresh_step(*old(gen), *final(gen), out.id),
            out == (Promise {
                id: out.id,
                reg: RegCont::Start { state: Val::Unit, step },
                dis: DisCont::Nothing,
                res: None,
            }),
    {
        Promise::new(gen, Val::Unit, step)
    }

    /// A brand-new root node with the given state.
    pub fn new(gen: &mut IdGen, default_state: Val, step: StepFn) -> (out: Promise)
        requires
            old(gen).next_local < u64::MAX,
        ensures
            IdGen::fresh_step(*old(gen), *final(gen), out.id),
            out == (Promise {
                id: out.id,
                reg: RegCont::Start { state: default_state, step },
                dis: DisCont::Nothing,
                res: None,
            }),
    {
        let id = gen.fresh();
        Promise { id, reg: RegCont::Start { state: default_state, step }, dis: DisCont::Nothing, res: None }
    }

    /// A node whose registration and cancellation are controlled by an
    /// external collaborator, addressed through `token`: the escape hatch
    /// for integrating asynchronous sources such as timers. Its resolve
    /// continuation is filled in later by whoever chains onto it.
    pub fn register(gen: &mut IdGen, token: u64) -> (out: Promise)
        requires
            old(gen).next_local < u64::MAX,
        ensures
            IdGen::fresh_step(*old(gen), *final(gen), out.id),
            out == (Promise {
                id: out.id,
                reg: RegCont::External { token },
                dis: DisCont::External { token, id: out.id },
                res: None,
            }),
    {
        let id = gen.fresh();
        Promise {
            id,
            reg: RegCont::External { token },
            dis: DisCont::External { token, id },
            res: None,
        }
    }

    /// Chain a continuation onto this node. The new node has a freshly
    /// generated identity; the old node's resolve continuation is wired to
    /// run `step` and feed its outcome into the new identity, the old
    /// node's discard is wired to propagate cancellation downstream, and
    /// the old node's own cleanup moves to the new node.
    pub fn and_then(self, gen: &mut IdGen, step: StepFn) -> (out: Promise)
        requires
            old(gen).next_local < u64::MAX,
        ensures
            IdGen::fresh_step(*old(gen), *final(gen), out.id),
            out.id == (PromiseId { worker: old(gen).worker, local: old(gen).next_local }),
            out.dis == self.dis,
            out.res is None,
            out.reg matches RegCont::Upstream(up) && *up == (Promise {
                id: self.id,
                reg: self.reg,
                dis: DisCont::Downstream(out.id),
                res: Some(ResCont::Run { step, to: out.id }),
            }),
    {
        let id = gen.fresh();
        let up = Promise {
            id: self.id,
            reg: self.reg,
            dis: DisCont::Downstream(id),
            res: Some(ResCont::Run { step, to: id }),
        };
        Promise { id, reg: RegCont::Upstream(Box::new(up)), dis: self.dis, res: None }
    }

    /// Transform the state once the upstream resolves; always resolves the
    /// new identity synchronously.
    pub fn map(self, gen: &mut IdGen, f: ValFn) -> (out: Promise)
        requires
            old(gen).next_local < u64::MAX,
        ensures
            IdGen::fresh_step(*old(gen), *final(gen), out.id),
            out.dis == self.dis,
            out.res is None,
            out.reg matches RegCont::Upstream(up) && *up == (Promise {
                id: self.id,
                reg: self.reg,
                dis: DisCont::Downstream(out.id),
                res: Some(ResCont::MapState { f, to: out.id }),
            }),
    {
        let id = gen.fresh();
        let up = Promise {
            id: self.id,
            reg: self.reg,
            dis: DisCont::Downstream(id),
            res: Some(ResCont::MapState { f, to: id }),
        };
        Promise { id, reg: RegCont::Upstream(Box::new(up)), dis: self.dis, res: None }
    }

    /// Replace the state once the upstream resolves.
    pub fn with(self, gen: &mut IdGen, state: Val) -> (out: Promise)
        requires
            old(gen).next_local < u64::MAX,
        ensures
            IdGen::fresh_step(*old(gen), *final(gen), out.id),
            out.dis == self.dis,
            out.res is None,
            out.reg matches RegCont::Upstream(up) && *up == (Promise {
                id: self.id,
                reg: self.reg,
                dis: DisCont::Downstream(out.id),
                res: Some(ResCont::MapState { f: ValFn::ConstVal(state), to: out.id }),
            }),
    {
        self.map(gen, ValFn::ConstVal(state))
    }

    /// Transform the result once the upstream resolves; always resolves
    /// the new identity synchronously.
    pub fn map_result(self, gen: &mut IdGen, f: ValFn) -> (out: Promise)
        requires
            old(gen).next_local < u64::MAX,
        ensures
            IdGen::fresh_step(*old(gen), *final(gen), out.id),
            out.dis == self.dis,
            out.res is None,
            out.reg matches RegCont::Upstream(up) && *up == (Promise {
                id: self.id,
                reg: self.reg,
                dis: DisCont::Downstream(out.id),
                res: Some(ResCont::MapResult { f, to: out.id }),
            }),
    {
        let id = gen.fresh();
        let up = Promise {
            id: self.id,
            reg: self.reg,
            dis: DisCont::Downstream(id),
            res: Some(ResCont::MapResult { f, to: id }),
        };
        Promise { id, reg: RegCont::Upstream(Box::new(up)), dis: self.dis, res: None }
    }

    /// Replace the result once the upstream resolves.
    pub fn with_result(self, gen: &mut IdGen, result: Val) -> (out: Promise)
        requires
            old(gen).next_local < u64::MAX,
        ensures
            IdGen::fresh_step(*old(gen), *final(gen), out.id),
            out.dis == self.dis,
            out.res is None,
            out.reg matches RegCont::Upstream(up) && *up == (Promise {
                id: self.id,
                reg: self.reg,
                dis: DisCont::Downstream(out.id),
                res: Some(ResCont::MapResult { f: ValFn::ConstVal(result), to: out.id }),
            }),
    {
        self.map_result(gen, ValFn::ConstVal(result))
    }

    /// A stateless synchronous resolution with the given result.
    pub fn resolve(result: Val) -> (out: PromiseResult)
        ensures
            out == PromiseResult::Resolve(Val::Unit, result),
    {
        PromiseResult::Resolve(Val::Unit, result)
    }

    /// A stateless synchronous resolution with the unit result.
    pub fn pass() -> (out: PromiseResult)
        ensures
            out == PromiseResult::Resolve(Val::Unit, Val::Unit),
    {
        PromiseResult::Resolve(Val::Unit, Val::Unit)
    }

    /// Combine sibling promises into one parent that resolves with the
    /// `(state, result)` pair of whichever sibling resolves first,
    /// discarding the rest.
    pub fn any(gen: &mut IdGen, siblings: Vec<Promise>) -> (out: Promise)
        requires
            old(gen).next_local < u64::MAX,
        ensures
            IdGen::fresh_step(*old(gen), *final(gen), out.id),
            out.res is None,
            out.reg matches RegCont::FanAny(s) && s == siblings,
            out.dis matches DisCont::FanOut(ids) && ids@ == siblings@.map_values(
                |p: Promise| p.id,
            ),
    {
        let id = gen.fresh();
        let ids = sibling_ids(&siblings);
        Promise { id, reg: RegCont::FanAny(siblings), dis: DisCont::FanOut(ids), res: None }
    }

    /// Combine sibling promises into one parent that resolves with the
    /// ordered list of every sibling's `(state, result)` pair, in original
    /// index order regardless of completion order.
    pub fn all(gen: &mut IdGen, siblings: Vec<Promise>) -> (out: Promise)
        requires
            old(gen).next_local < u64::MAX,
        ensures
            IdGen::fresh_step(*old(gen), *final(gen), out.id),
            out.res is None,
            out.reg matches RegCont::FanAll(s) && s == siblings,
            out.dis matches DisCont::FanOut(ids) && ids@ == siblings@.map_values(
                |p: Promise| p.id,
            ),
    {
        let id = gen.fresh();
        let ids = sibling_ids(&siblings);
        Promise { id, reg: RegCont::FanAll(siblings), dis: DisCont::FanOut(ids), res: None }
    }
}

/// The identities of a collection of promises, in order.
pub fn sibling_ids(siblings: &Vec<Promise>) -> (out: Vec<PromiseId>)
    ensures
        out@ == siblings@.map_values(|p: Promise| p.id),
{
    let mut out: Vec<PromiseId> = Vec::new();
    let mut i: usize = 0;
    while i < siblings.len()
        invariant
            i <= siblings.len(),
            out@.len() == i,
            forall|k: int| 0 <= k < i ==> out@[k] == siblings@[k].id,
        decreases siblings.len() - i,
    {
        out.push(siblings[i].id);
        i = i + 1;
    }
    proof {
        assert(out@ =~= siblings@.map_values(|p: Promise| p.id));
    }
    out
}

impl PromiseState {
    pub fn new(value: Val) -> (out: PromiseState)
        ensures
            out == (PromiseState { value }),
    {
        PromiseState { value }
    }

    /// Hand the state over to asynchronous operations.
    pub fn asyn(self) -> (out: AsyncOps)
        ensures
            out == AsyncOps(self.value),
    {
        AsyncOps(self.value)
    }

    /// Finish synchronously with this state and the given result.
    pub fn resolve(self, result: Val) -> (out: PromiseResult)
        ensures
            out == PromiseResult::Resolve(self.value, result),
    {
        PromiseResult::Resolve(self.value, result)
    }

    /// Finish synchronously with this state and the unit result.
    pub fn pass(self) -> (out: PromiseResult)
        ensures
            out == PromiseResult::Resolve(self.value, Val::Unit),
    {
        PromiseResult::Resolve(self.value, Val::Unit)
    }

    /// Transform the carried state.
    pub fn map(self, f: &ValFn) -> (out: PromiseState)
        ensures
            out.value == crate::value::val_fn_apply(*f, self.value),
    {
        PromiseState { value: crate::value::apply_val_fn(f, self.value) }
    }

    /// Replace the carried state.
    pub fn with(self, value: Val) -> (out: PromiseState)
        ensures
            out == (PromiseState { value }),
    {
        PromiseState { value }
    }

    /// Await the given promise, carrying this state past it.
    pub fn and_then(self, gen: &mut IdGen, promise: Promise) -> (out: Promise)
        requires
            old(gen).next_local < u64::MAX,
        ensures
            IdGen::fresh_step(*old(gen), *final(gen), out.id),
            out.dis == promise.dis,
            out.res is None,
            out.reg matches RegCont::Upstream(up) && *up == (Promise {
                id: promise.id,
                reg: promise.reg,
                dis: DisCont::Downstream(out.id),
                res: Some(ResCont::MapState { f: ValFn::ConstVal(self.value), to: out.id }),
            }),
    {
        promise.with(gen, self.value)
    }

    /// Race the given siblings, carrying this state past the combinator.
    pub fn any(self, gen: &mut IdGen, siblings: Vec<Promise>) -> (out: Promise)
        requires
            old(gen).next_local + 1 < u64::MAX,
        ensures
            out.res is None,
            out.reg matches RegCont::Upstream(up) && up.res == Some(
                ResCont::MapState { f: ValFn::ConstVal(self.value), to: out.id },
            ) && up.dis == DisCont::Downstream(out.id) && (up.reg matches RegCont::FanAny(s)
                && s == siblings) && (up.id == (PromiseId {
                worker: old(gen).worker,
                local: old(gen).next_local,
            })) && (up.dis matches DisCont::Downstream(d) && d == out.id),
            final(gen).worker == old(gen).worker,
            final(gen).next_local == old(gen).next_local + 2,
            out.dis matches DisCont::FanOut(ids) && ids@ == siblings@.map_values(
                |q: Promise| q.id,
            ),
    {
        let parent = Promise::any(gen, siblings);
        parent.with(gen, self.value)
    }

    /// Join the given siblings, carrying this state past the combinator.
    pub fn all(self, gen: &mut IdGen, siblings: Vec<Promise>) -> (out: Promise)
        requires
            old(gen).next_local + 1 < u64::MAX,
        ensures
            out.res is None,
            out.reg matches RegCont::Upstream(up) && up.res == Some(
                ResCont::MapState { f: ValFn::ConstVal(self.value), to: out.id },
            ) && up.dis == DisCont::Downstream(out.id) && (up.reg matches RegCont::FanAll(s)
                && s == siblings) && (up.id == (PromiseId {
                worker: old(gen).worker,
                local: old(gen).next_local,
            })),
            final(gen).worker == old(gen).worker,
            final(gen).next_local == old(gen).next_local + 2,
            out.dis matches DisCont::FanOut(ids) && ids@ == siblings@.map_values(
                |q: Promise| q.id,
            ),
    {
        let parent = Promise::all(gen, siblings);
        parent.with(gen, self.value)
    }
}

/// An owned, ordered collection of sibling promises, ready for a
/// combinator.
#[derive(Debug)]
pub struct Promises(pub Vec<Promise>);

impl Promises {
    /// Race the collection: see [`Promise::any`].
    pub fn any(self, gen: &mut IdGen) -> (out: Promise)
        requires
            old(gen).next_local < u64::MAX,
        ensures
            IdGen::fresh_step(*old(gen), *final(gen), out.id),
            out.res is None,
            out.reg matches RegCont::FanAny(s) && s == self.0,
            out.dis matches DisCont::FanOut(ids) && ids@ == self.0@.map_values(
                |p: Promise| p.id,
            ),
    {
        Promise::any(gen, self.0)
    }

    /// Join the collection: see [`Promise::all`].
    pub fn all(self, gen: &mut IdGen) -> (out: Promise)
        requires
            old(gen).next_local < u64::MAX,
        ensures
            IdGen::fresh_step(*old(gen), *final(gen), out.id),
            out.res is None,
            out.reg matches RegCont::FanAll(s) && s == self.0,
            out.dis matches DisCont::FanOut(ids) && ids@ == self.0@.map_values(
                |p: Promise| p.id,
            ),
    {
        Promise::all(gen, self.0)
    }
}

} // verus!

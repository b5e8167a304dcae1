//! Plain payload values threaded through promise chains, and the small
//! algebra of pure transformations that continuations apply to them.
//!
//! The engine coordinates delivery of payloads; what a payload means
//! belongs to callers. A payload is a [`Val`]: unit, a number, a pair, or
//! an ordered list — enough to carry a chain's state and result, the
//! `(state, result)` pair an `any` combinator delivers, and the ordered
//! collection an `all` combinator delivers.

use vstd::prelude::*;

verus! {

/// A payload value: the state or result carried along a promise chain.
/// Lists are built from `Nil` and `Cons` so that equality of payloads is
/// structural all the way down.
#[derive(Debug, PartialEq, Eq)]
pub enum Val {
    Unit,
    Num(u64),
    Pair(Box<Val>, Box<Val>),
    Nil,
    Cons(Box<Val>, Box<Val>),
}

/// The list value holding the elements of `s` in order.
pub open spec fn list_of(s: Seq<Val>) -> Val
    decreases s.len(),
{
    if s.len() == 0 {
        Val::Nil
    } else {
        Val::Cons(Box::new(s[0]), Box::new(list_of(s.drop_first())))
    }
}

/// Structural copy of a payload value.
pub fn clone_val(v: &Val) -> (out: Val)
    ensures
        out == *v,
    decreases *v,
{
    match v {
        Val::Unit => Val::Unit,
        Val::Num(n) => Val::Num(*n),
        Val::Pair(a, b) => Val::Pair(Box::new(clone_val(a)), Box::new(clone_val(b))),
        Val::Nil => Val::Nil,
        Val::Cons(h, t) => Val::Cons(Box::new(clone_val(h)), Box::new(clone_val(t))),
    }
}

/// A pure transformation of one payload value, written as data so that a
/// stored continuation can apply it later, exactly once.
#[derive(Debug, PartialEq, Eq)]
pub enum ValFn {
    /// Leave the value unchanged.
    Ident,
    /// Replace the value.
    ConstVal(Val),
    /// Add to a numeric value, saturating; leave other shapes unchanged.
    AddNum(u64),
    /// Apply the first transformation, and feed its output to the second.
    Compose(Box<ValFn>, Box<ValFn>),
}

/// What applying a [`ValFn`] yields.
pub open spec fn val_fn_apply(f: ValFn, v: Val) -> Val
    decreases f,
{
    match f {
        ValFn::Ident => v,
        ValFn::ConstVal(c) => c,
        ValFn::AddNum(n) => match v {
            Val::Num(m) => if m + n <= u64::MAX {
                Val::Num((m + n) as u64)
            } else {
                Val::Num(u64::MAX)
            },
            other => other,
        },
        ValFn::Compose(a, b) => val_fn_apply(*b, val_fn_apply(*a, v)),
    }
}

/// Apply a pure transformation to a payload value.
pub fn apply_val_fn(f: &ValFn, v: Val) -> (out: Val)
    ensures
        out == val_fn_apply(*f, v),
    decreases *f,
{
    match f {
        ValFn::Ident => v,
        ValFn::ConstVal(c) => clone_val(c),
        ValFn::AddNum(n) => match v {
            Val::Num(m) => {
                if m <= u64::MAX - *n {
                    Val::Num(m + *n)
                } else {
                    Val::Num(u64::MAX)
                }
            },
            other => other,
        },
        ValFn::Compose(a, b) => {
            let mid = apply_val_fn(a, v);
            apply_val_fn(b, mid)
        },
    }
}

/// The body of a continuation handed to a chaining operator: it receives
/// the upstream `(state, result)` pair and either finishes synchronously,
/// right now, or hands back a fresh node to await.
#[derive(Debug, PartialEq, Eq)]
pub enum StepFn {
    /// Finish synchronously: transform the state and the result.
    ResolveWith { state_fn: ValFn, result_fn: ValFn },
    /// Not finished: wait on a new externally controlled node. The token
    /// is echoed to the external collaborator through the effect journal.
    AwaitExternal { token: u64 },
}

impl StepFn {
    /// Whether this continuation finishes synchronously.
    pub open spec fn is_sync(self) -> bool {
        self is ResolveWith
    }

    /// The state a synchronous continuation delivers.
    pub open spec fn sync_state(self, s: Val) -> Val {
        val_fn_apply(self->ResolveWith_state_fn, s)
    }

    /// The result a synchronous continuation delivers.
    pub open spec fn sync_result(self, r: Val) -> Val {
        val_fn_apply(self->ResolveWith_result_fn, r)
    }
}

/// Chain associativity at the transformation level: applying two pure
/// transformations one after the other yields the same value as applying
/// their composition. Together with the synchronous-chain clause of
/// `promise_resolve`, this is why chaining two continuations and chaining
/// their composition deliver the same final `(state, result)` pair.
pub proof fn lemma_compose_apply(a: ValFn, b: ValFn, v: Val)
    ensures
        val_fn_apply(ValFn::Compose(Box::new(a), Box::new(b)), v) == val_fn_apply(
            b,
            val_fn_apply(a, v),
        ),
{
}

/// Sequential composition of two synchronous continuations: one
/// continuation that behaves as the first followed by the second.
pub fn step_seq(first: StepFn, second: StepFn) -> (out: StepFn)
    requires
        first.is_sync(),
        second.is_sync(),
    ensures
        out.is_sync(),
        forall|s: Val| out.sync_state(s) == second.sync_state(first.sync_state(s)),
        forall|r: Val| out.sync_result(r) == second.sync_result(first.sync_result(r)),
{
    match (first, second) {
        (
            StepFn::ResolveWith { state_fn: fs, result_fn: fr },
            StepFn::ResolveWith { state_fn: gs, result_fn: gr },
        ) => StepFn::ResolveWith {
            state_fn: ValFn::Compose(Box::new(fs), Box::new(gs)),
            result_fn: ValFn::Compose(Box::new(fr), Box::new(gr)),
        },
        _ => StepFn::ResolveWith { state_fn: ValFn::Ident, result_fn: ValFn::Ident },
    }
}

} // verus!

use pecs_core::context::{promise_discard, promise_register, promise_resolve, promise_route, Context, Effect, LogEvent};
use pecs_core::id::{IdGen, PromiseId};
use pecs_core::promise::{DisCont, Promise, PromiseResult, PromiseState, RegCont, ResCont};
use pecs_core::value::{StepFn, Val, ValFn};

fn sync_step(state_fn: ValFn, result_fn: ValFn) -> StepFn {
    StepFn::ResolveWith { state_fn, result_fn }
}

fn pending_ids(ctx: &Context) -> Vec<PromiseId> {
    ctx.reg.iter().map(|e| e.0).collect()
}

#[test]
fn identity_generation_is_unique() {
    let mut a = IdGen::new(1);
    let mut b = IdGen::new(2);
    let mut seen: Vec<PromiseId> = Vec::new();
    for _ in 0..10 {
        seen.push(a.fresh());
        seen.push(b.fresh());
    }
    for i in 0..seen.len() {
        for j in (i + 1)..seen.len() {
            assert_ne!(seen[i], seen[j]);
        }
    }
}

#[test]
fn root_promise_resolves_synchronously() {
    let mut ctx = Context::new(7);
    let p = Promise::new(
        &mut ctx.gen,
        Val::Num(1),
        sync_step(ValFn::Ident, ValFn::ConstVal(Val::Num(10))),
    );
    let pid = p.id;
    promise_register(&mut ctx, p);
    assert_eq!(ctx.journal, vec![(pid, Val::Num(1), Val::Num(10))]);
    assert!(pending_ids(&ctx).is_empty());
    assert!(ctx.log.is_empty());
}

#[test]
fn chained_continuation_transforms_state_and_result() {
    let mut ctx = Context::new(7);
    let p = Promise::new(
        &mut ctx.gen,
        Val::Num(1),
        sync_step(ValFn::Ident, ValFn::ConstVal(Val::Num(10))),
    );
    let q = p.and_then(&mut ctx.gen, sync_step(ValFn::Ident, ValFn::AddNum(5)));
    let qid = q.id;
    promise_register(&mut ctx, q);
    assert_eq!(ctx.journal, vec![(qid, Val::Num(1), Val::Num(15))]);
    assert!(pending_ids(&ctx).is_empty());
}

#[test]
fn map_and_with_rewrite_one_side_only() {
    let mut ctx = Context::new(3);
    let p = Promise::new(
        &mut ctx.gen,
        Val::Num(8),
        sync_step(ValFn::Ident, ValFn::ConstVal(Val::Num(2))),
    );
    let q = p.map(&mut ctx.gen, ValFn::AddNum(1));
    let r = q.map_result(&mut ctx.gen, ValFn::AddNum(100));
    let s = r.with(&mut ctx.gen, Val::Num(77));
    let sid = s.id;
    promise_register(&mut ctx, s);
    // state: 8 -> 9 (map) -> 77 (with); result: 2 -> 102 (map_result)
    assert_eq!(ctx.journal, vec![(sid, Val::Num(77), Val::Num(102))]);
}

#[test]
fn with_result_replaces_the_result() {
    let mut ctx = Context::new(3);
    let p = Promise::new(
        &mut ctx.gen,
        Val::Unit,
        sync_step(ValFn::Ident, ValFn::ConstVal(Val::Num(1))),
    );
    let q = p.with_result(&mut ctx.gen, Val::Num(42));
    let qid = q.id;
    promise_register(&mut ctx, q);
    assert_eq!(ctx.journal, vec![(qid, Val::Unit, Val::Num(42))]);
}

#[test]
fn external_promise_announces_and_awaits() {
    let mut ctx = Context::new(7);
    let p = Promise::register(&mut ctx.gen, 42);
    let pid = p.id;
    let q = p.and_then(&mut ctx.gen, sync_step(ValFn::Ident, ValFn::AddNum(1)));
    let qid = q.id;
    promise_register(&mut ctx, q);
    assert_eq!(ctx.effects, vec![Effect::ExternalStart { token: 42, id: pid }]);
    assert!(ctx.journal.is_empty());
    assert_eq!(pending_ids(&ctx), vec![qid, pid]);

    promise_resolve(&mut ctx, pid, Val::Num(5), Val::Num(9));
    assert_eq!(ctx.journal, vec![(qid, Val::Num(5), Val::Num(10))]);
    assert!(pending_ids(&ctx).is_empty());
}

#[test]
fn stale_resolve_is_a_logged_noop() {
    let mut ctx = Context::new(7);
    let ghost_id = PromiseId { worker: 7, local: 99 };
    promise_resolve(&mut ctx, ghost_id, Val::Unit, Val::Num(1));
    assert_eq!(ctx.log, vec![LogEvent::StaleResolve(ghost_id)]);
    assert!(ctx.journal.is_empty());
}

#[test]
fn idempotent_teardown_discard_twice() {
    let mut ctx = Context::new(7);
    let p = Promise::register(&mut ctx.gen, 9);
    let pid = p.id;
    promise_register(&mut ctx, p);
    assert_eq!(pending_ids(&ctx), vec![pid]);

    promise_discard(&mut ctx, pid);
    assert!(pending_ids(&ctx).is_empty());
    assert_eq!(ctx.effects, vec![
        Effect::ExternalStart { token: 9, id: pid },
        Effect::ExternalCancel { token: 9, id: pid },
    ]);

    // The second discard is a pure no-op with one diagnostic: no panic,
    // no duplicate cleanup, no change to the registry or the journals.
    let effects_before = ctx.effects.len();
    promise_discard(&mut ctx, pid);
    assert_eq!(ctx.effects.len(), effects_before);
    assert_eq!(ctx.log, vec![LogEvent::StaleDiscard(pid)]);
    assert!(ctx.journal.is_empty());
}

#[test]
fn cancellation_propagates_downstream_not_upstream() {
    let mut ctx = Context::new(7);
    let p = Promise::register(&mut ctx.gen, 11);
    let pid = p.id;
    let q = p.and_then(&mut ctx.gen, sync_step(ValFn::Ident, ValFn::Ident));
    let qid = q.id;
    promise_register(&mut ctx, q);
    assert_eq!(pending_ids(&ctx), vec![qid, pid]);

    // Discarding the node produced by the chaining operator runs the
    // chain's own cleanup but leaves the upstream node pending.
    promise_discard(&mut ctx, qid);
    assert_eq!(pending_ids(&ctx), vec![pid]);
    assert!(ctx.journal.is_empty());

    // Discarding the upstream propagates downstream (already gone).
    promise_discard(&mut ctx, pid);
    assert!(pending_ids(&ctx).is_empty());
}

#[test]
fn deferred_commands_resolve_on_flush() {
    let mut ctx = Context::new(7);
    let p = Promise::register(&mut ctx.gen, 1);
    let pid = p.id;
    let q = p.and_then(&mut ctx.gen, sync_step(ValFn::Ident, ValFn::AddNum(1)));
    let qid = q.id;
    promise_register(&mut ctx, q);

    ctx.defer_resolve(pid, Val::Num(30));
    assert!(ctx.journal.is_empty());
    ctx.flush_deferred();
    assert_eq!(ctx.journal, vec![(qid, Val::Unit, Val::Num(31))]);
    assert!(ctx.deferred.is_empty());
}

#[test]
fn promise_state_carries_value_past_a_promise() {
    let mut ctx = Context::new(4);
    let inner = Promise::new(
        &mut ctx.gen,
        Val::Unit,
        sync_step(ValFn::Ident, ValFn::ConstVal(Val::Num(6))),
    );
    let carried = PromiseState::new(Val::Num(50)).and_then(&mut ctx.gen, inner);
    let cid = carried.id;
    promise_register(&mut ctx, carried);
    assert_eq!(ctx.journal, vec![(cid, Val::Num(50), Val::Num(6))]);
}

#[test]
fn promise_state_hands_value_to_async_ops() {
    let ops = PromiseState::new(Val::Num(2)).asyn();
    assert_eq!(ops, pecs_core::promise::AsyncOps(Val::Num(2)));
}

#[test]
fn promise_result_from_promise_awaits_it() {
    let mut gen = IdGen::new(1);
    let p = Promise::register(&mut gen, 5);
    let pid = p.id;
    let outcome = PromiseResult::from(p);
    match outcome {
        PromiseResult::Await(node) => assert_eq!(node.id, pid),
        _ => panic!("expected an awaited node"),
    }
}

#[test]
fn promise_state_transformations() {
    let st = PromiseState::new(Val::Num(3));
    let st = st.map(&ValFn::AddNum(4));
    assert_eq!(st.value, Val::Num(7));
    let st = st.with(Val::Num(1));
    assert_eq!(st.value, Val::Num(1));
    match st.resolve(Val::Num(2)) {
        PromiseResult::Resolve(s, r) => {
            assert_eq!(s, Val::Num(1));
            assert_eq!(r, Val::Num(2));
        },
        _ => panic!("expected a synchronous resolution"),
    }
}

#[test]
fn route_synchronous_outcome_resolves_downstream() {
    let mut ctx = Context::new(7);
    let p = Promise::register(&mut ctx.gen, 6);
    let pid = p.id;
    promise_register(&mut ctx, p);
    promise_route(&mut ctx, pid, PromiseResult::Resolve(Val::Num(4), Val::Num(8)));
    assert_eq!(ctx.journal, vec![(pid, Val::Num(4), Val::Num(8))]);
}

#[test]
fn route_awaited_node_splices_into_downstream() {
    let mut ctx = Context::new(7);
    let downstream = Promise::register(&mut ctx.gen, 1);
    let did = downstream.id;
    promise_register(&mut ctx, downstream);

    let awaited = Promise::register(&mut ctx.gen, 2);
    let aid = awaited.id;
    promise_route(&mut ctx, did, PromiseResult::Await(awaited));
    assert!(ctx.journal.is_empty());

    promise_resolve(&mut ctx, aid, Val::Num(1), Val::Num(2));
    assert_eq!(ctx.journal, vec![(did, Val::Num(1), Val::Num(2))]);
}

#[test]
fn route_rejects_double_resolve_wiring() {
    let mut ctx = Context::new(7);
    let downstream = Promise::register(&mut ctx.gen, 1);
    let did = downstream.id;
    promise_register(&mut ctx, downstream);

    // A node that already carries a resolve continuation: two
    // continuations would race to claim the downstream identity.
    let other = ctx.gen.fresh();
    let misconfigured = Promise {
        id: ctx.gen.fresh(),
        reg: RegCont::External { token: 3 },
        dis: DisCont::Nothing,
        res: Some(ResCont::Forward(other)),
    };
    let mid = misconfigured.id;
    let pending_before: Vec<PromiseId> = ctx.reg.iter().map(|e| e.0).collect();
    promise_route(&mut ctx, did, PromiseResult::Await(misconfigured));
    let pending_after: Vec<PromiseId> = ctx.reg.iter().map(|e| e.0).collect();
    assert_eq!(pending_before, pending_after);
    assert_eq!(ctx.log, vec![LogEvent::MisconfiguredResolve(mid)]);
    assert!(ctx.journal.is_empty());
}

#[test]
fn duplicate_registration_is_rejected() {
    let mut ctx = Context::new(7);
    let p = Promise::register(&mut ctx.gen, 1);
    let pid = p.id;
    promise_register(&mut ctx, p);
    assert_eq!(ctx.effects.len(), 1);

    // A second node under an identity that is already pending is dropped
    // with a diagnostic; the registry and the announcements are untouched.
    let forged = Promise { id: pid, reg: RegCont::External { token: 2 }, dis: DisCont::Nothing, res: None };
    promise_register(&mut ctx, forged);
    assert!(ctx.log.contains(&LogEvent::RejectedRegister(pid)));
    assert_eq!(ctx.effects.len(), 1);
    assert_eq!(ctx.reg.len(), 1);
}

#[test]
fn exhausted_identity_space_drops_await_branch() {
    let mut ctx = Context::new(7);
    let p = Promise::new(&mut ctx.gen, Val::Unit, StepFn::AwaitExternal { token: 1 });
    ctx.gen.next_local = u64::MAX;
    promise_register(&mut ctx, p);
    assert!(ctx.log.contains(&LogEvent::IdsExhausted));
    assert!(ctx.effects.is_empty());
    assert!(ctx.journal.is_empty());
}

#[test]
fn numeric_transformation_saturates() {
    assert_eq!(pecs_core::value::apply_val_fn(&ValFn::AddNum(1), Val::Num(u64::MAX - 1)), Val::Num(u64::MAX));
    assert_eq!(pecs_core::value::apply_val_fn(&ValFn::AddNum(5), Val::Num(u64::MAX)), Val::Num(u64::MAX));
    assert_eq!(pecs_core::value::apply_val_fn(&ValFn::AddNum(5), Val::Unit), Val::Unit);
}

use pecs_core::context::{promise_discard, promise_register, promise_resolve, Context, Effect, LogEvent};
use pecs_core::id::PromiseId;
use pecs_core::promise::{Promise, Promises};
use pecs_core::value::{step_seq, StepFn, Val, ValFn};

fn sync_step(state_fn: ValFn, result_fn: ValFn) -> StepFn {
    StepFn::ResolveWith { state_fn, result_fn }
}

fn pending_ids(ctx: &Context) -> Vec<PromiseId> {
    ctx.reg.iter().map(|e| e.0).collect()
}

fn pair(a: Val, b: Val) -> Val {
    Val::Pair(Box::new(a), Box::new(b))
}

fn list(items: Vec<Val>) -> Val {
    let mut out = Val::Nil;
    for item in items.into_iter().rev() {
        out = Val::Cons(Box::new(item), Box::new(out));
    }
    out
}

#[test]
fn chain_associativity_same_delivery() {
    // p.and_then(f).and_then(g) delivers the same (state, result) pair as
    // p.and_then(f composed with g) when both resolve synchronously.
    let f = || sync_step(ValFn::AddNum(1), ValFn::ConstVal(Val::Num(10)));
    let g = || sync_step(ValFn::AddNum(2), ValFn::AddNum(5));

    let mut ctx1 = Context::new(7);
    let p1 = Promise::new(&mut ctx1.gen, Val::Num(0), sync_step(ValFn::Ident, ValFn::Ident));
    let chained = p1.and_then(&mut ctx1.gen, f()).and_then(&mut ctx1.gen, g());
    promise_register(&mut ctx1, chained);

    let mut ctx2 = Context::new(7);
    let p2 = Promise::new(&mut ctx2.gen, Val::Num(0), sync_step(ValFn::Ident, ValFn::Ident));
    let composed = p2.and_then(&mut ctx2.gen, step_seq(f(), g()));
    promise_register(&mut ctx2, composed);

    assert_eq!(ctx1.journal.len(), 1);
    assert_eq!(ctx2.journal.len(), 1);
    // identities differ (different numbers of nodes), payloads agree
    assert_eq!(ctx1.journal[0].1, ctx2.journal[0].1);
    assert_eq!(ctx1.journal[0].2, ctx2.journal[0].2);
    assert_eq!(ctx1.journal[0].1, Val::Num(3));
    assert_eq!(ctx1.journal[0].2, Val::Num(15));
}

#[test]
fn any_sync_sibling_wins_and_pending_sibling_is_discarded() {
    // Two siblings: one resolving synchronously during registration with
    // result 10, the other registered but pending. The combined promise
    // resolves immediately with (state0, 10), and the pending sibling's
    // identity is discarded before control returns.
    let mut ctx = Context::new(7);
    let p0 = Promise::new(
        &mut ctx.gen,
        Val::Num(100),
        sync_step(ValFn::Ident, ValFn::ConstVal(Val::Num(10))),
    );
    let p1 = Promise::register(&mut ctx.gen, 55);
    let p1id = p1.id;
    let parent = Promise::any(&mut ctx.gen, vec![p0, p1]);
    let parent_id = parent.id;
    promise_register(&mut ctx, parent);

    assert_eq!(ctx.journal, vec![(parent_id, Val::Unit, pair(Val::Num(100), Val::Num(10)))]);
    assert!(pending_ids(&ctx).is_empty());
    assert!(ctx.effects.contains(&Effect::ExternalCancel { token: 55, id: p1id }));

    // A follow-up resolve of the losing sibling is a logged no-op.
    promise_resolve(&mut ctx, p1id, Val::Unit, Val::Num(999));
    assert_eq!(ctx.journal, vec![(parent_id, Val::Unit, pair(Val::Num(100), Val::Num(10)))]);
    assert!(ctx.log.contains(&LogEvent::StaleResolve(p1id)));
}

#[test]
fn any_first_registered_wins_on_simultaneous_resolution() {
    // Both siblings resolve synchronously during registration: the first
    // one registered wins; the second's resolution against the parent is
    // a logged no-op.
    let mut ctx = Context::new(7);
    let p0 = Promise::new(
        &mut ctx.gen,
        Val::Num(0),
        sync_step(ValFn::Ident, ValFn::ConstVal(Val::Num(10))),
    );
    let p1 = Promise::new(
        &mut ctx.gen,
        Val::Num(1),
        sync_step(ValFn::Ident, ValFn::ConstVal(Val::Num(20))),
    );
    let parent = Promise::any(&mut ctx.gen, vec![p0, p1]);
    let parent_id = parent.id;
    promise_register(&mut ctx, parent);

    assert_eq!(ctx.journal, vec![(parent_id, Val::Unit, pair(Val::Num(0), Val::Num(10)))]);
    assert!(ctx.log.contains(&LogEvent::StaleResolve(parent_id)));
    assert!(pending_ids(&ctx).is_empty());
}

#[test]
fn any_parent_discard_discards_all_siblings() {
    let mut ctx = Context::new(7);
    let p0 = Promise::register(&mut ctx.gen, 1);
    let p1 = Promise::register(&mut ctx.gen, 2);
    let p0id = p0.id;
    let p1id = p1.id;
    let parent = Promise::any(&mut ctx.gen, vec![p0, p1]);
    let parent_id = parent.id;
    promise_register(&mut ctx, parent);
    assert_eq!(pending_ids(&ctx), vec![parent_id, p0id, p1id]);

    promise_discard(&mut ctx, parent_id);
    assert!(pending_ids(&ctx).is_empty());
    assert!(ctx.effects.contains(&Effect::ExternalCancel { token: 1, id: p0id }));
    assert!(ctx.effects.contains(&Effect::ExternalCancel { token: 2, id: p1id }));
    assert!(ctx.journal.is_empty());
}

#[test]
fn all_collects_in_index_order_despite_completion_order() {
    // Three siblings resolving out of order (index 2 first, 0 next, 1
    // last): the collected list matches original indices, not completion
    // order.
    let mut ctx = Context::new(7);
    let s0 = Promise::register(&mut ctx.gen, 1);
    let s1 = Promise::register(&mut ctx.gen, 2);
    let s2 = Promise::register(&mut ctx.gen, 3);
    let (i0, i1, i2) = (s0.id, s1.id, s2.id);
    let parent = Promise::all(&mut ctx.gen, vec![s0, s1, s2]);
    let parent_id = parent.id;
    promise_register(&mut ctx, parent);
    assert_eq!(pending_ids(&ctx).len(), 4);
    assert!(ctx.journal.is_empty());

    promise_resolve(&mut ctx, i2, Val::Num(102), Val::Num(2));
    assert!(ctx.journal.is_empty());
    promise_resolve(&mut ctx, i0, Val::Num(100), Val::Num(0));
    assert!(ctx.journal.is_empty());
    promise_resolve(&mut ctx, i1, Val::Num(101), Val::Num(1));

    let expected = list(vec![
        pair(Val::Num(100), Val::Num(0)),
        pair(Val::Num(101), Val::Num(1)),
        pair(Val::Num(102), Val::Num(2)),
    ]);
    assert_eq!(ctx.journal, vec![(parent_id, Val::Unit, expected)]);
    assert!(pending_ids(&ctx).is_empty());
}

#[test]
fn all_with_synchronous_siblings_resolves_during_registration() {
    let mut ctx = Context::new(7);
    let s0 = Promise::new(
        &mut ctx.gen,
        Val::Num(1),
        sync_step(ValFn::Ident, ValFn::ConstVal(Val::Num(11))),
    );
    let s1 = Promise::new(
        &mut ctx.gen,
        Val::Num(2),
        sync_step(ValFn::Ident, ValFn::ConstVal(Val::Num(22))),
    );
    let parent = Promise::all(&mut ctx.gen, vec![s0, s1]);
    let parent_id = parent.id;
    promise_register(&mut ctx, parent);

    let expected = list(vec![
        pair(Val::Num(1), Val::Num(11)),
        pair(Val::Num(2), Val::Num(22)),
    ]);
    assert_eq!(ctx.journal, vec![(parent_id, Val::Unit, expected)]);
    assert!(pending_ids(&ctx).is_empty());
}

#[test]
fn all_parent_discard_discards_all_siblings() {
    let mut ctx = Context::new(7);
    let s0 = Promise::register(&mut ctx.gen, 4);
    let s1 = Promise::register(&mut ctx.gen, 5);
    let (i0, i1) = (s0.id, s1.id);
    let parent = Promise::all(&mut ctx.gen, vec![s0, s1]);
    let parent_id = parent.id;
    promise_register(&mut ctx, parent);

    promise_discard(&mut ctx, parent_id);
    assert!(pending_ids(&ctx).is_empty());
    assert!(ctx.effects.contains(&Effect::ExternalCancel { token: 4, id: i0 }));
    assert!(ctx.effects.contains(&Effect::ExternalCancel { token: 5, id: i1 }));
    assert!(ctx.journal.is_empty());
}

#[test]
fn promises_collection_front_end() {
    let mut ctx = Context::new(9);
    let p0 = Promise::new(
        &mut ctx.gen,
        Val::Num(5),
        sync_step(ValFn::Ident, ValFn::ConstVal(Val::Num(50))),
    );
    let p1 = Promise::register(&mut ctx.gen, 8);
    let parent = Promises(vec![p0, p1]).any(&mut ctx.gen);
    let parent_id = parent.id;
    promise_register(&mut ctx, parent);
    assert_eq!(ctx.journal, vec![(parent_id, Val::Unit, pair(Val::Num(5), Val::Num(50)))]);
}

#[test]
fn awaiting_continuation_splices_external_node() {
    // A continuation that returns an awaited external node: the chain
    // suspends, and resolving the external identity later feeds the
    // downstream identity.
    let mut ctx = Context::new(7);
    let p = Promise::new(
        &mut ctx.gen,
        Val::Num(1),
        StepFn::AwaitExternal { token: 77 },
    );
    let pid = p.id;
    promise_register(&mut ctx, p);
    assert!(ctx.journal.is_empty());
    assert_eq!(ctx.effects.len(), 1);
    let eid = match ctx.effects[0] {
        Effect::ExternalStart { token, id } => {
            assert_eq!(token, 77);
            id
        },
        _ => panic!("expected a start announcement"),
    };

    promise_resolve(&mut ctx, eid, Val::Num(2), Val::Num(3));
    assert_eq!(ctx.journal, vec![(pid, Val::Num(2), Val::Num(3))]);
    assert!(pending_ids(&ctx).is_empty());
}

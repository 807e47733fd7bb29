//! How turns of the event loop end.
use crate::event_loop::{unrefed_count, EventLoopPendingState};
use crate::isolate::Isolate;
use crate::ops::CompletedOp;
use crate::pending::pending_count;
use crate::state::{ContextState, JsRuntimeState};
use crate::turn::{end_turn, queued, run_middlewares, Turn};
use vstd::prelude::*;

verus! {

/// JavaScript waits for every pending op of every realm.
pub open spec fn waits_for_all(slots: Seq<ContextState>) -> bool {
    forall|r: int| 0 <= r < slots.len() ==> (#[trigger] slots[r]).unrefed_ops@.len() == 0
}

/// The ops that JavaScript does not wait for are counted over all realms: none where each realm
/// waits for all, and a realm that changes what it waits for changes the count by as much.
pub proof fn unrefed_ops_are_summed(slots: Seq<ContextState>, r: int, slot: ContextState)
    requires
        0 <= r < slots.len(),
    ensures
        waits_for_all(slots) ==> unrefed_count(slots) == 0,
        unrefed_count(slots) >= slots[r].unrefed_ops@.len(),
        unrefed_count(slots.update(r, slot)) - unrefed_count(slots) == slot.unrefed_ops@.len()
            - slots[r].unrefed_ops@.len(),
    decreases slots.len(),
{
    let fewer = slots.drop_last();
    let last = slots.len() - 1;
    if waits_for_all(slots) {
        assert forall|k: int| 0 <= k < fewer.len() implies (#[trigger] fewer[k]).unrefed_ops@.len()
            == 0 by {
            assert(slots[k].unrefed_ops@.len() == 0);
        }
        assert(slots[last].unrefed_ops@.len() == 0);
    }
    if fewer.len() > 0 {
        unrefed_ops_are_summed(fewer, if r < last { r } else { 0 }, slot);
    }
    if r < last {
        assert(slots.update(r, slot).drop_last() == fewer.update(r, slot));
    } else {
        assert(slots.update(r, slot).drop_last() == fewer);
    }
}

/// A turn is the last one exactly where no tick is scheduled, no middleware may have scheduled
/// anything, and there are no more pending ops than those that JavaScript does not wait for. Any
/// other turn asks to be polled again at once exactly where an op was queued that was not polled
/// since, a tick is scheduled, or middleware may have scheduled something. No turn ends in an error.
pub proof fn turns_end_or_ask_to_be_polled<B>(
    isolate: Isolate<B>,
    maybe_scheduling: bool,
    turn: Turn,
)
    requires
        isolate.state is Some,
        call_ensures(end_turn::<B>, (&isolate, maybe_scheduling), turn),
    ensures
        turn is Ready <==> {
            &&& !isolate.state->0.has_tick_scheduled
            &&& !maybe_scheduling
            &&& pending_count(isolate.state->0.pending_ops) <= unrefed_count(isolate.slots@)
        },
        turn matches Turn::Ready(result) ==> result is Ok,
        turn matches Turn::Pending { wake } ==> (wake <==> {
            ||| isolate.state->0.have_unpolled_ops
            ||| isolate.state->0.has_tick_scheduled
            ||| maybe_scheduling
        }),
{
}

/// Work keeps the event loop going: a turn with a tick, with something that middleware scheduled,
/// or with a pending op where JavaScript waits for all, is not the last.
pub proof fn work_is_never_left<B>(isolate: Isolate<B>, maybe_scheduling: bool, turn: Turn)
    requires
        isolate.state is Some,
        call_ensures(end_turn::<B>, (&isolate, maybe_scheduling), turn),
        isolate.state->0.has_tick_scheduled || maybe_scheduling || (pending_count(
            isolate.state->0.pending_ops,
        ) > 0 && waits_for_all(isolate.slots@)),
    ensures
        turn is Pending,
        isolate.state->0.have_unpolled_ops ==> turn == (Turn::Pending { wake: true }),
{
    if isolate.slots@.len() > 0 {
        unrefed_ops_are_summed(isolate.slots@, 0, isolate.slots@[0]);
    }
}

/// An op that was queued is polled again: where JavaScript waits for all ops, the turn in which it
/// was queued is not the last, and asks to be polled again at once.
pub proof fn queued_ops_are_polled<B>(
    before: Isolate<B>,
    after: Isolate<B>,
    done: Option<CompletedOp>,
    maybe_scheduling: bool,
    turn: Turn,
)
    requires
        before.state is Some,
        queued(before, after, done),
        waits_for_all(before.slots@),
        call_ensures(end_turn::<B>, (&after, maybe_scheduling), turn),
    ensures
        turn == (Turn::Pending { wake: true }),
        after.state->0.has_tick_scheduled == before.state->0.has_tick_scheduled,
{
    if before.slots@.len() > 0 {
        unrefed_ops_are_summed(before.slots@, 0, before.slots@[0]);
    }
}

/// One op less that JavaScript waits for, or one pending op more, can only keep the loop going.
pub proof fn more_work_never_ends_the_loop<B>(
    isolate: Isolate<B>,
    busier: Isolate<B>,
    maybe_scheduling: bool,
    turn: Turn,
    busier_turn: Turn,
)
    requires
        isolate.state is Some,
        busier.state is Some,
        pending_count(isolate.state->0.pending_ops) <= pending_count(
            busier.state->0.pending_ops,
        ),
        unrefed_count(busier.slots@) <= unrefed_count(isolate.slots@),
        isolate.state->0.has_tick_scheduled ==> busier.state->0.has_tick_scheduled,
        isolate.state->0.have_unpolled_ops ==> busier.state->0.have_unpolled_ops,
        call_ensures(end_turn::<B>, (&isolate, maybe_scheduling), turn),
        call_ensures(end_turn::<B>, (&busier, maybe_scheduling), busier_turn),
    ensures
        busier_turn is Ready ==> turn is Ready,
        turn == (Turn::Pending { wake: true }) ==> busier_turn == turn,
{
}

/// What keeps the event loop going is told as it is, and either part of it is enough.
pub proof fn pending_state_is_told(
    slots: Vec<ContextState>,
    state: JsRuntimeState,
    pending: EventLoopPendingState,
    is_pending: bool,
)
    requires
        call_ensures(EventLoopPendingState::new, (&slots, &state), pending),
        call_ensures(EventLoopPendingState::is_pending, (&pending,), is_pending),
    ensures
        pending.has_tick_scheduled == state.has_tick_scheduled,
        pending.has_pending_refed_ops <==> pending_count(state.pending_ops) > unrefed_count(
            slots@,
        ),
        state.has_tick_scheduled ==> is_pending,
        pending_count(state.pending_ops) > unrefed_count(slots@) ==> is_pending,
        is_pending ==> state.has_tick_scheduled || pending_count(state.pending_ops)
            > unrefed_count(slots@),
{
}

/// All event loop middleware is asked, and one that may have scheduled something is enough.
pub proof fn any_middleware_schedules<F: Fn(usize) -> bool>(
    ids: Vec<usize>,
    middleware: F,
    scheduling: bool,
)
    requires
        call_ensures(run_middlewares::<F>, (&ids, &middleware), scheduling),
    ensures
        scheduling ==> exists|i: int|
            0 <= i < ids@.len() && #[trigger] call_ensures(middleware, (ids@[i],), true),
        !scheduling ==> forall|i: int|
            0 <= i < ids@.len() ==> #[trigger] call_ensures(middleware, (ids@[i],), false),
{
    let answers = choose|answers: Seq<bool>| #[trigger]
        crate::turn::are_answers(middleware, ids@, answers) && scheduling == answers.contains(true);
    if scheduling {
        let i = choose|i: int| 0 <= i < answers.len() && answers[i] == true;
        assert(call_ensures(middleware, (ids@[i],), answers[i]));
    } else {
        assert forall|i: int| 0 <= i < ids@.len() implies #[trigger] call_ensures(
            middleware,
            (ids@[i],),
            false,
        ) by {
            assert(!answers[i]);
        }
    }
}

} // verus!

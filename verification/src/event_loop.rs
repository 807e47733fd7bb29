//! The turns of the event loop.
use crate::backend::{
    called, serialized_views, BackendEvent, Call, JsBackend, Run,
};
use crate::data::{
    max_string_length, undefined, Exception, Function, String as JsString, Value, ValueView,
};
use crate::error::{formatted, Error, JsError};
use crate::handle::{Global, HandleInternal, Local};
use crate::isolate::Isolate;
use crate::ops::{counted, CompletedOp, OpState, OpsTracker, PromiseId, RealmIdx};
use crate::pending::{pending_count, pending_len};
use crate::scope::{HandleScope, TryCatch};
use crate::serde::{Serialized, SerializedView};
use crate::state::{ContextState, JsRuntimeState};
use crate::text::{trim_start_matches, trimmed_start};
use vstd::prelude::*;
use vstd::utf8::encode_utf8;

verus! {

/// What keeps the event loop going.
#[derive(Clone, Copy, PartialEq, Eq, Debug, Structural)]
pub struct EventLoopPendingState {
    pub has_pending_refed_ops: bool,
    pub has_tick_scheduled: bool,
}

/// How many promises there are, in all realms, that JavaScript does not wait for.
pub open spec fn unrefed_count(slots: Seq<ContextState>) -> nat
    decreases slots.len(),
{
    if slots.len() == 0 {
        0
    } else {
        unrefed_count(slots.drop_last()) + slots.last().unrefed_ops@.len()
    }
}

/// There are more pending ops than those that JavaScript does not wait for.
pub open spec fn has_refed_ops(slots: Seq<ContextState>, state: JsRuntimeState) -> bool {
    pending_count(state.pending_ops) > unrefed_count(slots)
}

impl EventLoopPendingState {
    pub fn new(slots: &Vec<ContextState>, state: &JsRuntimeState) -> (pending: Self)
        ensures
            pending.has_pending_refed_ops == has_refed_ops(slots@, *state),
            pending.has_tick_scheduled == state.has_tick_scheduled,
    {
        let mut num_unrefed_ops: u128 = 0;
        let mut i: usize = 0;
        while i < slots.len()
            invariant
                i <= slots@.len(),
                num_unrefed_ops == unrefed_count(slots@.take(i as int)),
                num_unrefed_ops <= i * u64::MAX,
            decreases slots@.len() - i,
        {
            assert(slots@.take(i + 1).drop_last() == slots@.take(i as int));
            assert(i * u64::MAX + u64::MAX <= u128::MAX) by (nonlinear_arith)
                requires
                    i < u64::MAX,
            ;
            assert((i + 1) * u64::MAX == i * u64::MAX + u64::MAX) by (nonlinear_arith);
            num_unrefed_ops = num_unrefed_ops + slots[i].unrefed_ops.len() as u128;
            i = i + 1;
        }
        assert(slots@.take(i as int) == slots@);
        EventLoopPendingState {
            has_pending_refed_ops: pending_len(&state.pending_ops) as u128 > num_unrefed_ops,
            has_tick_scheduled: state.has_tick_scheduled,
        }
    }

    pub fn is_pending(&self) -> (pending: bool)
        ensures
            pending == (self.has_pending_refed_ops || self.has_tick_scheduled),
    {
        self.has_pending_refed_ops || self.has_tick_scheduled
    }
}

/// An op of this promise is among those that are done.
pub open spec fn finishes(completed: Seq<CompletedOp>, promise_id: PromiseId) -> bool {
    exists|i: int| 0 <= i < completed.len() && (#[trigger] completed[i]).promise_id == promise_id
}

/// How often each op was completed, after those that are done now.
pub open spec fn tallied(counts: Seq<u64>, completed: Seq<CompletedOp>) -> Seq<u64>
    decreases completed.len(),
{
    if completed.len() == 0 {
        counts
    } else {
        let earlier = tallied(counts, completed.drop_last());
        let op_id = completed.last().op_id as int;
        earlier.update(op_id, counted(earlier[op_id]))
    }
}

/// The batch in which JavaScript gets responses: `[promise_id1, op_result1, promise_id2, ...]`.
pub open spec fn batch_of(completed: Seq<CompletedOp>) -> Seq<SerializedView>
    decreases completed.len(),
{
    if completed.len() == 0 {
        Seq::empty()
    } else {
        batch_of(completed.drop_last()) + seq![
            SerializedView::I32(completed.last().promise_id),
            completed.last().result.response(),
        ]
    }
}

/// A batch holds two entries for each op that is done, in order.
pub proof fn batch_is_flat(completed: Seq<CompletedOp>, i: int)
    requires
        0 <= i < completed.len(),
    ensures
        batch_of(completed).len() == 2 * completed.len(),
        batch_of(completed)[2 * i] == SerializedView::I32(completed[i].promise_id),
        batch_of(completed)[2 * i + 1] == completed[i].result.response(),
    decreases completed.len(),
{
    lemma_batch_len(completed.drop_last());
    if i < completed.len() - 1 {
        batch_is_flat(completed.drop_last(), i);
    }
}

proof fn lemma_batch_len(completed: Seq<CompletedOp>)
    ensures
        batch_of(completed).len() == 2 * completed.len(),
    decreases completed.len(),
{
    if completed.len() > 0 {
        lemma_batch_len(completed.drop_last());
    }
}

/// What an isolate has to hold for ops to be counted in it.
pub open spec fn can_complete<B>(isolate: Isolate<B>, completed: Seq<CompletedOp>) -> bool {
    &&& isolate.state is Some
    &&& forall|i: int|
        0 <= i < completed.len() ==> (#[trigger] completed[i]).op_id
            < isolate.state->0.op_state.tracker.completed_async@.len()
}

/// Ops that are done were counted, and no op is left that was never polled.
pub open spec fn counted_in<B>(
    before: Isolate<B>,
    after: Isolate<B>,
    completed: Seq<CompletedOp>,
) -> bool {
    &&& after.state is Some
    &&& after.state->0.op_state.tracker.completed_async@ == tallied(
        before.state->0.op_state.tracker.completed_async@,
        completed,
    )
    &&& completed.len() == 0 ==> after.state->0.op_state.tracker
        == before.state->0.op_state.tracker
    &&& after == (Isolate {
        state: Some(
            JsRuntimeState {
                have_unpolled_ops: false,
                op_state: OpState {
                    tracker: after.state->0.op_state.tracker,
                    ..before.state->0.op_state
                },
                ..before.state->0
            },
        ),
        ..before
    })
}

/// The promises of responses were forgotten in their realm.
pub open spec fn forgotten_in<B>(
    before: Isolate<B>,
    after: Isolate<B>,
    realm_idx: RealmIdx,
    responses: Seq<CompletedOp>,
) -> bool {
    &&& before.changes_slot(
        after,
        realm_idx,
        ContextState {
            unrefed_ops: after.slots@[realm_idx as int].unrefed_ops,
            ..before.slots@[realm_idx as int]
        },
    )
    &&& after.slots@[realm_idx as int].unrefed_ops@
        == before.slots@[realm_idx as int].unrefed_ops@.filter(
        |id: PromiseId| !finishes(responses, id),
    )
}

/// Counts ops that are done.
fn track_completed(tracker: &mut OpsTracker, completed: &Vec<CompletedOp>)
    requires
        forall|i: int|
            0 <= i < completed@.len() ==> (#[trigger] completed@[i]).op_id
                < old(tracker).completed_async@.len(),
    ensures
        final(tracker).completed_async@ == tallied(old(tracker).completed_async@, completed@),
        final(tracker).completed_async@.len() == old(tracker).completed_async@.len(),
        completed@.len() == 0 ==> *final(tracker) == *old(tracker),
{
    let ghost counts = tracker.completed_async@;
    let mut i: usize = 0;
    while i < completed.len()
        invariant
            i <= completed@.len(),
            forall|k: int|
                0 <= k < completed@.len() ==> (#[trigger] completed@[k]).op_id < counts.len(),
            tracker.completed_async@ == tallied(counts, completed@.take(i as int)),
            tracker.completed_async@.len() == counts.len(),
            i == 0 ==> *tracker == *old(tracker),
        decreases completed@.len() - i,
    {
        tracker.track_async_completed(completed[i].op_id);
        i = i + 1;
        assert(completed@.take(i as int).drop_last() == completed@.take(i - 1));
    }
    assert(completed@.take(i as int) == completed@);
}

/// Puts responses into a batch, and forgets their promises.
pub fn respond(realm_state: &mut ContextState, responses: Vec<CompletedOp>) -> (batch: Vec<
    Serialized,
>)
    ensures
        serialized_views(batch@) == batch_of(responses@),
        final(realm_state).unrefed_ops@ == old(realm_state).unrefed_ops@.filter(
            |id: PromiseId| !finishes(responses@, id),
        ),
        *final(realm_state) == (ContextState {
            unrefed_ops: final(realm_state).unrefed_ops,
            ..*old(realm_state)
        }),
        responses@.len() == 0 ==> *final(realm_state) == *old(realm_state),
{
    let mut args: Vec<Serialized> = Vec::new();
    let ghost all = responses@;
    let ghost before = *realm_state;
    let ghost unrefed = realm_state.unrefed_ops@;
    assert(realm_state.unrefed_ops@ =~= unrefed.filter(
        |id: PromiseId| !finishes(all.take(0), id),
    ));
    for op in ops: responses
        invariant
            ops.seq() == all,
            serialized_views(args@) == batch_of(all.take(ops.index() as int)),
            realm_state.unrefed_ops@ == unrefed.filter(
                |id: PromiseId| !finishes(all.take(ops.index() as int), id),
            ),
            *realm_state == (ContextState { unrefed_ops: realm_state.unrefed_ops, ..before }),
            ops.index() == 0 ==> *realm_state == before,
    {
        let ghost sent = args@;
        realm_state.unrefed_ops.remove(&op.promise_id);
        args.push(Serialized::I32(op.promise_id));
        args.push(op.result.into_response());
        proof {
            let index = ops.index() as int;
            assert(op == all[index]);
            assert(all.take(index + 1).drop_last() == all.take(index));
            assert(serialized_views(args@) =~= serialized_views(sent) + seq![
                SerializedView::I32(op.promise_id),
                op.result.response(),
            ]);
            assert forall|id: PromiseId| finishes(all.take(index + 1), id) == (finishes(
                all.take(index),
                id,
            ) || id == op.promise_id) by {
                if finishes(all.take(index), id) {
                    let i = choose|i: int|
                        0 <= i < index && (#[trigger] all.take(index)[i]).promise_id == id;
                    assert(all.take(index + 1)[i].promise_id == id);
                }
                if finishes(all.take(index + 1), id) {
                    let i = choose|i: int|
                        0 <= i < index + 1 && (#[trigger] all.take(index + 1)[i]).promise_id
                            == id;
                    if i < index {
                        assert(all.take(index)[i].promise_id == id);
                    }
                }
                assert(all.take(index + 1)[index].promise_id == op.promise_id);
            }
            assert(realm_state.unrefed_ops@ =~= unrefed.filter(
                |id: PromiseId| !finishes(all.take(index + 1), id),
            ));
        }
    }
    assert(all.take(all.len() as int) == all);
    args
}

/// Counts ops that are done.
fn count_completed<B>(isolate: &mut Isolate<B>, completed: &Vec<CompletedOp>)
    requires
        can_complete(*old(isolate), completed@),
    ensures
        counted_in(*old(isolate), *final(isolate), completed@),
        final(isolate).keeps(*old(isolate)),
{
    if let Some(state) = isolate.state.take() {
        let mut state = state;
        state.have_unpolled_ops = false;
        track_completed(&mut state.op_state.tracker, completed);
        isolate.state = Some(state);
    }
}

/// Puts the responses of a realm into a batch, and forgets their promises.
pub fn collect_responses<B>(
    isolate: &mut Isolate<B>,
    realm_idx: RealmIdx,
    responses: Vec<CompletedOp>,
) -> (batch: Vec<Serialized>)
    requires
        realm_idx < old(isolate).slots@.len(),
    ensures
        serialized_views(batch@) == batch_of(responses@),
        forgotten_in(*old(isolate), *final(isolate), realm_idx, responses@),
        final(isolate).keeps(*old(isolate)),
{
    respond(&mut isolate.slots[realm_idx], responses)
}

/// The ops of one realm, in the order in which they came.
pub open spec fn of_realm(completed: Seq<CompletedOp>, realm_idx: int) -> Seq<CompletedOp>
    decreases completed.len(),
{
    if completed.len() == 0 {
        Seq::empty()
    } else {
        let earlier = of_realm(completed.drop_last(), realm_idx);
        if completed.last().realm_idx == realm_idx {
            earlier.push(completed.last())
        } else {
            earlier
        }
    }
}

/// Tells ops that are done apart by their realms.
pub fn group_by_realm(completed: Vec<CompletedOp>, num_realms: usize) -> (groups: Vec<
    Vec<CompletedOp>,
>)
    requires
        forall|i: int|
            0 <= i < completed@.len() ==> (#[trigger] completed@[i]).realm_idx < num_realms,
    ensures
        groups@.len() == num_realms,
        forall|r: int|
            0 <= r < num_realms ==> (#[trigger] groups@[r])@ == of_realm(completed@, r),
{
    let mut groups: Vec<Vec<CompletedOp>> = Vec::new();
    let mut r: usize = 0;
    while r < num_realms
        invariant
            r <= num_realms,
            groups@.len() == r,
            forall|k: int| 0 <= k < r ==> (#[trigger] groups@[k])@ == Seq::<CompletedOp>::empty(),
        decreases num_realms - r,
    {
        groups.push(Vec::new());
        r = r + 1;
    }
    let ghost all = completed@;
    assert(all.take(0) == Seq::<CompletedOp>::empty());
    for op in ops: completed
        invariant
            ops.seq() == all,
            forall|i: int| 0 <= i < all.len() ==> (#[trigger] all[i]).realm_idx < num_realms,
            groups@.len() == num_realms,
            forall|r: int|
                0 <= r < num_realms ==> (#[trigger] groups@[r])@ == of_realm(
                    all.take(ops.index() as int),
                    r,
                ),
    {
        proof {
            let index = ops.index() as int;
            assert(op == all[index]);
            assert(all.take(index + 1).drop_last() == all.take(index));
        }
        let realm_idx: usize = op.realm_idx;
        groups[realm_idx].push(op);
    }
    assert(all.take(all.len() as int) == all);
    groups
}

/// Every op that is done goes to its realm, and no other goes there.
pub proof fn ops_go_to_their_realms(completed: Seq<CompletedOp>, realm_idx: int)
    ensures
        forall|i: int|
            0 <= i < completed.len() && (#[trigger] completed[i]).realm_idx == realm_idx
                ==> of_realm(completed, realm_idx).contains(completed[i]),
        forall|k: int|
            0 <= k < of_realm(completed, realm_idx).len() ==> (#[trigger] of_realm(
                completed,
                realm_idx,
            )[k]).realm_idx == realm_idx && completed.contains(of_realm(completed, realm_idx)[k]),
    decreases completed.len(),
{
    if completed.len() > 0 {
        let fewer = completed.drop_last();
        let last = completed.last();
        ops_go_to_their_realms(fewer, realm_idx);
        let kept = of_realm(fewer, realm_idx);
        let all = of_realm(completed, realm_idx);
        assert forall|i: int|
            0 <= i < completed.len() && (#[trigger] completed[i]).realm_idx
                == realm_idx implies all.contains(completed[i]) by {
            if i < fewer.len() {
                assert(fewer[i] == completed[i]);
                let k = choose|k: int| 0 <= k < kept.len() && kept[k] == completed[i];
                assert(all[k] == completed[i]);
            } else {
                assert(all[all.len() - 1] == last);
            }
        }
        assert forall|k: int| 0 <= k < all.len() implies (#[trigger] all[k]).realm_idx == realm_idx
            && completed.contains(all[k]) by {
            if k < kept.len() {
                assert(all[k] == kept[k]);
                let i = choose|i: int| 0 <= i < fewer.len() && fewer[i] == kept[k];
                assert(completed[i] == all[k]);
            } else {
                assert(completed[completed.len() - 1] == all[k]);
            }
        }
    }
}

/// The value that is reported where `exception` was thrown: the first one that was dispatched, if
/// any was, and a new one for an execution that was terminated.
pub open spec fn reported(
    dispatched: Seq<Global<Value>>,
    was_terminating: bool,
    exception: Value,
) -> ValueView {
    if dispatched.len() > 0 {
        dispatched.last().value()@
    } else if was_terminating && (exception is Null || exception is Undefined) {
        ValueView::Exception { class: "Error"@, message: "execution terminated"@ }
    } else {
        exception@
    }
}

/// Once an exception was dispatched it is the one that is reported, whatever is dispatched after
/// it and whatever is thrown.
pub proof fn first_dispatched_is_reported(
    dispatched: Seq<Global<Value>>,
    later: Global<Value>,
    was_terminating: bool,
    thrown: Value,
    other: Value,
)
    requires
        dispatched.len() > 0,
    ensures
        reported(seq![later] + dispatched, was_terminating, other) == reported(
            dispatched,
            was_terminating,
            thrown,
        ),
{
}

/// Picks the value that is reported where `exception` was thrown.
pub fn select_exception<'s, B>(
    scope: &mut HandleScope<'s, B>,
    exception: Local<'s, Value>,
    was_terminating: bool,
) -> (selected: Local<'s, Value>)
    requires
        old(scope).isolate.state is Some,
    ensures
        selected.value()@ == reported(
            old(scope).isolate.state->0.dispatched_exceptions@,
            was_terminating,
            exception.value(),
        ),
        *final(scope) == *old(scope),
{
    if let Some(state) = &scope.isolate.state {
        let count: usize = state.dispatched_exceptions.len();
        if count > 0 {
            let dispatched = state.dispatched_exceptions[count - 1].clone();
            return Local::from_raw((**dispatched.get_data()).clone()).unwrap();
        }
    }
    if was_terminating && exception.get_data().is_null_or_undefined() {
        proof {
            lemma_termination_message_fits();
        }
        let message = JsString::new(scope, "execution terminated").unwrap();
        Exception::error(scope, message)
    } else {
        exception
    }
}

proof fn lemma_termination_message_fits()
    ensures
        encode_utf8("execution terminated"@).len() <= max_string_length(),
{
    reveal_strlit("execution terminated");
    lemma_encoded_len("execution terminated"@);
}

proof fn lemma_encoded_len(text: Seq<char>)
    ensures
        encode_utf8(text).len() <= 4 * text.len(),
    decreases text.len(),
{
    if text.len() > 0 {
        lemma_encoded_len(text.drop_first());
    }
}

/// The description of a value that was thrown in a promise says so.
pub open spec fn uncaught(message: Seq<char>, in_promise: bool) -> Seq<char> {
    if in_promise {
        "Uncaught (in promise) "@ + trimmed_start(message, "Uncaught "@)
    } else {
        message
    }
}

/// The error is what is reported where `thrown` was thrown in a realm: how the value that is
/// reported is described.
pub open spec fn is_reported<B: JsBackend>(
    before: Isolate<B>,
    after: Isolate<B>,
    realm_idx: RealmIdx,
    thrown: Value,
    in_promise: bool,
    error: Error,
) -> bool {
    &&& error matches Error::Js(js_error)
    &&& js_error.is_bare(js_error.exception_message@)
    &&& exists|message: Seq<char>| #[trigger]
        formatted(
            before,
            after,
            realm_idx,
            reported(before.state->0.dispatched_exceptions@, false, thrown),
            message,
        ) && js_error.exception_message@ == uncaught(message, in_promise)
}

/// The error that a thrown value is reported as.
pub fn exception_to_err_result<'s, T, B: JsBackend>(
    scope: &mut HandleScope<'s, B>,
    exception: Local<'s, Value>,
    in_promise: bool,
) -> (result: Result<T, Error>)
    requires
        old(scope).isolate.state is Some,
        old(scope).realm_idx < old(scope).isolate.slots@.len(),
    ensures
        match result {
            Ok(_) => false,
            Err(error) => is_reported(
                *old(scope).isolate,
                *final(scope).isolate,
                old(scope).realm_idx,
                exception.value(),
                in_promise,
                error,
            ),
        },
        final(scope).isolate.keeps(*old(scope).isolate),
        *final(final(scope).isolate) == *final(old(scope).isolate),
        final(scope).realm_idx == old(scope).realm_idx,
{
    let was_terminating_execution = scope.isolate.is_execution_terminating();
    let exception = select_exception(scope, exception, was_terminating_execution);
    let mut js_error = JsError::from_v8_exception(scope, exception);
    if in_promise {
        let mut message = "Uncaught (in promise) ".to_owned();
        message.append(
            trim_start_matches(js_error.exception_message.as_str(), "Uncaught ").as_str(),
        );
        js_error.exception_message = message;
    }
    if was_terminating_execution {
        // Resume exception termination.
        scope.isolate.terminate_execution();
    }
    Err(Error::Js(js_error))
}

/// JavaScript can be called back with the responses of a realm.
pub open spec fn can_respond<B>(isolate: Isolate<B>, realm_idx: RealmIdx) -> bool {
    &&& isolate.state is Some
    &&& realm_idx < isolate.slots@.len()
    &&& isolate.slots@[realm_idx as int].js_recv_cb is Some
}

/// The function that JavaScript gets the responses of a realm through.
pub open spec fn receiver<B>(isolate: Isolate<B>, realm_idx: RealmIdx) -> Function {
    isolate.slots@[realm_idx as int].js_recv_cb->0.value()
}

/// Hands a batch of responses to JavaScript.
fn send_batch<B: JsBackend>(
    isolate: &mut Isolate<B>,
    realm_idx: RealmIdx,
    batch: Vec<Serialized>,
) -> (result: Result<(), Error>)
    requires
        can_respond(*old(isolate), realm_idx),
    ensures
        result is Ok,
        called(
            *old(isolate),
            *final(isolate),
            (Call { function: receiver(*old(isolate), realm_idx), args: serialized_views(batch@) }),
        ),
{
    let js_recv_cb_handle = isolate.slots[realm_idx].js_recv_cb.as_ref().unwrap().clone();
    let mut scope = HandleScope { isolate, realm_idx };
    let mut tc_scope = TryCatch::new(&mut scope);
    let this = undefined(&mut *tc_scope.inner);
    js_recv_cb_handle.get_data().call_with_serialized(&mut *tc_scope.inner, this, batch);
    match tc_scope.exception() {
        None => Ok(()),
        Some(exception) => exception_to_err_result(&mut *tc_scope.inner, exception, false),
    }
}

/// JavaScript got the responses of a realm in one call, after their promises were forgotten. A realm
/// without responses is passed over.
pub open spec fn responded<B: JsBackend>(
    before: Isolate<B>,
    after: Isolate<B>,
    realm_idx: RealmIdx,
    responses: Seq<CompletedOp>,
) -> bool {
    if responses.len() == 0 {
        after == before
    } else {
        exists|ready: Isolate<B>| #[trigger]
            forgotten_in(before, ready, realm_idx, responses) && called(
                ready,
                after,
                Call { function: receiver(before, realm_idx), args: batch_of(responses) },
            )
    }
}

/// The isolate before JavaScript got the responses of the first realm, after it got them, after it
/// got those of the second, and so on.
pub open spec fn is_delivery<B: JsBackend>(
    course: Seq<Isolate<B>>,
    groups: Seq<Seq<CompletedOp>>,
) -> bool {
    &&& course.len() == groups.len() + 1
    &&& forall|r: int|
        #![trigger groups[r]]
        0 <= r < groups.len() ==> responded(course[r], course[r + 1], r as usize, groups[r])
}

/// JavaScript got the responses of each realm, one realm after another, and nothing else happened.
pub open spec fn delivered<B: JsBackend>(
    before: Isolate<B>,
    after: Isolate<B>,
    groups: Seq<Seq<CompletedOp>>,
) -> bool {
    exists|course: Seq<Isolate<B>>| #[trigger]
        is_delivery(course, groups) && course.first() == before && course.last() == after
}

proof fn lemma_delivered_none<B: JsBackend>(isolate: Isolate<B>)
    ensures
        delivered(isolate, isolate, Seq::empty()),
{
    assert(is_delivery(seq![isolate], Seq::empty()));
}

proof fn lemma_delivered_after<B: JsBackend>(
    before: Isolate<B>,
    middle: Isolate<B>,
    after: Isolate<B>,
    groups: Seq<Seq<CompletedOp>>,
    group: Seq<CompletedOp>,
)
    requires
        delivered(before, middle, groups),
        groups.len() < usize::MAX,
        responded(middle, after, groups.len() as usize, group),
    ensures
        delivered(before, after, groups.push(group)),
{
    let course = choose|course: Seq<Isolate<B>>| #[trigger]
        is_delivery(course, groups) && course.first() == before && course.last() == middle;
    let longer = course.push(after);
    let all = groups.push(group);
    assert forall|r: int| #![trigger all[r]] 0 <= r < all.len() implies responded(
        longer[r],
        longer[r + 1],
        r as usize,
        all[r],
    ) by {
        if r < groups.len() {
            assert(all[r] == groups[r]);
        }
    }
    assert(is_delivery(longer, all));
}

/// How many realms have responses.
pub open spec fn realms_with_responses(groups: Seq<Seq<CompletedOp>>) -> nat
    decreases groups.len(),
{
    if groups.len() == 0 {
        0
    } else {
        realms_with_responses(groups.drop_last()) + if groups.last().len() > 0 {
            1nat
        } else {
            0
        }
    }
}

/// The backend is asked for one call for each realm with responses, and for nothing else.
pub proof fn responses_are_sent_once<B: JsBackend>(
    before: Isolate<B>,
    after: Isolate<B>,
    groups: Seq<Seq<CompletedOp>>,
)
    requires
        delivered(before, after, groups),
    ensures
        ({
            let events = before.backend.events();
            let later = after.backend.events();
            &&& later.len() == events.len() + realms_with_responses(groups)
            &&& later.take(events.len() as int) == events
            &&& forall|i: int|
                events.len() <= i < later.len() ==> is_response(#[trigger] later[i], groups)
        }),
{
    let course = choose|course: Seq<Isolate<B>>| #[trigger]
        is_delivery(course, groups) && course.first() == before && course.last() == after;
    lemma_delivery_notes(course, groups, groups.len());
    assert(groups.take(groups.len() as int) == groups);
}

/// The event is a call with the responses of one of these realms.
pub open spec fn is_response(event: BackendEvent, groups: Seq<Seq<CompletedOp>>) -> bool {
    &&& event matches BackendEvent::Ran { run: Run::InvokeFunction { call, result: _ }, within: _ }
    &&& exists|r: int| 0 <= r < groups.len() && #[trigger] batch_of(groups[r]) == call.args
}

proof fn lemma_delivery_notes<B: JsBackend>(
    course: Seq<Isolate<B>>,
    groups: Seq<Seq<CompletedOp>>,
    count: nat,
)
    requires
        is_delivery(course, groups),
        count <= groups.len(),
    ensures
        ({
            let events = course[0].backend.events();
            let later = course[count as int].backend.events();
            &&& later.len() == events.len() + realms_with_responses(groups.take(count as int))
            &&& later.take(events.len() as int) == events
            &&& forall|i: int|
                events.len() <= i < later.len() ==> is_response(#[trigger] later[i], groups)
        }),
    decreases count,
{
    let events = course[0].backend.events();
    if count > 0 {
        let r = count - 1;
        lemma_delivery_notes(course, groups, r as nat);
        assert(groups.take(count as int).drop_last() == groups.take(r));
        let middle = course[r];
        let after = course[count as int];
        assert(responded(middle, after, r as usize, groups[r]));
        if groups[r].len() > 0 {
            let ready = choose|ready: Isolate<B>| #[trigger]
                forgotten_in(middle, ready, r as usize, groups[r]) && called(
                    ready,
                    after,
                    Call { function: receiver(middle, r as usize), args: batch_of(groups[r]) },
                );
            let later = after.backend.events();
            assert(ready.backend == middle.backend);
            assert(later.take(events.len() as int) == middle.backend.events().take(
                events.len() as int,
            ));
            assert(is_response(later.last(), groups));
            assert forall|i: int| events.len() <= i < later.len() implies is_response(
                #[trigger] later[i],
                groups,
            ) by {
                if i < later.len() - 1 {
                    assert(later[i] == middle.backend.events()[i]);
                }
            }
        }
    } else {
        assert(events.take(events.len() as int) == events);
        assert(groups.take(0) == Seq::<Seq<CompletedOp>>::empty());
    }
}

/// The responses of each realm. An only realm has all of them.
pub open spec fn groups_of(num_realms: nat, completed: Seq<CompletedOp>) -> Seq<Seq<CompletedOp>> {
    if num_realms == 1 {
        seq![completed]
    } else {
        Seq::new(num_realms, |realm_idx: int| of_realm(completed, realm_idx))
    }
}

/// Ops that are done were completed: they were counted, and JavaScript got their responses.
pub open spec fn completed_in<B: JsBackend>(
    before: Isolate<B>,
    after: Isolate<B>,
    completed: Seq<CompletedOp>,
) -> bool {
    exists|ready: Isolate<B>| #[trigger]
        counted_in(before, ready, completed) && delivered(
            ready,
            after,
            groups_of(before.state->0.known_realms@.len(), completed),
        )
}

/// The realm whose JavaScript gets the response of an op.
pub open spec fn home_of<B>(isolate: Isolate<B>, op: CompletedOp) -> RealmIdx {
    if isolate.state->0.known_realms@.len() == 1 {
        0
    } else {
        op.realm_idx
    }
}

/// The ops are ones that the runtime knows, of realms that it knows, and JavaScript can be told.
pub open spec fn acceptable<B>(isolate: Isolate<B>, completed: Seq<CompletedOp>) -> bool {
    &&& can_complete(isolate, completed)
    &&& forall|i: int|
        0 <= i < completed.len() ==> home_of(isolate, #[trigger] completed[i])
            < isolate.state->0.known_realms@.len() && can_respond(
            isolate,
            home_of(isolate, completed[i]),
        )
}

/// Whether ops that are done can be completed.
pub fn accepts<B>(isolate: &Isolate<B>, completed: &Vec<CompletedOp>) -> (yes: bool)
    ensures
        yes == acceptable(*isolate, completed@),
{
    let state = match &isolate.state {
        Some(state) => state,
        None => {
            return false;
        },
    };
    let ops: usize = state.op_state.tracker.completed_async.len();
    let realms: usize = state.known_realms.len();
    let mut i: usize = 0;
    while i < completed.len()
        invariant
            i <= completed@.len(),
            isolate.state is Some,
            ops == isolate.state->0.op_state.tracker.completed_async@.len(),
            realms == isolate.state->0.known_realms@.len(),
            forall|k: int| 0 <= k < i ==> (#[trigger] completed@[k]).op_id < ops,
            forall|k: int|
                0 <= k < i ==> home_of(*isolate, #[trigger] completed@[k]) < realms && can_respond(
                    *isolate,
                    home_of(*isolate, completed@[k]),
                ),
        decreases completed@.len() - i,
    {
        let home: usize = if realms == 1 {
            0
        } else {
            completed[i].realm_idx
        };
        assert(home == home_of(*isolate, completed@[i as int]));
        if completed[i].op_id >= ops || home >= realms || home >= isolate.slots.len() {
            return false;
        }
        if isolate.slots[home].js_recv_cb.is_none() {
            return false;
        }
        i = i + 1;
    }
    true
}

/// Hands the responses of a realm to JavaScript.
fn respond_in<B: JsBackend>(
    isolate: &mut Isolate<B>,
    realm_idx: RealmIdx,
    responses: Vec<CompletedOp>,
) -> (result: Result<(), Error>)
    requires
        responses@.len() > 0 ==> can_respond(*old(isolate), realm_idx),
    ensures
        result is Ok,
        responded(*old(isolate), *final(isolate), realm_idx, responses@),
        final(isolate).keeps(*old(isolate)),
{
    if responses.len() == 0 {
        return Ok(());
    }
    let ghost before = *isolate;
    let ghost given = responses@;
    let args = collect_responses(isolate, realm_idx, responses);
    let ghost ready = *isolate;
    let result = send_batch(isolate, realm_idx, args);
    proof {
        isolate.lemma_keeps_through(ready, before);
        assert(forgotten_in(before, ready, realm_idx, given));
    }
    result
}

/// Hands the responses of each realm to JavaScript, one realm after another.
fn deliver<B: JsBackend>(isolate: &mut Isolate<B>, groups: Vec<Vec<CompletedOp>>) -> (result: Result<
    (),
    Error,
>)
    requires
        forall|r: int| 0 <= r < groups@.len() && (#[trigger] groups@[r])@.len() > 0 ==> can_respond(
            *old(isolate),
            r as usize,
        ),
    ensures
        result is Ok,
        delivered(
            *old(isolate),
            *final(isolate),
            groups@.map_values(|group: Vec<CompletedOp>| group@),
        ),
        final(isolate).keeps(*old(isolate)),
{
    let ghost before = *isolate;
    let ghost all = groups@;
    let ghost views = all.map_values(|group: Vec<CompletedOp>| group@);
    let mut realm_idx: usize = 0;
    proof {
        lemma_delivered_none(before);
        assert(views.take(0) == Seq::<Seq<CompletedOp>>::empty());
    }
    let num_realms: usize = groups.len();
    for responses in realms: groups
        invariant
            realms.seq() == all,
            all.len() == num_realms,
            realm_idx == realms.index(),
            forall|r: int| 0 <= r < all.len() && (#[trigger] all[r])@.len() > 0 ==> can_respond(
                before,
                r as usize,
            ),
            views == all.map_values(|group: Vec<CompletedOp>| group@),
            delivered(before, *isolate, views.take(realm_idx as int)),
            isolate.keeps(before),
    {
        let ghost between = *isolate;
        let ghost given = responses@;
        assert(responses == all[realm_idx as int]);
        assert(given.len() > 0 ==> between.slots@[realm_idx as int].keeps(
            before.slots@[realm_idx as int],
        ));
        let result = respond_in(isolate, realm_idx, responses);
        proof {
            isolate.lemma_keeps_through(between, before);
            lemma_delivered_after(
                before,
                between,
                *isolate,
                views.take(realm_idx as int),
                given,
            );
            assert(views.take(realm_idx + 1) =~= views.take(realm_idx as int).push(given));
        }
        match result {
            Ok(()) => {},
            Err(error) => {
                return Err(error);
            },
        }
        realm_idx = realm_idx + 1;
    }
    assert(views.take(all.len() as int) == views);
    Ok(())
}

/// Completes ops of an only realm, and sends their responses to JavaScript.
fn resolve_single_realm<B: JsBackend>(
    isolate: &mut Isolate<B>,
    completed: Vec<CompletedOp>,
) -> (result: Result<(), Error>)
    requires
        acceptable(*old(isolate), completed@),
        old(isolate).state->0.known_realms@.len() == 1,
    ensures
        result is Ok,
        completed_in(*old(isolate), *final(isolate), completed@),
        final(isolate).keeps(*old(isolate)),
{
    let ghost before = *isolate;
    let ghost all = completed@;
    count_completed(isolate, &completed);
    let ghost ready = *isolate;
    proof {
        if all.len() > 0 {
            assert(can_respond(before, home_of(before, all[0])));
        }
    }
    let result = respond_in(isolate, 0, completed);
    proof {
        isolate.lemma_keeps_through(ready, before);
        lemma_delivered_none(ready);
        lemma_delivered_after(ready, ready, *isolate, Seq::empty(), all);
        assert(Seq::<Seq<CompletedOp>>::empty().push(all) =~= seq![all]);
        assert(counted_in(before, ready, all));
    }
    result
}

/// Completes ops that are done, and sends their responses to JavaScript.
pub fn resolve_completed<B: JsBackend>(
    isolate: &mut Isolate<B>,
    completed: Vec<CompletedOp>,
) -> (result: Result<(), Error>)
    requires
        acceptable(*old(isolate), completed@),
    ensures
        result is Ok,
        completed_in(*old(isolate), *final(isolate), completed@),
        final(isolate).keeps(*old(isolate)),
{
    let ghost before = *isolate;
    let num_realms: usize = match &isolate.state {
        Some(state) => state.known_realms.len(),
        None => 0,
    };
    if num_realms == 1 {
        return resolve_single_realm(isolate, completed);
    }
    let ghost all = completed@;
    count_completed(isolate, &completed);
    let ghost ready = *isolate;
    assert forall|i: int| 0 <= i < all.len() implies (#[trigger] all[i]).realm_idx < num_realms by {
        assert(home_of(before, all[i]) < num_realms);
    }
    let groups = group_by_realm(completed, num_realms);
    proof {
        assert forall|r: int|
            0 <= r < groups@.len() && (#[trigger] groups@[r])@.len() > 0 implies can_respond(
            ready,
            r as usize,
        ) by {
            ops_go_to_their_realms(all, r);
            let op = of_realm(all, r)[0];
            assert(op.realm_idx == r && all.contains(op));
            let i = choose|i: int| 0 <= i < all.len() && all[i] == op;
            assert(can_respond(before, home_of(before, all[i])));
        }
    }
    let result = deliver(isolate, groups);
    proof {
        isolate.lemma_keeps_through(ready, before);
        assert(groups@.map_values(|group: Vec<CompletedOp>| group@) =~= groups_of(
            num_realms as nat,
            all,
        ));
        assert(counted_in(before, ready, all));
    }
    result
}

} // verus!

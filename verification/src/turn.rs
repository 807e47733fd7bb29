//! What happens in a turn of the event loop besides the responses of async ops.
use crate::backend::{
    called, called_in_turn, last_answer, lemma_called_after, lemma_no_calls, serialized_views, Call,
    JsBackend,
};
use crate::data::{is_answer, undefined, Function, Value};
use crate::error::Error;
use crate::event_loop::{
    can_respond, exception_to_err_result, has_refed_ops, receiver, unrefed_count,
    EventLoopPendingState,
};
use crate::handle::{Global, HandleInternal, Local};
use crate::isolate::Isolate;
use crate::ops::{counted, CompletedOp, OpCtx, OpState, PromiseId, RealmIdx};
use crate::pending::{done_ops, only_done, pending_count, pending_push, pending_push_ready};
use crate::scope::{HandleScope, TryCatch};
use crate::serde::{reads, sent, DeError, Deserialized, Serialized, SerializedView};
use crate::state::{ContextState, JsRealm, JsRuntimeState};
use std::future::Future;
use vstd::prelude::*;

verus! {

/// Calls of functions without arguments.
pub open spec fn plain_calls(callbacks: Seq<Global<Function>>) -> Seq<Call> {
    callbacks.map_values(
        |callback: Global<Function>| Call { function: callback.value(), args: Seq::empty() },
    )
}

fn copy_callbacks(callbacks: &Vec<Global<Function>>) -> (copy: Vec<Global<Function>>)
    ensures
        copy@ == callbacks@,
{
    let mut copy: Vec<Global<Function>> = Vec::new();
    let mut i: usize = 0;
    while i < callbacks.len()
        invariant
            i <= callbacks@.len(),
            copy@ == callbacks@.take(i as int),
        decreases callbacks@.len() - i,
    {
        copy.push(callbacks[i].clone());
        i = i + 1;
        assert(callbacks@.take(i as int) =~= callbacks@.take(i - 1).push(callbacks@[i - 1]));
    }
    assert(callbacks@.take(i as int) == callbacks@);
    copy
}

/// Calls a function without arguments. The result is the function's answer, or the error that
/// came up.
fn call_plainly<B: JsBackend>(isolate: &mut Isolate<B>, callback: &Global<Function>) -> (answer:
    Result<Option<Value>, Error>)
    requires
        old(isolate).state is Some,
        old(isolate).slots@.len() > 0,
    ensures
        called(
            *old(isolate),
            *final(isolate),
            (Call { function: callback.value(), args: Seq::empty() }),
        ),
        answer matches Ok(answer) && is_answer(last_answer(*final(isolate)), answer),
{
    let no_args: Vec<Local<'_, Value>> = Vec::new();
    let mut scope = HandleScope::new(isolate);
    let mut tc_scope = TryCatch::new(&mut scope);
    let this = undefined(&mut *tc_scope.inner);
    let answer = callback.get_data().call(&mut *tc_scope.inner, this, no_args.as_slice());
    assert(no_args@.map_values(|arg: Local<'_, Value>| sent(arg.value()@)) =~= Seq::<
        SerializedView,
    >::empty());
    match tc_scope.exception() {
        None => {},
        Some(exception) => {
            return exception_to_err_result(&mut *tc_scope.inner, exception, false);
        },
    }
    match answer {
        Some(value) => Ok(Some((**value.get_data()).clone())),
        None => Ok(None),
    }
}

/// The next tick callbacks were called, each once and in order, if a tick was scheduled, and nothing
/// else happened.
pub open spec fn ticked<B: JsBackend>(before: Isolate<B>, after: Isolate<B>) -> bool {
    if before.state->0.has_tick_scheduled {
        called_in_turn(before, after, plain_calls(before.state->0.js_nexttick_cbs@))
    } else {
        after == before
    }
}

/// Calls the next tick callbacks, each once, if a tick is scheduled.
pub fn drain_nexttick<B: JsBackend>(isolate: &mut Isolate<B>) -> (result: Result<(), Error>)
    requires
        old(isolate).state is Some,
        old(isolate).slots@.len() > 0,
    ensures
        result is Ok,
        ticked(*old(isolate), *final(isolate)),
        final(isolate).keeps(*old(isolate)),
{
    let ghost before = *isolate;
    proof {
        lemma_no_calls(before);
    }
    let callbacks: Vec<Global<Function>> = match &isolate.state {
        Some(state) => {
            if state.js_nexttick_cbs.len() == 0 || !state.has_tick_scheduled {
                assert(state.js_nexttick_cbs@.len() == 0 ==> plain_calls(state.js_nexttick_cbs@)
                    =~= Seq::<Call>::empty());
                return Ok(());
            }
            copy_callbacks(&state.js_nexttick_cbs)
        },
        None => Vec::new(),
    };
    let ghost calls = plain_calls(callbacks@);
    assert(calls.take(0) == Seq::<Call>::empty());
    let mut i: usize = 0;
    while i < callbacks.len()
        invariant
            i <= callbacks@.len(),
            before.state is Some,
            before.slots@.len() > 0,
            calls == plain_calls(callbacks@),
            called_in_turn(before, *isolate, calls.take(i as int)),
            isolate.keeps(before),
        decreases callbacks@.len() - i,
    {
        let ghost between = *isolate;
        match call_plainly(isolate, &callbacks[i]) {
            Ok(_) => {},
            Err(error) => {
                return Err(error);
            },
        }
        proof {
            isolate.lemma_keeps_through(between, before);
            lemma_called_after(before, between, *isolate, calls.take(i as int), calls[i as int]);
            assert(calls.take(i + 1) =~= calls.take(i as int).push(calls[i as int]));
        }
        i = i + 1;
    }
    assert(calls.take(i as int) == calls);
    Ok(())
}

/// How far the macrotask callbacks have been called.
pub struct MacrotaskDrain {
    pub callbacks: Vec<Global<Function>>,
    /// The callback that is called next.
    pub next: usize,
}

/// What came of a step of draining macrotasks.
#[derive(Clone, Copy, Debug, PartialEq, Eq, Structural)]
pub enum MacrotaskStep {
    /// All callbacks have said that they are done.
    Done,
    /// There is more to do.
    More,
    /// A callback was called and gave no answer.
    Unanswered,
}

impl MacrotaskDrain {
    pub open spec fn wf(self) -> bool {
        self.next <= self.callbacks@.len()
    }

    /// Starts with the first of the macrotask callbacks.
    pub fn new<B>(isolate: &Isolate<B>) -> (drain: Self)
        requires
            isolate.state is Some,
        ensures
            drain.wf(),
            drain.next == 0,
            drain.callbacks@ == isolate.state->0.js_macrotask_cbs@,
    {
        match &isolate.state {
            Some(state) => MacrotaskDrain {
                callbacks: copy_callbacks(&state.js_macrotask_cbs),
                next: 0,
            },
            None => MacrotaskDrain { callbacks: Vec::new(), next: 0 },
        }
    }

    /// Goes on after a callback has answered.
    pub fn take_answer(&mut self, answer: Option<Value>) -> (step: MacrotaskStep)
        requires
            old(self).next < old(self).callbacks@.len(),
        ensures
            final(self).wf(),
            final(self).callbacks == old(self).callbacks,
            final(self).next == if answer == Some(Value::Boolean { inner: true }) {
                old(self).next + 1
            } else {
                old(self).next as int
            },
            step == if answer is Some {
                MacrotaskStep::More
            } else {
                MacrotaskStep::Unanswered
            },
    {
        match answer {
            Some(is_done) => {
                if is_done.is_true() && self.next < self.callbacks.len() {
                    self.next = self.next + 1;
                }
                MacrotaskStep::More
            },
            None => MacrotaskStep::Unanswered,
        }
    }

    /// Calls the callback that is next. It is called again in the next step unless it answers
    /// `true`, so that ready microtasks are run before the next macrotask is processed.
    pub fn step<B: JsBackend>(&mut self, isolate: &mut Isolate<B>) -> (step: Result<
        MacrotaskStep,
        Error,
    >)
        requires
            old(self).wf(),
            old(isolate).state is Some,
            old(isolate).slots@.len() > 0,
        ensures
            step is Ok,
            stepped(*old(self), *final(self), *old(isolate), *final(isolate), step->Ok_0),
            final(self).wf(),
            final(isolate).keeps(*old(isolate)),
    {
        if self.next == self.callbacks.len() {
            return Ok(MacrotaskStep::Done);
        }
        match call_plainly(isolate, &self.callbacks[self.next]) {
            Ok(answer) => {
                proof {
                    lemma_true_is_true(last_answer(*isolate), answer);
                }
                Ok(self.take_answer(answer))
            },
            Err(error) => Err(error),
        }
    }
}

/// The backend's answer is `true` itself, and not merely a value that counts as true.
pub open spec fn is_true_answer(result: Option<Deserialized>) -> bool {
    result == Some(Deserialized::Bool(true))
}

proof fn lemma_true_is_true(result: Option<Deserialized>, answer: Option<Value>)
    requires
        is_answer(result, answer),
    ensures
        answer == Some(Value::Boolean { inner: true }) <==> is_true_answer(result),
{
    if is_true_answer(result) && answer is None {
        let cause = choose|cause: DeError| #[trigger] reads(result->0, Err::<Value, _>(cause));
        assert(!reads(Deserialized::Bool(true), Err::<Value, _>(cause)));
    }
}

/// What one step of draining macrotasks does. The callback that is next is called once, without
/// arguments, and nothing else happens; the one behind it is next where it answers `true`.
pub open spec fn stepped<B: JsBackend>(
    before: MacrotaskDrain,
    after: MacrotaskDrain,
    isolate_before: Isolate<B>,
    isolate_after: Isolate<B>,
    step: MacrotaskStep,
) -> bool {
    &&& after.callbacks == before.callbacks
    &&& if before.next == before.callbacks@.len() {
        &&& step == MacrotaskStep::Done
        &&& after == before
        &&& isolate_after == isolate_before
    } else {
        &&& called(
            isolate_before,
            isolate_after,
            Call {
                function: before.callbacks@[before.next as int].value(),
                args: Seq::empty(),
            },
        )
        &&& after.next == if is_true_answer(last_answer(isolate_after)) {
            before.next + 1
        } else {
            before.next as int
        }
        &&& exists|answer: Option<Value>| #[trigger]
            is_answer(last_answer(isolate_after), answer) && step == (if answer is Some {
                MacrotaskStep::More
            } else {
                MacrotaskStep::Unanswered
            })
    }
}

/// Draining macrotasks from the first callback on: how far it is, and the isolate, before the first
/// step, after it, and so on.
pub open spec fn is_drain<B: JsBackend>(
    drains: Seq<MacrotaskDrain>,
    isolates: Seq<Isolate<B>>,
) -> bool {
    &&& drains.len() == isolates.len()
    &&& drains.len() > 0
    &&& drains[0].wf()
    &&& drains[0].next == 0
    &&& forall|i: int|
        #![trigger drains[i]]
        0 <= i < drains.len() - 1 ==> stepped(
            drains[i],
            drains[i + 1],
            isolates[i],
            isolates[i + 1],
            MacrotaskStep::More,
        )
}

/// In the step `i` the callback at `c` was called for the last time: it answered `true`, and it had
/// not done so in any step before in which it was called.
pub open spec fn is_last_call<B: JsBackend>(
    drains: Seq<MacrotaskDrain>,
    isolates: Seq<Isolate<B>>,
    c: int,
    i: int,
) -> bool {
    &&& 0 <= i < drains.len() - 1
    &&& drains[i].next == c
    &&& is_true_answer(last_answer(isolates[i + 1]))
    &&& forall|j: int|
        #![trigger drains[j]]
        0 <= j < drains.len() - 1 && j != i && drains[j].next == c ==> j < i && !is_true_answer(
            last_answer(isolates[j + 1]),
        )
}

/// When all macrotask callbacks are done, each was called again and again up to and including its
/// first call that answered `true`, and never after that.
pub proof fn macrotasks_run_until_true<B: JsBackend>(
    drains: Seq<MacrotaskDrain>,
    isolates: Seq<Isolate<B>>,
    c: int,
)
    requires
        is_drain(drains, isolates),
        drains.last().next == drains.last().callbacks@.len(),
        0 <= c < drains.last().callbacks@.len(),
    ensures
        exists|i: int| #[trigger] is_last_call(drains, isolates, c, i),
{
    lemma_drain_goes_on(drains, isolates, 0, drains.len() - 1);
    let i = lemma_passes(drains, isolates, c, drains.len() - 1);
    assert forall|j: int|
        #![trigger drains[j]]
        0 <= j < drains.len() - 1 && j != i && drains[j].next == c implies j < i
        && !is_true_answer(last_answer(isolates[j + 1])) by {
        if j > i {
            lemma_drain_goes_on(drains, isolates, i + 1, j);
        } else {
            lemma_drain_goes_on(drains, isolates, j + 1, i);
            lemma_drain_goes_on(drains, isolates, 0, j);
        }
    }
    assert(is_last_call(drains, isolates, c, i));
}

proof fn lemma_drain_goes_on<B: JsBackend>(
    drains: Seq<MacrotaskDrain>,
    isolates: Seq<Isolate<B>>,
    from: int,
    to: int,
)
    requires
        is_drain(drains, isolates),
        0 <= from <= to < drains.len(),
    ensures
        drains[from].next <= drains[to].next,
        drains[to].callbacks == drains[from].callbacks,
    decreases to - from,
{
    if from < to {
        lemma_drain_goes_on(drains, isolates, from, to - 1);
        let earlier = drains[to - 1];
        assert(stepped(
            earlier,
            drains[to - 1 + 1],
            isolates[to - 1],
            isolates[to - 1 + 1],
            MacrotaskStep::More,
        ));
    }
}

/// The step in which draining goes on to the callback behind `c`.
proof fn lemma_passes<B: JsBackend>(
    drains: Seq<MacrotaskDrain>,
    isolates: Seq<Isolate<B>>,
    c: int,
    to: int,
) -> (i: int)
    requires
        is_drain(drains, isolates),
        0 <= to < drains.len(),
        0 <= c < drains[to].next,
    ensures
        0 <= i < to,
        drains[i].next == c,
        drains[i + 1].next == c + 1,
        is_true_answer(last_answer(isolates[i + 1])),
    decreases to,
{
    let earlier = drains[to - 1];
    assert(to > 0);
    assert(stepped(
        earlier,
        drains[to - 1 + 1],
        isolates[to - 1],
        isolates[to - 1 + 1],
        MacrotaskStep::More,
    ));
    if earlier.next > c {
        lemma_passes(drains, isolates, c, to - 1)
    } else {
        to - 1
    }
}

/// The answers of the event loop middleware, one for each.
pub open spec fn are_answers<F: Fn(usize) -> bool>(
    middleware: F,
    ids: Seq<usize>,
    answers: Seq<bool>,
) -> bool {
    &&& answers.len() == ids.len()
    &&& forall|i: int|
        #![trigger answers[i]]
        0 <= i < ids.len() ==> call_ensures(middleware, (ids[i],), answers[i])
}

/// Runs all event loop middleware, and tells whether any of it may have scheduled something.
pub fn run_middlewares<F: Fn(usize) -> bool>(ids: &Vec<usize>, middleware: &F) -> (scheduling: bool)
    requires
        forall|id: usize| call_requires(*middleware, (id,)),
    ensures
        exists|answers: Seq<bool>| #[trigger]
            are_answers(*middleware, ids@, answers) && scheduling == answers.contains(true),
{
    let mut maybe_scheduling = false;
    let ghost mut answers: Seq<bool> = Seq::empty();
    let mut i: usize = 0;
    while i < ids.len()
        invariant
            i <= ids@.len(),
            forall|id: usize| call_requires(*middleware, (id,)),
            are_answers(*middleware, ids@.take(i as int), answers),
            maybe_scheduling == answers.contains(true),
        decreases ids@.len() - i,
    {
        let answer = middleware(ids[i]);
        proof {
            let before = answers;
            answers = before.push(answer);
            assert(answers[before.len() as int] == answer);
            if before.contains(true) {
                let k = choose|k: int| 0 <= k < before.len() && before[k];
                assert(answers[k]);
            }
            if answers.contains(true) {
                let k = choose|k: int| 0 <= k < answers.len() && answers[k];
                if k < before.len() {
                    assert(before[k]);
                }
            }
            let taken = ids@.take(i + 1);
            assert forall|k: int| #![trigger answers[k]] 0 <= k < taken.len() implies call_ensures(
                *middleware,
                (taken[k],),
                answers[k],
            ) by {
                if k < i {
                    assert(before[k] == answers[k]);
                    assert(ids@.take(i as int)[k] == taken[k]);
                }
            }
        }
        if answer {
            maybe_scheduling = true;
        }
        i = i + 1;
    }
    assert(ids@.take(i as int) == ids@);
    maybe_scheduling
}

/// How a turn of the event loop ended.
#[derive(Debug)]
pub enum Turn {
    /// There is nothing left to wait for, or an error came up.
    Ready(Result<(), Error>),
    /// There is more to wait for. The runtime has to be polled again at once if `wake` is set.
    Pending { wake: bool },
}

/// How a turn ends, by what is left pending.
pub open spec fn turn_end(
    slots: Seq<ContextState>,
    state: JsRuntimeState,
    maybe_scheduling: bool,
) -> Turn {
    if !has_refed_ops(slots, state) && !state.has_tick_scheduled && !maybe_scheduling {
        Turn::Ready(Ok(()))
    } else {
        Turn::Pending {
            wake: state.have_unpolled_ops || state.has_tick_scheduled || maybe_scheduling,
        }
    }
}

/// Ends a turn of the event loop.
pub fn end_turn<B>(isolate: &Isolate<B>, maybe_scheduling: bool) -> (turn: Turn)
    requires
        isolate.state is Some,
    ensures
        turn == turn_end(isolate.slots@, isolate.state->0, maybe_scheduling),
{
    match &isolate.state {
        Some(state) => {
            let pending_state = EventLoopPendingState::new(&isolate.slots, state);
            if !pending_state.is_pending() && !maybe_scheduling {
                return Turn::Ready(Ok(()));
            }
            Turn::Pending {
                wake: state.have_unpolled_ops || pending_state.has_tick_scheduled
                    || maybe_scheduling,
            }
        },
        None => Turn::Ready(Ok(())),
    }
}

/// While a tick is scheduled, middleware may have scheduled something, or an op is pending and all
/// pending ops are waited for, no turn is the last one.
pub proof fn work_keeps_loop_going(
    slots: Seq<ContextState>,
    state: JsRuntimeState,
    maybe_scheduling: bool,
)
    requires
        state.has_tick_scheduled || maybe_scheduling || (pending_count(state.pending_ops) > 0
            && unrefed_count(slots) == 0),
    ensures
        turn_end(slots, state, maybe_scheduling) is Pending,
{
}

/// Ops that JavaScript does not wait for do not keep the event loop going: where there are no
/// other pending ops, and nothing else is scheduled, the turn is the last.
pub proof fn unrefed_ops_let_loop_end(slots: Seq<ContextState>, state: JsRuntimeState)
    requires
        pending_count(state.pending_ops) <= unrefed_count(slots),
        !state.has_tick_scheduled,
    ensures
        turn_end(slots, state, false) == Turn::Ready(Ok(())),
{
}

/// What became of a future that was polled once when its op was called.
pub enum EagerPollResult<F> {
    Ready(CompletedOp),
    Pending(F),
}

/// The op is queued: one future more is pending, and it has to be polled. Where the op is done
/// already, it is the future's output.
pub open spec fn queued<B>(
    before: Isolate<B>,
    after: Isolate<B>,
    done: Option<CompletedOp>,
) -> bool {
    &&& after.state is Some
    &&& done_ops(after.state->0.pending_ops) == match done {
        Some(op) => done_ops(before.state->0.pending_ops).push(op),
        None => done_ops(before.state->0.pending_ops),
    }
    &&& only_done(after.state->0.pending_ops) == (done is Some && only_done(
        before.state->0.pending_ops,
    ))
    &&& pending_count(after.state->0.pending_ops) == pending_count(before.state->0.pending_ops) + 1
    &&& after == (Isolate {
        state: Some(
            JsRuntimeState {
                pending_ops: after.state->0.pending_ops,
                have_unpolled_ops: true,
                ..before.state->0
            },
        ),
        ..before
    })
}

/// Queues an async op without polling it.
pub fn queue_fast_async_op<B, F: Future<Output = CompletedOp> + 'static>(
    _ctx: &OpCtx,
    isolate: &mut Isolate<B>,
    op: F,
)
    requires
        old(isolate).state is Some,
    ensures
        queued(*old(isolate), *final(isolate), None),
        final(isolate).keeps(*old(isolate)),
{
    if let Some(state) = isolate.state.take() {
        let mut state = state;
        pending_push(&mut state.pending_ops, op);
        state.have_unpolled_ops = true;
        isolate.state = Some(state);
    }
}

/// An op that was done at once was counted.
pub open spec fn counted_at_once<B>(before: Isolate<B>, after: Isolate<B>, op: CompletedOp) -> bool {
    &&& after.state is Some
    &&& after.state->0.op_state.tracker.completed_async@
        == before.state->0.op_state.tracker.completed_async@.update(
        op.op_id as int,
        counted(before.state->0.op_state.tracker.completed_async@[op.op_id as int]),
    )
    &&& after == (Isolate {
        state: Some(
            JsRuntimeState {
                op_state: OpState {
                    tracker: after.state->0.op_state.tracker,
                    ..before.state->0.op_state
                },
                ..before.state->0
            },
        ),
        ..before
    })
}

/// Counts an op that was done at once, and makes the batch with its response.
pub fn eager_response<B>(isolate: &mut Isolate<B>, op: CompletedOp) -> (batch: Vec<Serialized>)
    requires
        old(isolate).state is Some,
        op.op_id < old(isolate).state->0.op_state.tracker.completed_async@.len(),
        op.result.payload() is Ok,
    ensures
        serialized_views(batch@) == seq![
            SerializedView::I32(op.promise_id),
            op.result.payload()->Ok_0,
        ],
        counted_at_once(*old(isolate), *final(isolate), op),
        final(isolate).keeps(*old(isolate)),
{
    let mut args: Vec<Serialized> = Vec::new();
    args.push(Serialized::I32(op.promise_id));
    args.push(op.result.to_v8().unwrap());
    if let Some(state) = isolate.state.take() {
        let mut state = state;
        state.op_state.tracker.track_async_completed(op.op_id);
        isolate.state = Some(state);
    }
    assert(serialized_views(args@) =~= seq![
        SerializedView::I32(op.promise_id),
        op.result.payload()->Ok_0,
    ]);
    args
}

/// What is asked of an op that was done at once, for its response to be sent at once.
pub open spec fn can_respond_now<B>(
    isolate: Isolate<B>,
    realm_idx: RealmIdx,
    op: CompletedOp,
) -> bool {
    &&& can_respond(isolate, realm_idx)
    &&& op.op_id < isolate.state->0.op_state.tracker.completed_async@.len()
    &&& op.result.payload() is Ok
}

/// An op that was done at once was counted, JavaScript got its response in one call, and nothing
/// else happened.
pub open spec fn responded_at_once<B: JsBackend>(
    before: Isolate<B>,
    after: Isolate<B>,
    realm_idx: RealmIdx,
    op: CompletedOp,
) -> bool {
    exists|ready: Isolate<B>| #[trigger]
        counted_at_once(before, ready, op) && called(
            ready,
            after,
            Call {
                function: receiver(before, realm_idx),
                args: seq![SerializedView::I32(op.promise_id), op.result.payload()->Ok_0],
            },
        )
}

/// Sends the response of an op that was done at once.
fn respond_at_once<B: JsBackend>(scope: &mut HandleScope<'_, B>, op: CompletedOp)
    requires
        can_respond_now(*old(scope).isolate, old(scope).realm_idx, op),
    ensures
        responded_at_once(*old(scope).isolate, *final(scope).isolate, old(scope).realm_idx, op),
        final(scope).isolate.keeps(*old(scope).isolate),
        *final(final(scope).isolate) == *final(old(scope).isolate),
        final(scope).realm_idx == old(scope).realm_idx,
{
    let ghost before = *scope.isolate;
    let js_recv_cb = JsRealm::state_from_scope(scope).js_recv_cb.as_ref().unwrap().clone();
    let args = eager_response(&mut *scope.isolate, op);
    let ghost ready = *scope.isolate;
    let this = undefined(scope);
    js_recv_cb.get_data().call_with_serialized(scope, this, args);
    proof {
        scope.isolate.lemma_keeps_through(ready, before);
        assert(counted_at_once(before, ready, op));
    }
}

/// Queues an async op that was polled once. One that was done at once has its response sent
/// before control goes back to JavaScript, unless it is deferred.
pub fn queue_async_op<B: JsBackend, F: Future<Output = CompletedOp> + 'static>(
    _ctx: &OpCtx,
    scope: &mut HandleScope<'_, B>,
    deferred: bool,
    polled: EagerPollResult<F>,
)
    requires
        old(scope).isolate.state is Some,
        !deferred ==> (polled matches EagerPollResult::Ready(op) ==> can_respond_now(
            *old(scope).isolate,
            old(scope).realm_idx,
            op,
        )),
    ensures
        match polled {
            EagerPollResult::Ready(op) if !deferred => responded_at_once(
                *old(scope).isolate,
                *final(scope).isolate,
                old(scope).realm_idx,
                op,
            ),
            EagerPollResult::Ready(op) => queued(
                *old(scope).isolate,
                *final(scope).isolate,
                Some(op),
            ),
            EagerPollResult::Pending(_) => queued(
                *old(scope).isolate,
                *final(scope).isolate,
                None,
            ),
        },
        final(scope).isolate.keeps(*old(scope).isolate),
        *final(final(scope).isolate) == *final(old(scope).isolate),
        final(scope).realm_idx == old(scope).realm_idx,
{
    match polled {
        EagerPollResult::Ready(op) => {
            if !deferred {
                respond_at_once(scope, op);
            } else if let Some(state) = scope.isolate.state.take() {
                let mut state = state;
                pending_push_ready(&mut state.pending_ops, op);
                state.have_unpolled_ops = true;
                scope.isolate.state = Some(state);
            }
        },
        EagerPollResult::Pending(op) => {
            if let Some(state) = scope.isolate.state.take() {
                let mut state = state;
                pending_push(&mut state.pending_ops, op);
                state.have_unpolled_ops = true;
                scope.isolate.state = Some(state);
            }
        },
    }
}

} // verus!

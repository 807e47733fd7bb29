//! What JavaScript is called for, and what its answers do.
use crate::backend::{
    called, calls_keep_history, serialized_views, BackendEvent, Call, JsBackend, Run,
};
use crate::data::{Function, Value, ValueView};
use crate::error::{Error, JsError};
use crate::event_loop::{
    exception_to_err_result, is_reported, reported, select_exception, uncaught,
};
use crate::handle::{HandleInternal, Local};
use crate::isolate::Isolate;
use crate::laws::completions::is_told;
use crate::laws::texts::copies;
use crate::laws::values::holds;
use crate::ops::{CompletedOp, OpCtx, RealmIdx};
use crate::pending::{done_ops, pending_count};
use crate::scope::HandleScope;
use crate::serde::{Deserialized, Serialized, SerializedView};
use crate::turn::{
    counted_at_once, drain_nexttick, eager_response, plain_calls, queue_async_op, queue_fast_async_op,
    EagerPollResult, MacrotaskDrain, MacrotaskStep,
};
use std::future::Future;
use vstd::prelude::*;

verus! {

/// Arguments are sent one by one, in the order in which they come.
pub proof fn arguments_are_sent_in_order(args: Seq<Serialized>, i: int)
    requires
        0 <= i < args.len(),
    ensures
        serialized_views(args).len() == args.len(),
        serialized_views(args)[i] == args[i]@,
{
}

/// Where a tick is scheduled, each next tick callback is called once, without arguments, in the
/// order in which they were set. Where none is, nothing happens.
pub proof fn ticks_call_each_callback_once<B: JsBackend>(
    isolate: &mut Isolate<B>,
    result: Result<(), Error>,
    i: int,
)
    requires
        old(isolate).state is Some,
        old(isolate).slots@.len() > 0,
        call_ensures(drain_nexttick::<B>, (isolate,), result),
        0 <= i < old(isolate).state->0.js_nexttick_cbs@.len(),
    ensures
        result is Ok,
        !old(isolate).state->0.has_tick_scheduled ==> *final(isolate) == *old(isolate),
        old(isolate).state->0.has_tick_scheduled ==> {
            let callbacks = old(isolate).state->0.js_nexttick_cbs@;
            let earlier = old(isolate).backend.events();
            let later = final(isolate).backend.events();
            &&& later.len() == earlier.len() + callbacks.len()
            &&& later.take(earlier.len() as int) == earlier
            &&& later[earlier.len() + i] matches BackendEvent::Ran {
                run: Run::InvokeFunction { call, result: _ },
                within: _,
            }
            &&& call.function == callbacks[i].value()
            &&& call.args.len() == 0
        },
{
    if old(isolate).state->0.has_tick_scheduled {
        let calls = plain_calls(old(isolate).state->0.js_nexttick_cbs@);
        calls_keep_history(*old(isolate), *final(isolate), calls);
        assert(calls[i].args.len() == 0);
    }
}

/// Macrotasks are called from the first on, one in each step, without arguments. The one behind is
/// next where the answer is `true` itself; any other answer leaves it to be called again. When all
/// are done nothing is called.
pub proof fn macrotasks_go_on_with_true<B: JsBackend>(
    drain: &mut MacrotaskDrain,
    isolate: &mut Isolate<B>,
    step: Result<MacrotaskStep, Error>,
)
    requires
        old(drain).next <= old(drain).callbacks@.len(),
        old(isolate).state is Some,
        old(isolate).slots@.len() > 0,
        call_ensures(MacrotaskDrain::step::<B>, (drain, isolate), step),
    ensures
        final(drain).callbacks == old(drain).callbacks,
        old(drain).next == old(drain).callbacks@.len() ==> step == Ok::<_, Error>(
            MacrotaskStep::Done,
        ) && *final(isolate) == *old(isolate) && final(drain).next == old(drain).next,
        old(drain).next < old(drain).callbacks@.len() ==> {
            let earlier = old(isolate).backend.events();
            let later = final(isolate).backend.events();
            &&& later.len() == earlier.len() + 1
            &&& later.take(earlier.len() as int) == earlier
            &&& later.last() matches BackendEvent::Ran {
                run: Run::InvokeFunction { call, result },
                within: _,
            }
            &&& call.function == old(drain).callbacks@[old(drain).next as int].value()
            &&& call.args.len() == 0
            &&& result == Some(Deserialized::Bool(true)) ==> final(drain).next == old(drain).next
                + 1 && step == Ok::<_, Error>(MacrotaskStep::More)
            &&& result != Some(Deserialized::Bool(true)) ==> final(drain).next == old(drain).next
            &&& result is None ==> step == Ok::<_, Error>(MacrotaskStep::Unanswered)
            &&& result matches Some(Deserialized::Bool(_)) ==> step == Ok::<_, Error>(
                MacrotaskStep::More,
            )
        },
{
    if old(drain).next < old(drain).callbacks@.len() {
        let earlier = old(isolate).backend.events();
        let later = final(isolate).backend.events();
        assert(later.take(earlier.len() as int) =~= earlier);
        let result = crate::backend::last_answer(*final(isolate));
        let answer = choose|answer: Option<Value>| #[trigger]
            crate::data::is_answer(result, answer) && step->Ok_0 == (if answer is Some {
                MacrotaskStep::More
            } else {
                MacrotaskStep::Unanswered
            });
        if let Some(Deserialized::Bool(flag)) = result {
            if answer is None {
                let cause = choose|cause: crate::serde::DeError| #[trigger]
                    crate::serde::reads(result->0, Err::<Value, _>(cause));
                assert(!crate::serde::reads(Deserialized::Bool(flag), Err::<Value, _>(cause)));
            }
        }
    }
}

/// Draining begins with the first of all macrotask callbacks.
pub proof fn macrotasks_begin_with_the_first<B>(isolate: Isolate<B>, drain: MacrotaskDrain)
    requires
        isolate.state is Some,
        call_ensures(MacrotaskDrain::new::<B>, (&isolate,), drain),
    ensures
        drain.next == 0,
        drain.callbacks@ == isolate.state->0.js_macrotask_cbs@,
{
}

/// An op that was done at once, and is not deferred, is counted once, and JavaScript of the realm is
/// told of it in one call: the number of its promise, and its result. It is not queued.
pub proof fn eager_ops_are_told_at_once<'s, B: JsBackend, F: Future<Output = CompletedOp> + 'static>(
    ctx: OpCtx,
    scope: &mut HandleScope<'s, B>,
    op: CompletedOp,
)
    requires
        crate::turn::can_respond_now(*old(scope).isolate, old(scope).realm_idx, op),
        call_ensures(
            queue_async_op::<B, F>,
            (&ctx, scope, false, EagerPollResult::Ready(op)),
            (),
        ),
    ensures
        ({
            let before = *old(scope).isolate;
            let after = *final(scope).isolate;
            let earlier = before.backend.events();
            let later = after.backend.events();
            &&& later.len() == earlier.len() + 1
            &&& later.take(earlier.len() as int) == earlier
            &&& later.last() matches BackendEvent::Ran {
                run: Run::InvokeFunction { call, result: _ },
                within: _,
            }
            &&& call.function
                == before.slots@[old(scope).realm_idx as int].js_recv_cb->0.value()
            &&& call.args.len() == 2
            &&& call.args[0] == SerializedView::I32(op.promise_id)
            &&& is_told(op.result, call.args[1])
        }),
{
    let before = *old(scope).isolate;
    let after = *final(scope).isolate;
    let ready = choose|ready: Isolate<B>| #[trigger]
        counted_at_once(before, ready, op) && called(
            ready,
            after,
            Call {
                function: crate::event_loop::receiver(before, old(scope).realm_idx),
                args: seq![SerializedView::I32(op.promise_id), op.result.payload()->Ok_0],
            },
        );
    assert(ready.backend == before.backend);
    assert(after.backend.events().take(before.backend.events().len() as int)
        =~= before.backend.events());
}

/// An op that is counted at once is counted under its number, and nothing else changes.
pub proof fn eager_ops_are_counted_once<B>(
    before: Isolate<B>,
    after: Isolate<B>,
    op: CompletedOp,
    id: int,
)
    requires
        before.state is Some,
        counted_at_once(before, after, op),
        op.op_id < before.state->0.op_state.tracker.completed_async@.len(),
        0 <= id < before.state->0.op_state.tracker.completed_async@.len(),
    ensures
        ({
            let counts = before.state->0.op_state.tracker.completed_async@;
            let later = after.state->0.op_state.tracker.completed_async@;
            &&& later.len() == counts.len()
            &&& id != op.op_id ==> later[id] == counts[id]
            &&& id == op.op_id && counts[id] < u64::MAX ==> later[id] == counts[id] + 1
            &&& id == op.op_id && counts[id] == u64::MAX ==> later[id] == u64::MAX
        }),
        after.slots == before.slots,
        after.backend == before.backend,
        after.state->0.pending_ops == before.state->0.pending_ops,
        after.state->0.have_unpolled_ops == before.state->0.have_unpolled_ops,
{
}

/// An op that is deferred, or that is not done yet, is queued: one op more is pending, it has to be
/// polled, and JavaScript is told nothing yet. One that is done comes out behind those before it.
pub proof fn other_ops_are_queued<'s, B: JsBackend, F: Future<Output = CompletedOp> + 'static>(
    ctx: OpCtx,
    scope: &mut HandleScope<'s, B>,
    deferred: bool,
    polled: EagerPollResult<F>,
)
    requires
        old(scope).isolate.state is Some,
        deferred || polled is Pending,
        call_ensures(queue_async_op::<B, F>, (&ctx, scope, deferred, polled), ()),
    ensures
        final(scope).isolate.backend == old(scope).isolate.backend,
        final(scope).isolate.slots == old(scope).isolate.slots,
        final(scope).isolate.state->0.have_unpolled_ops,
        pending_count(final(scope).isolate.state->0.pending_ops) == pending_count(
            old(scope).isolate.state->0.pending_ops,
        ) + 1,
        polled matches EagerPollResult::Ready(op) ==> done_ops(
            final(scope).isolate.state->0.pending_ops,
        ) == done_ops(old(scope).isolate.state->0.pending_ops).push(op),
        final(scope).isolate.state->0.op_state == old(scope).isolate.state->0.op_state,
{
}

/// A fast op is queued without being polled.
pub proof fn fast_ops_are_queued<B, F: Future<Output = CompletedOp> + 'static>(
    ctx: OpCtx,
    isolate: &mut Isolate<B>,
    op: F,
)
    requires
        old(isolate).state is Some,
        call_ensures(queue_fast_async_op::<B, F>, (&ctx, isolate, op), ()),
    ensures
        final(isolate).backend == old(isolate).backend,
        final(isolate).slots == old(isolate).slots,
        final(isolate).state->0.have_unpolled_ops,
        pending_count(final(isolate).state->0.pending_ops) == pending_count(
            old(isolate).state->0.pending_ops,
        ) + 1,
        final(isolate).state->0.op_state == old(isolate).state->0.op_state,
{
}

/// The first exception that was dispatched is what is reported, whatever was thrown. Where none was,
/// it is what was thrown, or a note that the execution was terminated where nothing was.
pub proof fn first_dispatched_wins<'s, B>(
    scope: &mut HandleScope<'s, B>,
    thrown: Local<'s, Value>,
    was_terminating: bool,
    selected: Local<'s, Value>,
)
    requires
        old(scope).isolate.state is Some,
        call_ensures(select_exception::<B>, (scope, thrown, was_terminating), selected),
    ensures
        ({
            let dispatched = old(scope).isolate.state->0.dispatched_exceptions@;
            let nothing = thrown.value() is Null || thrown.value() is Undefined;
            &&& dispatched.len() > 0 ==> selected.value()@ == dispatched[dispatched.len()
                - 1].value()@
            &&& dispatched.len() == 0 && !(was_terminating && nothing) ==> selected.value()@
                == thrown.value()@
            &&& dispatched.len() == 0 && was_terminating && nothing ==> (
            selected.value() matches Value::Exception { class, message } && class@ == "Error"@
                && message@ == "execution terminated"@)
        }),
{
}

/// A thrown value becomes an error of which nothing is known but its description. Where no callback
/// describes it, nothing is called and the description is empty; otherwise the callback is called
/// once, with the value that is reported, and its answer is the description where it is a string. In
/// a promise the description begins with a note of that, in place of any other of its kind.
pub proof fn thrown_values_are_described<B: JsBackend>(
    before: Isolate<B>,
    after: Isolate<B>,
    realm_idx: RealmIdx,
    thrown: Value,
    in_promise: bool,
    error: Error,
)
    requires
        before.state is Some,
        is_reported(before, after, realm_idx, thrown, in_promise, error),
    ensures
        error matches Error::Js(js_error) && js_error.stack is None && js_error.frames@.len() == 0
            && js_error.cause is None && js_error.aggregated is None && js_error.name is None
            && js_error.message is None && js_error.source_line is None,
        ({
            let text = error->Js_0.exception_message@;
            let cb = before.slots@[realm_idx as int].js_format_exception_cb;
            let earlier = before.backend.events();
            let later = after.backend.events();
            &&& cb is None ==> after == before && text == (if in_promise {
                "Uncaught (in promise) "@
            } else {
                Seq::<char>::empty()
            })
            &&& cb matches Some(cb) ==> {
                &&& later.len() == earlier.len() + 1
                &&& later.last() matches BackendEvent::Ran {
                    run: Run::InvokeFunction { call, result },
                    within: _,
                }
                &&& call.function == cb.value()
                &&& call.args.len() == 1
                &&& result matches Some(Deserialized::Str(answer)) ==> {
                    &&& !in_promise ==> text == answer@
                    &&& in_promise ==> exists|rest: Seq<char>, count: nat|
                        #![trigger copies("Uncaught "@, count) + rest]
                        text == "Uncaught (in promise) "@ + rest && answer@ == copies(
                            "Uncaught "@,
                            count,
                        ) + rest && !"Uncaught "@.is_prefix_of(rest)
                }
            }
        }),
{
    let view = reported(before.state->0.dispatched_exceptions@, false, thrown);
    let message = choose|message: Seq<char>| #[trigger]
        crate::error::formatted(before, after, realm_idx, view, message)
            && error->Js_0.exception_message@ == uncaught(message, in_promise);
    let cb = before.slots@[realm_idx as int].js_format_exception_cb;
    reveal_strlit("Uncaught ");
    if cb is None {
        assert(crate::text::trimmed_start(Seq::<char>::empty(), "Uncaught "@) == Seq::<
            char,
        >::empty());
        assert("Uncaught (in promise) "@ + Seq::<char>::empty() =~= "Uncaught (in promise) "@);
    } else {
        let result = crate::backend::last_answer(after);
        let answer = choose|answer: Option<Value>| #[trigger]
            crate::data::is_answer(result, answer) && message == crate::error::described(answer);
        if let Some(Deserialized::Str(text)) = result {
            if answer is None {
                let cause = choose|cause: crate::serde::DeError| #[trigger]
                    crate::serde::reads(result->0, Err::<Value, _>(cause));
                assert(!crate::serde::reads(Deserialized::Str(text), Err::<Value, _>(cause)));
            }
            assert(message == text@);
            let count = crate::laws::texts::lemma_trimmed(message, "Uncaught "@);
            let rest = crate::text::trimmed_start(message, "Uncaught "@);
            assert(message == copies("Uncaught "@, count) + rest);
        }
    }
}

/// What the callback that describes exceptions is told is what is reported.
pub proof fn reported_values_are_told<B: JsBackend>(
    before: Isolate<B>,
    after: Isolate<B>,
    realm_idx: RealmIdx,
    thrown: Value,
    in_promise: bool,
    error: Error,
    form: Serialized,
    value: Value,
)
    requires
        before.state is Some,
        is_reported(before, after, realm_idx, thrown, in_promise, error),
        before.slots@[realm_idx as int].js_format_exception_cb is Some,
        value@ == (if before.state->0.dispatched_exceptions@.len() > 0 {
            before.state->0.dispatched_exceptions@[before.state->0.dispatched_exceptions@.len()
                - 1].value()@
        } else {
            thrown@
        }),
        holds(form, value),
    ensures
        after.backend.events().last() matches BackendEvent::Ran {
            run: Run::InvokeFunction { call, result: _ },
            within: _,
        } && call.args[0] == form@,
{
    let view = reported(before.state->0.dispatched_exceptions@, false, thrown);
    assert(view == value@);
    assert(form@ == crate::serde::sent(value@));
}

/// The result of a thrown value is never a value: it is the error that describes it.
pub proof fn thrown_values_are_errors<'s, T, B: JsBackend>(
    scope: &mut HandleScope<'s, B>,
    thrown: Local<'s, Value>,
    in_promise: bool,
    result: Result<T, Error>,
)
    requires
        old(scope).isolate.state is Some,
        old(scope).realm_idx < old(scope).isolate.slots@.len(),
        call_ensures(exception_to_err_result::<T, B>, (scope, thrown, in_promise), result),
    ensures
        result matches Err(Error::Js(js_error)) && js_error.stack is None
            && js_error.frames@.len() == 0,
        old(scope).isolate.slots@[old(scope).realm_idx as int].js_format_exception_cb is None
            ==> *final(scope).isolate == *old(scope).isolate
            && result->Err_0->Js_0.exception_message@ == (if in_promise {
            "Uncaught (in promise) "@
        } else {
            Seq::<char>::empty()
        }),
        ({
            let cb = old(scope).isolate.slots@[old(scope).realm_idx as int].js_format_exception_cb;
            let earlier = old(scope).isolate.backend.events();
            let later = final(scope).isolate.backend.events();
            &&& cb matches Some(cb) ==> {
                &&& later.len() == earlier.len() + 1
                &&& later.last() matches BackendEvent::Ran {
                    run: Run::InvokeFunction { call, result: answer },
                    within: _,
                }
                &&& call.function == cb.value()
                &&& call.args.len() == 1
                &&& answer matches Some(Deserialized::Str(text)) ==> !in_promise
                    ==> result->Err_0->Js_0.exception_message@ == text@
            }
        }),
{
    thrown_values_are_described(
        *old(scope).isolate,
        *final(scope).isolate,
        old(scope).realm_idx,
        thrown.value(),
        in_promise,
        result->Err_0,
    );
}

/// An exception is described by what the callback of its realm answers to it, where that is a
/// string, and by nothing where there is no callback.
pub proof fn exceptions_are_described<'s, B: JsBackend>(
    scope: &mut HandleScope<'s, B>,
    thrown: Local<'s, Value>,
    form: Serialized,
    error: JsError,
)
    requires
        old(scope).realm_idx < old(scope).isolate.slots@.len(),
        call_ensures(JsError::from_v8_exception::<B>, (scope, thrown), error),
        holds(form, thrown.value()),
    ensures
        error.stack is None && error.frames@.len() == 0 && error.cause is None,
        ({
            let cb = old(scope).isolate.slots@[old(scope).realm_idx as int].js_format_exception_cb;
            let earlier = old(scope).isolate.backend.events();
            let later = final(scope).isolate.backend.events();
            &&& cb is None ==> *final(scope).isolate == *old(scope).isolate
                && error.exception_message@.len() == 0
            &&& cb matches Some(cb) ==> {
                &&& later.len() == earlier.len() + 1
                &&& later.last() matches BackendEvent::Ran {
                    run: Run::InvokeFunction { call, result: answer },
                    within: _,
                }
                &&& call.function == cb.value()
                &&& call.args.len() == 1
                &&& call.args[0] == form@
                &&& answer matches Some(Deserialized::Str(text)) ==> error.exception_message@
                    == text@
                &&& answer is None ==> error.exception_message@.len() == 0
            }
        }),
{
    assert(form@ == crate::serde::sent(thrown.value()@));
    let cb = old(scope).isolate.slots@[old(scope).realm_idx as int].js_format_exception_cb;
    if cb is Some {
        let result = crate::backend::last_answer(*final(scope).isolate);
        let message = error.exception_message@;
        let answer = choose|answer: Option<Value>| #[trigger]
            crate::data::is_answer(result, answer) && message == crate::error::described(answer);
        if let Some(Deserialized::Str(text)) = result {
            if answer is None {
                let cause = choose|cause: crate::serde::DeError| #[trigger]
                    crate::serde::reads(result->0, Err::<Value, _>(cause));
                assert(!crate::serde::reads(Deserialized::Str(text), Err::<Value, _>(cause)));
            }
        }
    }
}

/// A function is called once, with its arguments in order, each sent as what it is, and what comes
/// of it is what is read from the answer.
pub proof fn functions_are_called_with_their_arguments<'s, B: JsBackend>(
    function: Function,
    scope: &mut HandleScope<'s, B>,
    recv: Local<'s, Value>,
    args: &[Local<'s, Value>],
    value: Option<Local<'s, Value>>,
    forms: Seq<Serialized>,
    i: int,
)
    requires
        recv.value() is Undefined,
        call_ensures(Function::call::<B>, (&function, scope, recv, args), value),
        forms.len() == args@.len(),
        forall|k: int| 0 <= k < args@.len() ==> holds(#[trigger] forms[k], args@[k].value()),
        0 <= i < args@.len(),
    ensures
        ({
            let earlier = old(scope).isolate.backend.events();
            let later = final(scope).isolate.backend.events();
            &&& later.len() == earlier.len() + 1
            &&& later.last() matches BackendEvent::Ran {
                run: Run::InvokeFunction { call, result },
                within: _,
            }
            &&& call.function == function
            &&& call.args.len() == args@.len()
            &&& call.args[i] == forms[i]@
            &&& result is None ==> value is None
            &&& result matches Some(Deserialized::Bool(flag)) ==> (value matches Some(handle)
                && handle.value() == (Value::Boolean { inner: flag }))
            &&& result matches Some(Deserialized::Str(text)) ==> (value matches Some(handle)
                && handle.value()@ == ValueView::String(text@))
            &&& result matches Some(Deserialized::Absent) ==> (value matches Some(handle)
                && handle.value() is Null)
            &&& result matches Some(Deserialized::Unit) ==> value is None
        }),
{
    let result = crate::backend::last_answer(*final(scope).isolate);
    assert(forms[i]@ == crate::serde::sent(args@[i].value()@));
    lemma_answer(result, crate::data::handle_value(value));
}

proof fn lemma_answer(result: Option<Deserialized>, value: Option<Value>)
    requires
        crate::data::is_answer(result, value),
    ensures
        result is None ==> value is None,
        result matches Some(Deserialized::Bool(flag)) ==> value == Some(
            Value::Boolean { inner: flag },
        ),
        result matches Some(Deserialized::Str(text)) ==> (value matches Some(value) && value@
            == ValueView::String(text@)),
        result matches Some(Deserialized::Absent) ==> value == Some(Value::Null),
        result matches Some(Deserialized::Unit) ==> value is None,
{
    if result is Some && value is None {
        let cause = choose|cause: crate::serde::DeError| #[trigger]
            crate::serde::reads(result->0, Err::<Value, _>(cause));
        assert(crate::serde::reads(result->0, Err::<Value, _>(cause)));
    }
}

/// What native code gets of an answer is the value that is read from it, or nothing.
pub proof fn answers_are_read<'s, B>(
    scope: &mut HandleScope<'s, B>,
    result: Option<Deserialized>,
    value: Option<Local<'s, Value>>,
)
    requires
        call_ensures(Function::read_answer::<B>, (scope, result), value),
    ensures
        result is None ==> value is None,
        result matches Some(Deserialized::Bool(flag)) ==> (value matches Some(handle)
            && handle.value() == (Value::Boolean { inner: flag })),
        result matches Some(Deserialized::Str(text)) ==> (value matches Some(handle)
            && handle.value()@ == ValueView::String(text@)),
        result matches Some(Deserialized::Absent) ==> (value matches Some(handle)
            && handle.value() is Null),
        result matches Some(Deserialized::Unit) ==> value is None,
{
    lemma_answer(result, crate::data::handle_value(value));
}

/// Arguments that are serialized already are sent as they are, and the answer is the backend's own.
pub proof fn serialized_arguments_are_sent_as_they_are<'s, B: JsBackend>(
    function: Function,
    scope: &mut HandleScope<'s, B>,
    recv: Local<'s, Value>,
    args: Vec<Serialized>,
    answer: Option<Deserialized>,
    i: int,
)
    requires
        call_ensures(Function::call_with_serialized::<B>, (&function, scope, recv, args), answer),
        0 <= i < args@.len(),
    ensures
        ({
            let earlier = old(scope).isolate.backend.events();
            let later = final(scope).isolate.backend.events();
            &&& later.len() == earlier.len() + 1
            &&& later.last() matches BackendEvent::Ran {
                run: Run::InvokeFunction { call, result },
                within: _,
            }
            &&& call.function == function
            &&& call.args.len() == args@.len()
            &&& call.args[i] == args@[i]@
            &&& result == answer
        }),
{
}

/// Draining goes on to the next callback with the answer `true` alone, and an answer of any kind is
/// one.
pub proof fn only_true_goes_on(
    drain: &mut MacrotaskDrain,
    answer: Option<Value>,
    step: MacrotaskStep,
)
    requires
        old(drain).next < old(drain).callbacks@.len(),
        call_ensures(MacrotaskDrain::take_answer, (drain, answer), step),
    ensures
        final(drain).callbacks == old(drain).callbacks,
        answer == Some(Value::Boolean { inner: true }) ==> final(drain).next == old(drain).next + 1,
        answer != Some(Value::Boolean { inner: true }) ==> final(drain).next == old(drain).next,
        answer is Some <==> step == MacrotaskStep::More,
        answer is None <==> step == MacrotaskStep::Unanswered,
{
}

/// The batch of an op that was done at once is the number of its promise and its result.
pub proof fn eager_batches_hold_one_pair<B>(
    isolate: &mut Isolate<B>,
    op: CompletedOp,
    batch: Vec<Serialized>,
)
    requires
        op.result !is Unserializable,
        call_ensures(eager_response::<B>, (isolate, op), batch),
    ensures
        batch@.len() == 2,
        batch@[0] matches Serialized::I32(id) && id == op.promise_id,
        is_told(op.result, batch@[1]@),
{
    assert(serialized_views(batch@).len() == 2);
    assert(serialized_views(batch@)[0] == batch@[0]@);
    assert(serialized_views(batch@)[1] == batch@[1]@);
}

} // verus!

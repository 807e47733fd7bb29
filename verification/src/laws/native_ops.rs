//! What native operations do.
use crate::backend::{BackendEvent, JsBackend, MemoryUsage};
use crate::bindings::throw_type_error;
use crate::data::{Function, Value};
use crate::error::{Error, JsError};
use crate::event_loop::unrefed_count;
use crate::handle::{Global, HandleInternal, Local};
use crate::function::{returned, ReturnValue};
use crate::laws::completions::is_told;
use crate::laws::texts::has;
use crate::ops::{FunctionCallback, OpDecl, OpError, OpId, OpResult, OpState, OpsTracker, UserData};
use crate::ops_builtin_v8::{
    init_builtins_v8, op_abort_wasm_streaming, op_apply_source_map, op_arraybuffer_was_detached,
    op_create_host_object, op_decode, op_deserialize, op_destructure_error, op_dispatch_exception,
    op_encode, op_eval_context, op_event_loop_has_more_work, op_get_promise_details,
    op_get_proxy_details, op_has_pending_promise_rejection, op_has_tick_scheduled, op_memory_usage,
    op_op_names, op_queue_microtask, op_ref_op, op_remove_pending_promise_rejection,
    op_run_microtasks, op_serialize, op_set_format_exception_callback, op_set_has_tick_scheduled,
    op_set_macrotask_callback, op_set_next_tick_callback, op_set_promise_hooks,
    op_set_promise_reject_callback, op_set_wasm_streaming_callback,
    op_store_pending_promise_rejection, op_unref_op, to_v8_fn, to_v8_local_fn, without_bom, EvalContextResult,
    Location, PromiseDetails, SerializeDeserializeOptions,
};
use crate::pending::pending_count;
use crate::scope::HandleScope;
use crate::serde::{Serialized, SerializedView, Value as SerdeValue};
use crate::wrappers::ZeroCopyBuf;
use vstd::prelude::*;
use vstd::utf8::encode_utf8;

verus! {

/// The value is this function.
pub open spec fn is_function(value: SerdeValue, id: i32) -> bool {
    value == SerdeValue::FromBackend(Value::Function { id })
}

/// The value is neither a function nor a number that could stand for one.
pub open spec fn is_no_function(value: SerdeValue) -> bool {
    value matches SerdeValue::FromBackend(value) ==> value !is Function && value !is Integer
}

/// One callback more, behind the others.
pub open spec fn is_appended(
    before: Seq<Global<Function>>,
    after: Seq<Global<Function>>,
    id: i32,
) -> bool {
    &&& after.len() == before.len() + 1
    &&& after[before.len() as int].value() == Function(id)
    &&& forall|i: int| 0 <= i < before.len() ==> #[trigger] after[i] == before[i]
}

proof fn lemma_appended(before: Seq<Global<Function>>, after: Seq<Global<Function>>, id: i32)
    requires
        after.len() == before.len() + 1,
        after.drop_last() == before,
        after.last().value() == Function(id),
    ensures
        is_appended(before, after, id),
{
    assert forall|i: int| 0 <= i < before.len() implies #[trigger] after[i] == before[i] by {
        assert(after.drop_last()[i] == before[i]);
    }
}

/// A macrotask callback comes behind those that are there, and nothing else changes. What is no
/// function is refused, and changes nothing.
pub proof fn macrotask_callbacks_are_appended<'s, B>(
    scope: &mut HandleScope<'s, B>,
    cb: SerdeValue,
    result: Result<(), Error>,
    id: i32,
)
    requires
        old(scope).isolate.state is Some,
        call_ensures(op_set_macrotask_callback::<B>, (scope, cb), result),
    ensures
        is_function(cb, id) ==> result is Ok && is_appended(
            old(scope).isolate.state->0.js_macrotask_cbs@,
            final(scope).isolate.state->0.js_macrotask_cbs@,
            id,
        ) && final(scope).isolate.state->0.js_nexttick_cbs
            == old(scope).isolate.state->0.js_nexttick_cbs,
        is_no_function(cb) ==> (result matches Err(error) && has(
            error,
            "TypeError"@,
            if cb is FromBackend {
                "cannot convert Value type"@
            } else {
                "converting a Value::ToBackend to v8 is unsupported"@
            },
        )) && *final(scope).isolate == *old(scope).isolate,
        final(scope).isolate.slots == old(scope).isolate.slots,
        final(scope).isolate.backend == old(scope).isolate.backend,
        final(scope).isolate.state->0.has_tick_scheduled
            == old(scope).isolate.state->0.has_tick_scheduled,
{
    if is_function(cb, id) {
        lemma_appended(
            old(scope).isolate.state->0.js_macrotask_cbs@,
            final(scope).isolate.state->0.js_macrotask_cbs@,
            id,
        );
    }
}

/// A next tick callback comes behind those that are there, and nothing else changes. What is no
/// function is refused, and changes nothing.
pub proof fn tick_callbacks_are_appended<'s, B>(
    scope: &mut HandleScope<'s, B>,
    cb: SerdeValue,
    result: Result<(), Error>,
    id: i32,
)
    requires
        old(scope).isolate.state is Some,
        call_ensures(op_set_next_tick_callback::<B>, (scope, cb), result),
    ensures
        is_function(cb, id) ==> result is Ok && is_appended(
            old(scope).isolate.state->0.js_nexttick_cbs@,
            final(scope).isolate.state->0.js_nexttick_cbs@,
            id,
        ) && final(scope).isolate.state->0.js_macrotask_cbs
            == old(scope).isolate.state->0.js_macrotask_cbs,
        is_no_function(cb) ==> (result matches Err(error) && has(
            error,
            "TypeError"@,
            if cb is FromBackend {
                "cannot convert Value type"@
            } else {
                "converting a Value::ToBackend to v8 is unsupported"@
            },
        )) && *final(scope).isolate == *old(scope).isolate,
        final(scope).isolate.slots == old(scope).isolate.slots,
        final(scope).isolate.backend == old(scope).isolate.backend,
        final(scope).isolate.state->0.has_tick_scheduled
            == old(scope).isolate.state->0.has_tick_scheduled,
{
    if is_function(cb, id) {
        lemma_appended(
            old(scope).isolate.state->0.js_nexttick_cbs@,
            final(scope).isolate.state->0.js_nexttick_cbs@,
            id,
        );
    }
}

/// What is given back of an earlier callback is that callback.
pub open spec fn is_earlier(
    earlier: Option<Global<Function>>,
    previous: Result<Option<SerdeValue>, Error>,
) -> bool {
    match earlier {
        Some(earlier) => previous matches Ok(Some(SerdeValue::ToBackend(Serialized::Function(id))))
            && id == earlier.value().0,
        None => previous matches Ok(None),
    }
}

/// A realm has one callback for rejected promises and one that describes exceptions: setting one
/// gives back the earlier, and changes neither the other nor any other realm.
pub proof fn realm_callbacks_are_replaced<'s, B>(
    scope: &mut HandleScope<'s, B>,
    cb: SerdeValue,
    previous: Result<Option<SerdeValue>, Error>,
    describing: &mut HandleScope<'s, B>,
    described: Result<Option<SerdeValue>, Error>,
    id: i32,
    r: int,
)
    requires
        old(scope).realm_idx < old(scope).isolate.slots@.len(),
        old(describing).realm_idx < old(describing).isolate.slots@.len(),
        call_ensures(op_set_promise_reject_callback::<B>, (scope, cb), previous),
        call_ensures(op_set_format_exception_callback::<B>, (describing, cb), described),
        is_function(cb, id),
        0 <= r < old(scope).isolate.slots@.len(),
        r < old(describing).isolate.slots@.len(),
    ensures
        ({
            let before = old(scope).isolate.slots@;
            let after = final(scope).isolate.slots@;
            &&& is_earlier(before[old(scope).realm_idx as int].js_promise_reject_cb, previous)
            &&& after.len() == before.len()
            &&& r == old(scope).realm_idx ==> (after[r].js_promise_reject_cb matches Some(own)
                && own.value() == Function(id)) && after[r].js_format_exception_cb
                == before[r].js_format_exception_cb && after[r].js_recv_cb == before[r].js_recv_cb
                && after[r].unrefed_ops == before[r].unrefed_ops
            &&& r != old(scope).realm_idx ==> after[r] == before[r]
            &&& final(scope).isolate.state == old(scope).isolate.state
        }),
        ({
            let before = old(describing).isolate.slots@;
            let after = final(describing).isolate.slots@;
            &&& is_earlier(before[old(describing).realm_idx as int].js_format_exception_cb, described)
            &&& after.len() == before.len()
            &&& r == old(describing).realm_idx ==> (after[r].js_format_exception_cb matches Some(
                own,
            ) && own.value() == Function(id)) && after[r].js_promise_reject_cb
                == before[r].js_promise_reject_cb && after[r].js_recv_cb == before[r].js_recv_cb
                && after[r].unrefed_ops == before[r].unrefed_ops
            &&& r != old(describing).realm_idx ==> after[r] == before[r]
            &&& final(describing).isolate.state == old(describing).isolate.state
        }),
{
}

/// A number stands for the function with that number, and nothing but a function or a number stands
/// for one.
pub proof fn functions_are_told_from_other_values(
    value: SerdeValue,
    converted: Result<Local<'_, Function>, Error>,
    id: i32,
)
    requires
        call_ensures(to_v8_local_fn, (value,), converted),
    ensures
        is_function(value, id) ==> (converted matches Ok(function) && function.value() == Function(
            id,
        )),
        is_no_function(value) ==> converted is Err,
        value matches SerdeValue::FromBackend(Value::Integer { inner }) ==> inner.represents(
            id as int,
        ) ==> (converted matches Ok(function) && function.value() == Function(id)),
{
    if let SerdeValue::FromBackend(Value::Integer { inner }) = value {
        if inner.represents(id as int) {
            crate::double::cast_gives_back(inner, id);
        }
    }
}

/// Whether a tick is scheduled is what was set last, and nothing else changes by that.
pub proof fn ticks_are_scheduled_as_set<'s, B>(
    scope: &mut HandleScope<'s, B>,
    flag: bool,
    later: HandleScope<'s, B>,
    scheduled: bool,
)
    requires
        old(scope).isolate.state is Some,
        call_ensures(op_set_has_tick_scheduled::<B>, (scope, flag), ()),
        *later.isolate == *final(scope).isolate,
        call_ensures(op_has_tick_scheduled::<B>, (&later,), scheduled),
    ensures
        scheduled == flag,
        final(scope).isolate.slots == old(scope).isolate.slots,
        final(scope).isolate.backend == old(scope).isolate.backend,
        final(scope).isolate.state->0.pending_ops == old(scope).isolate.state->0.pending_ops,
        final(scope).isolate.state->0.have_unpolled_ops
            == old(scope).isolate.state->0.have_unpolled_ops,
        final(scope).isolate.state->0.js_nexttick_cbs
            == old(scope).isolate.state->0.js_nexttick_cbs,
        final(scope).isolate.state->0.js_macrotask_cbs
            == old(scope).isolate.state->0.js_macrotask_cbs,
{
}

/// An op that is not waited for is one that the realm does not wait for, and one that is waited for
/// is not. No other op and no other realm is touched.
pub proof fn ops_are_waited_for_as_told<'s, B>(
    scope: &mut HandleScope<'s, B>,
    unref: &mut HandleScope<'s, B>,
    promise_id: i32,
    other_id: i32,
    r: int,
)
    requires
        old(scope).realm_idx < old(scope).isolate.slots@.len(),
        old(unref).realm_idx < old(unref).isolate.slots@.len(),
        call_ensures(op_ref_op::<B>, (scope, promise_id), ()),
        call_ensures(op_unref_op::<B>, (unref, promise_id), ()),
        other_id != promise_id,
        0 <= r < old(scope).isolate.slots@.len(),
        r < old(unref).isolate.slots@.len(),
    ensures
        ({
            let at = old(scope).realm_idx as int;
            let before = old(scope).isolate.slots@;
            let after = final(scope).isolate.slots@;
            &&& !after[at].unrefed_ops@.contains(promise_id)
            &&& after[at].unrefed_ops@.contains(other_id) == before[at].unrefed_ops@.contains(
                other_id,
            )
            &&& r != at ==> after[r] == before[r]
            &&& final(scope).isolate.state == old(scope).isolate.state
        }),
        ({
            let at = old(unref).realm_idx as int;
            let before = old(unref).isolate.slots@;
            let after = final(unref).isolate.slots@;
            &&& after[at].unrefed_ops@.contains(promise_id)
            &&& after[at].unrefed_ops@.contains(other_id) == before[at].unrefed_ops@.contains(
                other_id,
            )
            &&& r != at ==> after[r] == before[r]
            &&& final(unref).isolate.state == old(unref).isolate.state
        }),
{
}

/// The event loop has more work where a tick is scheduled, or where more ops are pending than those
/// that are not waited for, and nowhere else.
pub proof fn more_work_is_told<'s, B>(scope: HandleScope<'s, B>, pending: bool)
    requires
        scope.isolate.state is Some,
        call_ensures(op_event_loop_has_more_work::<B>, (&scope,), pending),
    ensures
        pending <==> old(scope.isolate).state->0.has_tick_scheduled || pending_count(
            old(scope.isolate).state->0.pending_ops,
        ) > unrefed_count(old(scope.isolate).slots@),
{
}

/// Only strings are encoded, to the bytes of their UTF-8 form.
pub proof fn strings_are_encoded<'s, B>(
    scope: &mut HandleScope<'s, B>,
    text: SerdeValue,
    encoded: Result<Vec<u8>, Error>,
)
    requires
        call_ensures(op_encode::<B>, (scope, text), encoded),
    ensures
        text matches SerdeValue::FromBackend(Value::String { inner }) ==> (encoded matches Ok(bytes)
            && bytes@ == encode_utf8(inner@)),
        !(text matches SerdeValue::FromBackend(Value::String { .. })) ==> (encoded matches Err(
            error,
        ) && has(error, "TypeError"@, "Invalid argument"@)),
{
}

/// The bytes of a text are decoded to that text, with a byte order mark before them or without one.
/// What is too long for a string is refused.
pub proof fn encoded_texts_are_decoded<'s, B>(
    scope: &mut HandleScope<'s, B>,
    text: Seq<char>,
    bytes: &[u8],
    decoded: Result<SerdeValue, Error>,
)
    requires
        call_ensures(op_decode::<B>, (scope, bytes), decoded),
        ({
            let own = encode_utf8(text);
            let marked = own.len() >= 3 && own[0] == 0xef && own[1] == 0xbb && own[2] == 0xbf;
            ||| bytes@ == own && !marked
            ||| bytes@ == seq![0xefu8, 0xbbu8, 0xbfu8] + own
        }),
    ensures
        encode_utf8(text).len() <= 268_435_440 ==> (decoded matches Ok(
            SerdeValue::ToBackend(Serialized::String(own)),
        ) && own@ == text),
        encode_utf8(text).len() > 536_870_888 ==> (decoded matches Err(error) && has(
            error,
            "RangeError"@,
            "string too long"@,
        )),
{
    vstd::utf8::encode_utf8_valid_utf8(text);
    vstd::utf8::encode_utf8_decode_utf8(text);
    crate::ops_builtin_v8::bom_is_taken_off(encode_utf8(text));
    assert(without_bom(bytes@) == encode_utf8(text));
}

/// An exception that is dispatched comes before those that were dispatched earlier, which stay, and
/// the backend is told to terminate, once.
pub proof fn dispatched_exceptions_are_kept<'s, B: JsBackend>(
    scope: &mut HandleScope<'s, B>,
    exception: Value,
    i: int,
)
    requires
        old(scope).isolate.state is Some,
        call_ensures(
            op_dispatch_exception::<B>,
            (scope, SerdeValue::FromBackend(exception)),
            (),
        ),
        0 <= i < old(scope).isolate.state->0.dispatched_exceptions@.len(),
    ensures
        ({
            let before = old(scope).isolate.state->0.dispatched_exceptions@;
            let after = final(scope).isolate.state->0.dispatched_exceptions@;
            &&& after.len() == before.len() + 1
            &&& after[0].value() == exception
            &&& after[i + 1] == before[i]
        }),
        final(scope).isolate.backend.events() == old(scope).isolate.backend.events().push(
            BackendEvent::Terminate,
        ),
        final(scope).isolate.slots == old(scope).isolate.slots,
{
    let before = old(scope).isolate.state->0.dispatched_exceptions@;
    let after = final(scope).isolate.state->0.dispatched_exceptions@;
    assert(after.skip(1)[i] == before[i]);
}

/// The names of the ops of a realm are told, in the order of their numbers.
pub proof fn ops_are_named_in_order<'s, B>(scope: HandleScope<'s, B>, names: Vec<String>, i: int)
    requires
        scope.realm_idx < scope.isolate.slots@.len(),
        call_ensures(op_op_names::<B>, (&scope,), names),
        0 <= i < scope.isolate.slots@[scope.realm_idx as int].op_ctxs@.len(),
    ensures
        names@.len() == old(scope.isolate).slots@[scope.realm_idx as int].op_ctxs@.len(),
        names@[i]@ == old(scope.isolate).slots@[scope.realm_idx as int].op_ctxs@[i].decl.name@,
{
}

/// The memory that is told is what the backend said when it was asked, once.
pub proof fn memory_is_what_the_backend_says<'s, B: JsBackend>(
    scope: &mut HandleScope<'s, B>,
    usage: MemoryUsage,
)
    requires
        call_ensures(op_memory_usage::<B>, (scope,), usage),
    ensures
        final(scope).isolate.backend.events() == old(scope).isolate.backend.events().push(
            BackendEvent::GetMemoryUsage { usage },
        ),
        final(scope).isolate.state == old(scope).isolate.state,
        final(scope).isolate.slots == old(scope).isolate.slots,
{
}

/// What cannot be done is refused as that.
pub open spec fn is_refused<T>(result: Result<T, Error>) -> bool {
    result matches Err(error) && has(error, "NotSupported"@, "The operation is not supported"@)
}

/// Microtasks, contexts, host objects and structured clones are left to the backend: what would need
/// V8 for them is refused.
pub proof fn v8_alone_can_do_this<'s, B>(
    scope: &mut HandleScope<'s, B>,
    value: SerdeValue,
    specifier: Option<String>,
    options: Option<SerializeDeserializeOptions>,
    error_callback: Option<SerdeValue>,
    buffer: ZeroCopyBuf,
    microtasks: Result<(), Error>,
    context: Result<EvalContextResult, Error>,
    queued: Result<(), Error>,
    host_object: Result<SerdeValue, Error>,
    serialized: Result<ZeroCopyBuf, Error>,
    deserialized: Result<SerdeValue, Error>,
)
    requires
        call_ensures(op_run_microtasks::<B>, (scope,), microtasks),
        call_ensures(op_eval_context::<B>, (scope, value, specifier), context),
        call_ensures(op_queue_microtask::<B>, (scope, value), queued),
        call_ensures(op_create_host_object::<B>, (scope,), host_object),
        call_ensures(op_serialize::<B>, (scope, value, options, error_callback), serialized),
        call_ensures(op_deserialize::<B>, (scope, buffer, options), deserialized),
    ensures
        is_refused(microtasks),
        is_refused(context),
        is_refused(queued),
        is_refused(host_object),
        is_refused(serialized),
        is_refused(deserialized),
{
}

/// Promises, WebAssembly and source maps cannot be looked into either, proxies show nothing, and no
/// buffer is ever detached.
pub proof fn v8_alone_can_look_into_this<'s, B>(
    scope: &mut HandleScope<'s, B>,
    value: SerdeValue,
    rid: u32,
    location: Location,
    details: Result<PromiseDetails, Error>,
    hooks: Result<(), Error>,
    streaming: Result<(), Error>,
    aborted: Result<(), Error>,
    destructured: Result<JsError, Error>,
    mapped: Result<Location, Error>,
    stored: Result<(), Error>,
    removed: Result<(), Error>,
    has_pending: Result<bool, Error>,
    proxy: Option<(SerdeValue, SerdeValue)>,
    detached: Result<bool, Error>,
)
    requires
        call_ensures(op_get_promise_details::<B>, (scope, value), details),
        call_ensures(op_set_promise_hooks::<B>, (scope, value, value, value, value), hooks),
        call_ensures(op_set_wasm_streaming_callback::<B>, (scope, value), streaming),
        call_ensures(op_abort_wasm_streaming::<B>, (scope, rid, value), aborted),
        call_ensures(op_destructure_error::<B>, (scope, value), destructured),
        call_ensures(op_apply_source_map::<B>, (scope, location), mapped),
        call_ensures(op_store_pending_promise_rejection::<B>, (scope, value, value), stored),
        call_ensures(op_remove_pending_promise_rejection::<B>, (scope, value), removed),
        call_ensures(op_has_pending_promise_rejection::<B>, (scope, value), has_pending),
        call_ensures(op_get_proxy_details::<B>, (scope, value), proxy),
        call_ensures(op_arraybuffer_was_detached::<B>, (scope, value), detached),
    ensures
        is_refused(details),
        is_refused(hooks),
        is_refused(streaming),
        is_refused(aborted),
        is_refused(destructured),
        is_refused(mapped),
        is_refused(stored),
        is_refused(removed),
        is_refused(has_pending),
        proxy is None,
        detached == Ok::<_, Error>(false),
{
}

/// The builtin ops are all enabled and none of them is async. Each stands for itself by its place,
/// and has the name and the number of arguments that JavaScript calls it with.
pub proof fn builtins_stand_at_their_places(decls: Vec<OpDecl>, i: int)
    requires
        call_ensures(init_builtins_v8, (), decls),
        0 <= i < decls@.len(),
    ensures
        decls@.len() == 31,
        decls@[i].v8_fn_ptr == FunctionCallback::Builtin(i as usize),
        decls@[i].enabled && decls@[i].is_v8 && !decls@[i].is_async && !decls@[i].is_unstable,
        decls@[0].name@ == "op_ref_op"@ && decls@[0].argc == 1,
        decls@[1].name@ == "op_unref_op"@ && decls@[1].argc == 1,
        decls@[2].name@ == "op_set_macrotask_callback"@ && decls@[2].argc == 1,
        decls@[3].name@ == "op_set_next_tick_callback"@ && decls@[3].argc == 1,
        decls@[4].name@ == "op_set_promise_reject_callback"@ && decls@[4].argc == 1,
        decls@[5].name@ == "op_run_microtasks"@ && decls@[5].argc == 0,
        decls@[6].name@ == "op_has_tick_scheduled"@ && decls@[6].argc == 0,
        decls@[7].name@ == "op_set_has_tick_scheduled"@ && decls@[7].argc == 1,
        decls@[8].name@ == "op_eval_context"@ && decls@[8].argc == 2,
        decls@[9].name@ == "op_queue_microtask"@ && decls@[9].argc == 1,
        decls@[10].name@ == "op_create_host_object"@ && decls@[10].argc == 0,
        decls@[11].name@ == "op_encode"@ && decls@[11].argc == 1,
        decls@[12].name@ == "op_decode"@ && decls@[12].argc == 1,
        decls@[13].name@ == "op_serialize"@ && decls@[13].argc == 3,
        decls@[14].name@ == "op_deserialize"@ && decls@[14].argc == 2,
        decls@[15].name@ == "op_set_promise_hooks"@ && decls@[15].argc == 4,
        decls@[16].name@ == "op_get_promise_details"@ && decls@[16].argc == 1,
        decls@[17].name@ == "op_get_proxy_details"@ && decls@[17].argc == 1,
        decls@[18].name@ == "op_memory_usage"@ && decls@[18].argc == 0,
        decls@[19].name@ == "op_set_wasm_streaming_callback"@ && decls@[19].argc == 1,
        decls@[20].name@ == "op_abort_wasm_streaming"@ && decls@[20].argc == 2,
        decls@[21].name@ == "op_destructure_error"@ && decls@[21].argc == 1,
        decls@[22].name@ == "op_dispatch_exception"@ && decls@[22].argc == 1,
        decls@[23].name@ == "op_op_names"@ && decls@[23].argc == 0,
        decls@[24].name@ == "op_apply_source_map"@ && decls@[24].argc == 1,
        decls@[25].name@ == "op_set_format_exception_callback"@ && decls@[25].argc == 1,
        decls@[26].name@ == "op_event_loop_has_more_work"@ && decls@[26].argc == 0,
        decls@[27].name@ == "op_store_pending_promise_rejection"@ && decls@[27].argc == 2,
        decls@[28].name@ == "op_remove_pending_promise_rejection"@ && decls@[28].argc == 1,
        decls@[29].name@ == "op_has_pending_promise_rejection"@ && decls@[29].argc == 1,
        decls@[30].name@ == "op_arraybuffer_was_detached"@ && decls@[30].argc == 1,
{
}

/// What is sent of a result is the value, the error as JavaScript gets it, or a `TypeError` with the
/// reason where the value cannot be sent.
pub proof fn results_are_sent_as_they_are(
    result: OpResult,
    serialized: Result<Serialized, Error>,
    response: Serialized,
)
    requires
        call_ensures(OpResult::to_v8, (result,), serialized),
        call_ensures(OpResult::into_response, (result,), response),
    ensures
        is_told(result, response@),
        result matches OpResult::Unserializable(error) ==> serialized == Err::<Serialized, _>(
            error,
        ),
        result !is Unserializable ==> (serialized matches Ok(form) && is_told(result, form@)),
{
}

/// An error of an op has the class that it is given and shows what the error shows.
pub proof fn op_errors_show_the_error(
    class_name: &'static str,
    error: Error,
    text: String,
    op_error: OpError,
)
    requires
        call_ensures(OpError::new, (class_name, &error), op_error),
        call_ensures(Error::to_string, (&error,), text),
    ensures
        op_error.class_name@ == class_name@,
        op_error.message@ == text@,
{
}

/// Counts begin at zero, for as many ops as there are, and an op that is done is counted under its
/// number alone, up to the end of the numbers.
pub proof fn counts_begin_at_zero_and_grow(
    ops_count: usize,
    fresh: OpsTracker,
    state: OpState,
    tracker: &mut OpsTracker,
    id: OpId,
    i: int,
)
    requires
        call_ensures(OpsTracker::new, (ops_count,), fresh),
        call_ensures(OpState::new, (ops_count,), state),
        id < old(tracker).completed_async@.len(),
        call_ensures(OpsTracker::track_async_completed, (tracker, id), ()),
        0 <= i < ops_count,
        i < old(tracker).completed_async@.len(),
    ensures
        fresh.completed_async@.len() == ops_count,
        fresh.completed_async@[i] == 0,
        state.tracker.completed_async@.len() == ops_count,
        state.tracker.completed_async@[i] == 0,
        state.get_error_class_fn is None,
        final(tracker).completed_async@.len() == old(tracker).completed_async@.len(),
        i != id ==> final(tracker).completed_async@[i] == old(tracker).completed_async@[i],
        i == id && old(tracker).completed_async@[i] < u64::MAX ==> final(tracker).completed_async@[i] == old(tracker).completed_async@[i] + 1,
        i == id && old(tracker).completed_async@[i] == u64::MAX ==> final(tracker).completed_async@[i] == u64::MAX,
{
}

/// The mark that a native function is called with names the realm that it is exposed to.
pub proof fn marks_name_their_realm(data: UserData, realm_idx: usize)
    requires
        call_ensures(UserData::realm_idx, (&data,), realm_idx),
    ensures
        match data {
            UserData::Op { realm_idx: own, id: _ } => realm_idx == own,
            UserData::Ops { realm_idx: own, count: _ } => realm_idx == own,
        },
{
}

/// A callback is kept as the function that it stands for, and what stands for none is a `TypeError`.
pub proof fn callbacks_are_kept_as_functions<'s, B>(
    scope: &mut HandleScope<'s, B>,
    value: SerdeValue,
    converted: Result<Global<Function>, Error>,
    id: i32,
)
    requires
        call_ensures(to_v8_fn::<B>, (scope, value), converted),
    ensures
        is_function(value, id) ==> (converted matches Ok(function) && function.value() == Function(
            id,
        )),
        is_no_function(value) ==> (converted matches Err(error) && has(
            error,
            "TypeError"@,
            if value is FromBackend {
                "cannot convert Value type"@
            } else {
                "converting a Value::ToBackend to v8 is unsupported"@
            },
        )),
        *final(scope).isolate == *old(scope).isolate,
{
}

/// An exception that is thrown is left for the backend, once, with its class and its message.
pub proof fn thrown_exceptions_reach_the_backend<'s, B: JsBackend>(
    scope: &mut HandleScope<'s, B>,
    exception: Local<'s, Value>,
    given: Local<'s, Value>,
    typed: &mut HandleScope<'s, B>,
    message: &str,
)
    requires
        exception.value() is Exception,
        call_ensures(HandleScope::<'s, B>::throw_exception, (scope, exception), given),
        call_ensures(throw_type_error::<B>, (typed, message), ()),
    ensures
        given.value() is Undefined,
        final(scope).isolate.backend.events() == old(scope).isolate.backend.events().push(
            BackendEvent::SetException {
                class: exception.value()->class@,
                message: exception.value()->message@,
            },
        ),
        final(scope).isolate.state == old(scope).isolate.state,
        final(typed).isolate.backend.events() == old(typed).isolate.backend.events().push(
            BackendEvent::SetException { class: "TypeError"@, message: message@ },
        ),
        final(typed).isolate.state == old(typed).isolate.state,
{
}

/// A native function answers with what it set, and with `null` where it set nothing.
pub proof fn unset_answers_are_null(value: Serialized, answer: &mut ReturnValue)
    requires
        call_ensures(ReturnValue::set, (answer, value), ()),
    ensures
        final(answer).0 == Some(value),
        returned(Some(value)) == value@,
        returned(None) == SerializedView::Null,
{
}

} // verus!

//! The ops that belong to the runtime itself.
use crate::backend::{BackendEvent, JsBackend, MemoryUsage};
use crate::data::{max_string_length, Function, String as JsString, Value};
use crate::error::{not_supported, range_error, type_error, Error, JsError};
use crate::event_loop::{has_refed_ops, unrefed_count, EventLoopPendingState};
use crate::handle::{Global, HandleInternal, Local};
use crate::isolate::Isolate;
use crate::ops::{FunctionCallback, OpDecl, RealmIdx};
use crate::scope::HandleScope;
use crate::serde::{Serialized, SerializedView, Value as SerdeValue};
use crate::state::{ContextState, JsRealm, JsRuntimeState};
use crate::text::{replaced_text, string_from_utf8_lossy};
use crate::wrappers::ZeroCopyBuf;
use vstd::prelude::*;
use vstd::utf8::{decode_utf8, encode_utf8, valid_utf8};

verus! {

/// The builtin ops, each with the number of its arguments.
pub open spec fn builtins() -> Seq<(&'static str, u8)> {
    seq![
        ("op_ref_op", 1),
        ("op_unref_op", 1),
        ("op_set_macrotask_callback", 1),
        ("op_set_next_tick_callback", 1),
        ("op_set_promise_reject_callback", 1),
        ("op_run_microtasks", 0),
        ("op_has_tick_scheduled", 0),
        ("op_set_has_tick_scheduled", 1),
        ("op_eval_context", 2),
        ("op_queue_microtask", 1),
        ("op_create_host_object", 0),
        ("op_encode", 1),
        ("op_decode", 1),
        ("op_serialize", 3),
        ("op_deserialize", 2),
        ("op_set_promise_hooks", 4),
        ("op_get_promise_details", 1),
        ("op_get_proxy_details", 1),
        ("op_memory_usage", 0),
        ("op_set_wasm_streaming_callback", 1),
        ("op_abort_wasm_streaming", 2),
        ("op_destructure_error", 1),
        ("op_dispatch_exception", 1),
        ("op_op_names", 0),
        ("op_apply_source_map", 1),
        ("op_set_format_exception_callback", 1),
        ("op_event_loop_has_more_work", 0),
        ("op_store_pending_promise_rejection", 2),
        ("op_remove_pending_promise_rejection", 1),
        ("op_has_pending_promise_rejection", 1),
        ("op_arraybuffer_was_detached", 1),
    ]
}

/// How a builtin op is declared.
pub open spec fn builtin_decl(index: usize, name: &'static str, argc: u8) -> OpDecl {
    OpDecl {
        name,
        v8_fn_ptr: FunctionCallback::Builtin(index),
        enabled: true,
        is_async: false,
        is_unstable: false,
        is_v8: true,
        argc,
    }
}

fn builtin(index: usize, name: &'static str, argc: u8) -> (decl: OpDecl)
    ensures
        decl == builtin_decl(index, name, argc),
{
    OpDecl {
        name,
        v8_fn_ptr: FunctionCallback::Builtin(index),
        enabled: true,
        is_async: false,
        is_unstable: false,
        is_v8: true,
        argc,
    }
}

pub fn init_builtins_v8() -> (decls: Vec<OpDecl>)
    ensures
        decls@ == builtins().map(|i: int, op: (&'static str, u8)| builtin_decl(i as usize, op.0, op.1)),
{
    let decls = vec![
        builtin(0, "op_ref_op", 1),
        builtin(1, "op_unref_op", 1),
        builtin(2, "op_set_macrotask_callback", 1),
        builtin(3, "op_set_next_tick_callback", 1),
        builtin(4, "op_set_promise_reject_callback", 1),
        builtin(5, "op_run_microtasks", 0),
        builtin(6, "op_has_tick_scheduled", 0),
        builtin(7, "op_set_has_tick_scheduled", 1),
        builtin(8, "op_eval_context", 2),
        builtin(9, "op_queue_microtask", 1),
        builtin(10, "op_create_host_object", 0),
        builtin(11, "op_encode", 1),
        builtin(12, "op_decode", 1),
        builtin(13, "op_serialize", 3),
        builtin(14, "op_deserialize", 2),
        builtin(15, "op_set_promise_hooks", 4),
        builtin(16, "op_get_promise_details", 1),
        builtin(17, "op_get_proxy_details", 1),
        builtin(18, "op_memory_usage", 0),
        builtin(19, "op_set_wasm_streaming_callback", 1),
        builtin(20, "op_abort_wasm_streaming", 2),
        builtin(21, "op_destructure_error", 1),
        builtin(22, "op_dispatch_exception", 1),
        builtin(23, "op_op_names", 0),
        builtin(24, "op_apply_source_map", 1),
        builtin(25, "op_set_format_exception_callback", 1),
        builtin(26, "op_event_loop_has_more_work", 0),
        builtin(27, "op_store_pending_promise_rejection", 2),
        builtin(28, "op_remove_pending_promise_rejection", 1),
        builtin(29, "op_has_pending_promise_rejection", 1),
        builtin(30, "op_arraybuffer_was_detached", 1),
    ];
    assert(decls@ =~= builtins().map(|i: int, op: (&'static str, u8)| builtin_decl(i as usize, op.0, op.1)));
    decls
}

/// The function that a value stands for, or why it stands for none.
pub open spec fn function_of(value: SerdeValue) -> Result<Function, Seq<char>> {
    match value {
        SerdeValue::FromBackend(Value::Function { id }) => Ok(Function(id)),
        SerdeValue::FromBackend(Value::Integer { inner }) => Ok(Function(inner.as_i32())),
        SerdeValue::FromBackend(_) => Err("cannot convert Value type"@),
        SerdeValue::ToBackend(_) => Err("converting a Value::ToBackend to v8 is unsupported"@),
    }
}

pub fn to_v8_fn<B>(scope: &mut HandleScope<'_, B>, value: SerdeValue) -> (converted: Result<
    Global<Function>,
    Error,
>)
    ensures
        match (converted, function_of(value)) {
            (Ok(handle), Ok(function)) => handle.value() == function,
            (Err(error), Err(text)) => error.is_custom("TypeError"@, text),
            _ => false,
        },
        *final(scope).isolate == *old(scope).isolate,
        *final(final(scope).isolate) == *final(old(scope).isolate),
        final(scope).realm_idx == old(scope).realm_idx,
{
    match to_v8_local_fn(value) {
        Ok(cb) => Ok(Global::new(&mut *scope.isolate, cb)),
        Err(error) => Err(error),
    }
}

pub fn to_v8_local_fn<'s>(value: SerdeValue) -> (converted: Result<Local<'s, Function>, Error>)
    ensures
        match (converted, function_of(value)) {
            (Ok(handle), Ok(function)) => handle.value() == function,
            (Err(error), Err(text)) => error.is_custom("TypeError"@, text),
            _ => false,
        },
{
    match <Local<'s, Function> as TryFrom<SerdeValue>>::try_from(value) {
        Ok(cb) => Ok(cb),
        Err(error) => Err(type_error(error.to_string().as_str())),
    }
}

/// JavaScript of a realm waits for this set of ops no more, and nothing else has changed.
pub open spec fn changes_unrefed<B>(
    before: Isolate<B>,
    after: Isolate<B>,
    realm_idx: RealmIdx,
    unrefed_ops: Set<i32>,
) -> bool {
    let slot = after.slots@[realm_idx as int];
    &&& slot.unrefed_ops@ == unrefed_ops
    &&& before.changes_slot(
        after,
        realm_idx,
        ContextState { unrefed_ops: slot.unrefed_ops, ..before.slots@[realm_idx as int] },
    )
}

/// JavaScript of a realm waits for an op.
pub open spec fn refs_op<B>(
    before: Isolate<B>,
    after: Isolate<B>,
    realm_idx: RealmIdx,
    promise_id: i32,
) -> bool {
    let unrefed_ops = before.slots@[realm_idx as int].unrefed_ops@;
    changes_unrefed(before, after, realm_idx, unrefed_ops.remove(promise_id))
}

/// JavaScript of a realm does not wait for an op.
pub open spec fn unrefs_op<B>(
    before: Isolate<B>,
    after: Isolate<B>,
    realm_idx: RealmIdx,
    promise_id: i32,
) -> bool {
    let unrefed_ops = before.slots@[realm_idx as int].unrefed_ops@;
    changes_unrefed(before, after, realm_idx, unrefed_ops.insert(promise_id))
}

/// What [`op_unref_op`] does to an op that JavaScript waited for, [`op_ref_op`] undoes: each realm
/// waits for the ops that it waited for, and the event loop goes on for as long. Doing either
/// twice is doing it once.
pub proof fn ref_undoes_unref<B>(
    before: Isolate<B>,
    between: Isolate<B>,
    after: Isolate<B>,
    again: Isolate<B>,
    realm_idx: RealmIdx,
    promise_id: i32,
)
    requires
        realm_idx < before.slots@.len(),
        !before.slots@[realm_idx as int].unrefed_ops@.contains(promise_id),
        unrefs_op(before, between, realm_idx, promise_id),
        unrefs_op(between, again, realm_idx, promise_id),
        refs_op(between, after, realm_idx, promise_id),
    ensures
        changes_unrefed(
            before,
            after,
            realm_idx,
            before.slots@[realm_idx as int].unrefed_ops@,
        ),
        changes_unrefed(
            between,
            again,
            realm_idx,
            between.slots@[realm_idx as int].unrefed_ops@,
        ),
        refs_op(before, after, realm_idx, promise_id),
        before.state is Some ==> has_refed_ops(after.slots@, after.state->0) == has_refed_ops(
            before.slots@,
            before.state->0,
        ),
{
    let unrefed_ops = before.slots@[realm_idx as int].unrefed_ops@;
    assert(unrefed_ops.insert(promise_id).remove(promise_id) =~= unrefed_ops);
    assert(unrefed_ops.remove(promise_id) =~= unrefed_ops);
    assert(unrefed_ops.insert(promise_id).insert(promise_id) =~= unrefed_ops.insert(promise_id));
    let slot = after.slots@[realm_idx as int];
    assert(after.slots@ =~= before.slots@.update(realm_idx as int, slot));
    lemma_same_unrefed_count(before.slots@, after.slots@);
}

proof fn lemma_same_unrefed_count(before: Seq<ContextState>, after: Seq<ContextState>)
    requires
        before.len() == after.len(),
        forall|r: int|
            0 <= r < before.len() ==> (#[trigger] after[r]).unrefed_ops@ == before[r].unrefed_ops@,
    ensures
        unrefed_count(after) == unrefed_count(before),
    decreases before.len(),
{
    if before.len() > 0 {
        lemma_same_unrefed_count(before.drop_last(), after.drop_last());
        assert(after.last() == after[after.len() - 1]);
    }
}

/// Makes the event loop wait for an op again.
pub fn op_ref_op<B>(scope: &mut HandleScope<'_, B>, promise_id: i32)
    requires
        old(scope).realm_idx < old(scope).isolate.slots@.len(),
    ensures
        refs_op(*old(scope).isolate, *final(scope).isolate, old(scope).realm_idx, promise_id),
        final(scope).isolate.keeps(*old(scope).isolate),
        *final(final(scope).isolate) == *final(old(scope).isolate),
        final(scope).realm_idx == old(scope).realm_idx,
{
    let realm_idx: RealmIdx = scope.realm_idx;
    scope.isolate.slots[realm_idx].unrefed_ops.remove(&promise_id);
}

/// Makes the event loop not wait for an op.
pub fn op_unref_op<B>(scope: &mut HandleScope<'_, B>, promise_id: i32)
    requires
        old(scope).realm_idx < old(scope).isolate.slots@.len(),
    ensures
        unrefs_op(*old(scope).isolate, *final(scope).isolate, old(scope).realm_idx, promise_id),
        final(scope).isolate.keeps(*old(scope).isolate),
        *final(final(scope).isolate) == *final(old(scope).isolate),
        final(scope).realm_idx == old(scope).realm_idx,
{
    let realm_idx: RealmIdx = scope.realm_idx;
    scope.isolate.slots[realm_idx].unrefed_ops.insert(promise_id);
}

pub fn op_set_macrotask_callback<B>(scope: &mut HandleScope<'_, B>, cb: SerdeValue) -> (result: Result<
    (),
    Error,
>)
    requires
        old(scope).isolate.state is Some,
    ensures
        match function_of(cb) {
            Ok(function) => {
                let callbacks = final(scope).isolate.state->0.js_macrotask_cbs@;
                &&& result is Ok
                &&& callbacks.len() == old(scope).isolate.state->0.js_macrotask_cbs@.len() + 1
                &&& callbacks.drop_last() == old(scope).isolate.state->0.js_macrotask_cbs@
                &&& callbacks.last().value() == function
                &&& *final(scope).isolate == (Isolate {
                    state: Some(
                        JsRuntimeState {
                            js_macrotask_cbs: final(scope).isolate.state->0.js_macrotask_cbs,
                            ..old(scope).isolate.state->0
                        },
                    ),
                    ..*old(scope).isolate
                })
            },
            Err(text) => {
                &&& result matches Err(error)
                &&& error.is_custom("TypeError"@, text)
                &&& *final(scope).isolate == *old(scope).isolate
            },
        },
        final(scope).isolate.keeps(*old(scope).isolate),
        *final(final(scope).isolate) == *final(old(scope).isolate),
        final(scope).realm_idx == old(scope).realm_idx,
{
    let cb = match to_v8_fn(scope, cb) {
        Ok(cb) => cb,
        Err(error) => {
            return Err(error);
        },
    };
    if let Some(state) = scope.isolate.state.take() {
        let mut state = state;
        state.js_macrotask_cbs.push(cb);
        assert(state.js_macrotask_cbs@.drop_last() =~= old(scope).isolate.state->0.js_macrotask_cbs@);
        scope.isolate.state = Some(state);
    }
    Ok(())
}

pub fn op_set_next_tick_callback<B>(scope: &mut HandleScope<'_, B>, cb: SerdeValue) -> (result: Result<
    (),
    Error,
>)
    requires
        old(scope).isolate.state is Some,
    ensures
        match function_of(cb) {
            Ok(function) => {
                let callbacks = final(scope).isolate.state->0.js_nexttick_cbs@;
                &&& result is Ok
                &&& callbacks.len() == old(scope).isolate.state->0.js_nexttick_cbs@.len() + 1
                &&& callbacks.drop_last() == old(scope).isolate.state->0.js_nexttick_cbs@
                &&& callbacks.last().value() == function
                &&& *final(scope).isolate == (Isolate {
                    state: Some(
                        JsRuntimeState {
                            js_nexttick_cbs: final(scope).isolate.state->0.js_nexttick_cbs,
                            ..old(scope).isolate.state->0
                        },
                    ),
                    ..*old(scope).isolate
                })
            },
            Err(text) => {
                &&& result matches Err(error)
                &&& error.is_custom("TypeError"@, text)
                &&& *final(scope).isolate == *old(scope).isolate
            },
        },
        final(scope).isolate.keeps(*old(scope).isolate),
        *final(final(scope).isolate) == *final(old(scope).isolate),
        final(scope).realm_idx == old(scope).realm_idx,
{
    let cb = match to_v8_fn(scope, cb) {
        Ok(cb) => cb,
        Err(error) => {
            return Err(error);
        },
    };
    if let Some(state) = scope.isolate.state.take() {
        let mut state = state;
        state.js_nexttick_cbs.push(cb);
        assert(state.js_nexttick_cbs@.drop_last() =~= old(scope).isolate.state->0.js_nexttick_cbs@);
        scope.isolate.state = Some(state);
    }
    Ok(())
}

/// Sets the callback for rejected promises, and gives back the one before it.
pub fn op_set_promise_reject_callback<B>(
    scope: &mut HandleScope<'_, B>,
    cb: SerdeValue,
) -> (previous: Result<Option<SerdeValue>, Error>)
    requires
        old(scope).realm_idx < old(scope).isolate.slots@.len(),
    ensures
        match function_of(cb) {
            Ok(function) => {
                let before = old(scope).isolate.slots@[old(scope).realm_idx as int];
                let after = final(scope).isolate.slots@[old(scope).realm_idx as int];
                &&& previous matches Ok(previous)
                &&& match before.js_promise_reject_cb {
                    Some(earlier) => previous matches Some(SerdeValue::ToBackend(data)) && data@
                        == SerializedView::Function((earlier.value()).0),
                    None => previous is None,
                }
                &&& after.js_promise_reject_cb matches Some(callback)
                &&& callback.value() == function
                &&& old(scope).isolate.changes_slot(
                    *final(scope).isolate,
                    old(scope).realm_idx,
                    ContextState { js_promise_reject_cb: after.js_promise_reject_cb, ..before },
                )
            },
            Err(text) => {
                &&& previous matches Err(error)
                &&& error.is_custom("TypeError"@, text)
                &&& *final(scope).isolate == *old(scope).isolate
            },
        },
        final(scope).isolate.keeps(*old(scope).isolate),
        *final(final(scope).isolate) == *final(old(scope).isolate),
        final(scope).realm_idx == old(scope).realm_idx,
{
    let cb = match to_v8_fn(scope, cb) {
        Ok(cb) => cb,
        Err(error) => {
            return Err(error);
        },
    };
    let previous = match &JsRealm::state_from_scope(scope).js_promise_reject_cb {
        Some(earlier) => Some(SerdeValue::ToBackend(Serialized::Function(earlier.get_data().0))),
        None => None,
    };
    let realm_idx: RealmIdx = scope.realm_idx;
    scope.isolate.slots[realm_idx].js_promise_reject_cb = Some(cb);
    Ok(previous)
}

/// Set a callback which formats exception messages as stored in
/// `JsError::exception_message`. The callback is passed the error value and
/// should return a string or `null`. If no callback is set or the callback
/// returns `null`, the built-in default formatting will be used.
///
/// The callback that was set before is given back.
pub fn op_set_format_exception_callback<B>(
    scope: &mut HandleScope<'_, B>,
    cb: SerdeValue,
) -> (previous: Result<Option<SerdeValue>, Error>)
    requires
        old(scope).realm_idx < old(scope).isolate.slots@.len(),
    ensures
        match function_of(cb) {
            Ok(function) => {
                let before = old(scope).isolate.slots@[old(scope).realm_idx as int];
                let after = final(scope).isolate.slots@[old(scope).realm_idx as int];
                &&& previous matches Ok(previous)
                &&& match before.js_format_exception_cb {
                    Some(earlier) => previous matches Some(SerdeValue::ToBackend(data)) && data@
                        == SerializedView::Function((earlier.value()).0),
                    None => previous is None,
                }
                &&& after.js_format_exception_cb matches Some(callback)
                &&& callback.value() == function
                &&& old(scope).isolate.changes_slot(
                    *final(scope).isolate,
                    old(scope).realm_idx,
                    ContextState { js_format_exception_cb: after.js_format_exception_cb, ..before },
                )
            },
            Err(text) => {
                &&& previous matches Err(error)
                &&& error.is_custom("TypeError"@, text)
                &&& *final(scope).isolate == *old(scope).isolate
            },
        },
        final(scope).isolate.keeps(*old(scope).isolate),
        *final(final(scope).isolate) == *final(old(scope).isolate),
        final(scope).realm_idx == old(scope).realm_idx,
{
    let cb = match to_v8_fn(scope, cb) {
        Ok(cb) => cb,
        Err(error) => {
            return Err(error);
        },
    };
    let previous = match &JsRealm::state_from_scope(scope).js_format_exception_cb {
        Some(earlier) => Some(SerdeValue::ToBackend(Serialized::Function(earlier.get_data().0))),
        None => None,
    };
    let realm_idx: RealmIdx = scope.realm_idx;
    scope.isolate.slots[realm_idx].js_format_exception_cb = Some(cb);
    Ok(previous)
}

pub fn op_has_tick_scheduled<B>(scope: &HandleScope<'_, B>) -> (scheduled: bool)
    requires
        scope.isolate.state is Some,
    ensures
        scheduled == old(scope.isolate).state->0.has_tick_scheduled,
{
    scope.isolate.state.as_ref().unwrap().has_tick_scheduled
}

pub fn op_set_has_tick_scheduled<B>(scope: &mut HandleScope<'_, B>, v: bool)
    requires
        old(scope).isolate.state is Some,
    ensures
        *final(scope).isolate == (Isolate {
            state: Some(
                JsRuntimeState { has_tick_scheduled: v, ..old(scope).isolate.state->0 },
            ),
            ..*old(scope).isolate
        }),
        final(scope).isolate.keeps(*old(scope).isolate),
        *final(final(scope).isolate) == *final(old(scope).isolate),
        final(scope).realm_idx == old(scope).realm_idx,
{
    if let Some(state) = scope.isolate.state.take() {
        let mut state = state;
        state.has_tick_scheduled = v;
        scope.isolate.state = Some(state);
    }
}

/// The UTF-8 bytes of a string.
pub fn op_encode<B>(scope: &mut HandleScope<'_, B>, text: SerdeValue) -> (encoded: Result<
    Vec<u8>,
    Error,
>)
    ensures
        match text {
            SerdeValue::FromBackend(Value::String { inner }) => encoded matches Ok(bytes)
                && bytes@ == encode_utf8(inner@),
            _ => encoded matches Err(error) && error.is_custom("TypeError"@, "Invalid argument"@),
        },
        *final(scope) == *old(scope),
{
    match <Local<'_, JsString> as TryFrom<SerdeValue>>::try_from(text) {
        Ok(text) => Ok(vstd::slice::slice_to_vec(text.get_data().0.as_str().as_bytes())),
        Err(_) => Err(type_error("Invalid argument")),
    }
}

/// Whether bytes begin with a byte order mark.
pub open spec fn has_bom(bytes: Seq<u8>) -> bool {
    bytes.len() >= 3 && bytes[0] == 0xef && bytes[1] == 0xbb && bytes[2] == 0xbf
}

/// The bytes without the byte order mark that they may begin with.
pub open spec fn without_bom(bytes: Seq<u8>) -> Seq<u8> {
    if has_bom(bytes) {
        bytes.skip(3)
    } else {
        bytes
    }
}

/// The string of UTF-8 bytes, without the byte order mark that they may begin with. Bytes that are
/// too many for a string are a `RangeError`. What is not UTF-8 among them is replaced.
pub fn op_decode<B>(scope: &mut HandleScope<'_, B>, zero_copy: &[u8]) -> (decoded: Result<
    SerdeValue,
    Error,
>)
    ensures
        ({
            let bytes = without_bom(zero_copy@);
            if bytes.len() <= max_string_length() {
                decoded matches Ok(SerdeValue::ToBackend(text)) && text@ == SerializedView::String(
                    decoded_text(bytes),
                )
            } else {
                decoded matches Err(error) && error.is_custom("RangeError"@, "string too long"@)
            }
        }),
        *final(scope) == *old(scope),
{
    // Strip BOM
    let buf = if zero_copy.len() >= 3 && zero_copy[0] == 0xef && zero_copy[1] == 0xbb
        && zero_copy[2] == 0xbf {
        let rest = vstd::slice::slice_subrange(zero_copy, 3, zero_copy.len());
        assert(rest@ =~= zero_copy@.skip(3));
        rest
    } else {
        zero_copy
    };
    // If there are too many bytes, the length of the decoded string would be longer
    // than what V8 can handle. In this case we return `RangeError`.
    if !JsString::check_len(buf) {
        return Err(range_error("string too long"));
    }
    let text = match JsString::new_from_utf8(scope, buf) {
        Some(text) => text.0,
        None => string_from_utf8_lossy(buf),
    };
    Ok(SerdeValue::ToBackend(Serialized::String(text)))
}

/// The text of UTF-8 bytes; what is not UTF-8 among them is replaced.
pub open spec fn decoded_text(bytes: Seq<u8>) -> Seq<char> {
    if valid_utf8(bytes) {
        decode_utf8(bytes)
    } else {
        replaced_text(bytes)
    }
}

/// Text that is encoded and decoded again comes back as it was, if it is short enough and does not
/// begin with a byte order mark.
pub proof fn encoding_round_trips(text: Seq<char>)
    requires
        encode_utf8(text).len() <= max_string_length(),
        !has_bom(encode_utf8(text)),
    ensures
        without_bom(encode_utf8(text)).len() <= max_string_length(),
        decoded_text(without_bom(encode_utf8(text))) == text,
{
    vstd::utf8::encode_utf8_valid_utf8(text);
    vstd::utf8::encode_utf8_decode_utf8(text);
}

/// A byte order mark at the beginning makes no difference, and only one is taken off.
pub proof fn bom_is_taken_off(bytes: Seq<u8>)
    ensures
        without_bom(seq![0xefu8, 0xbbu8, 0xbfu8] + bytes) == bytes,
{
    let marked = seq![0xefu8, 0xbbu8, 0xbfu8] + bytes;
    assert(marked.skip(3) =~= bytes);
}

/// What the op does cannot be done here.
pub open spec fn is_unsupported<T>(result: Result<T, Error>) -> bool {
    result matches Err(error) && error.is_custom(
        "NotSupported"@,
        "The operation is not supported"@,
    )
}

pub struct EvalContextError {
    pub thrown: SerdeValue,
    pub is_native_error: bool,
    pub is_compile_error: bool,
}

pub struct EvalContextResult(pub Option<SerdeValue>, pub Option<EvalContextError>);

pub struct SerializeDeserializeOptions {}

pub struct PromiseDetails(pub u32, pub Option<SerdeValue>);

pub struct Location {
    pub file_name: String,
    pub line_number: u32,
    pub column_number: u32,
}

/// There is no way to force microtasks to run.
pub fn op_run_microtasks<B>(
    scope: &mut HandleScope<'_, B>,
) -> (result: Result<(), Error>)
    ensures
        is_unsupported(result),
        *final(scope) == *old(scope),
{
    Err(not_supported())
}

pub fn op_eval_context<B>(
    scope: &mut HandleScope<'_, B>,
    _source: SerdeValue,
    _specifier: Option<String>,
) -> (result: Result<EvalContextResult, Error>)
    ensures
        is_unsupported(result),
        *final(scope) == *old(scope),
{
    Err(not_supported())
}

pub fn op_queue_microtask<B>(
    scope: &mut HandleScope<'_, B>,
    _cb: SerdeValue,
) -> (result: Result<(), Error>)
    ensures
        is_unsupported(result),
        *final(scope) == *old(scope),
{
    Err(not_supported())
}

pub fn op_create_host_object<B>(
    scope: &mut HandleScope<'_, B>,
) -> (result: Result<SerdeValue, Error>)
    ensures
        is_unsupported(result),
        *final(scope) == *old(scope),
{
    Err(not_supported())
}

/// Serialization is an implementation detail of `structuredClone` and a few web APIs.
pub fn op_serialize<B>(
    scope: &mut HandleScope<'_, B>,
    _value: SerdeValue,
    _options: Option<SerializeDeserializeOptions>,
    _error_callback: Option<SerdeValue>,
) -> (result: Result<ZeroCopyBuf, Error>)
    ensures
        is_unsupported(result),
        *final(scope) == *old(scope),
{
    Err(not_supported())
}

/// See [`op_serialize`].
pub fn op_deserialize<B>(
    scope: &mut HandleScope<'_, B>,
    _zero_copy: ZeroCopyBuf,
    _options: Option<SerializeDeserializeOptions>,
) -> (result: Result<SerdeValue, Error>)
    ensures
        is_unsupported(result),
        *final(scope) == *old(scope),
{
    Err(not_supported())
}

pub fn op_get_promise_details<B>(
    scope: &mut HandleScope<'_, B>,
    _promise: SerdeValue,
) -> (result: Result<PromiseDetails, Error>)
    ensures
        is_unsupported(result),
        *final(scope) == *old(scope),
{
    Err(not_supported())
}

pub fn op_set_promise_hooks<B>(
    scope: &mut HandleScope<'_, B>,
    _init_hook: SerdeValue,
    _before_hook: SerdeValue,
    _after_hook: SerdeValue,
    _resolve_hook: SerdeValue,
) -> (result: Result<(), Error>)
    ensures
        is_unsupported(result),
        *final(scope) == *old(scope),
{
    Err(not_supported())
}

/// The backend is relied on for WebAssembly.
pub fn op_set_wasm_streaming_callback<B>(
    scope: &mut HandleScope<'_, B>,
    _cb: SerdeValue,
) -> (result: Result<(), Error>)
    ensures
        is_unsupported(result),
        *final(scope) == *old(scope),
{
    Err(not_supported())
}

/// The backend is relied on for WebAssembly.
pub fn op_abort_wasm_streaming<B>(
    scope: &mut HandleScope<'_, B>,
    _rid: u32,
    _error: SerdeValue,
) -> (result: Result<(), Error>)
    ensures
        is_unsupported(result),
        *final(scope) == *old(scope),
{
    Err(not_supported())
}

pub fn op_destructure_error<B>(
    scope: &mut HandleScope<'_, B>,
    _error: SerdeValue,
) -> (result: Result<JsError, Error>)
    ensures
        is_unsupported(result),
        *final(scope) == *old(scope),
{
    Err(not_supported())
}

/// Source maps are only implementable on V8.
pub fn op_apply_source_map<B>(
    scope: &mut HandleScope<'_, B>,
    _location: Location,
) -> (result: Result<Location, Error>)
    ensures
        is_unsupported(result),
        *final(scope) == *old(scope),
{
    Err(not_supported())
}

pub fn op_store_pending_promise_rejection<B>(
    scope: &mut HandleScope<'_, B>,
    _promise: SerdeValue,
    _reason: SerdeValue,
) -> (result: Result<(), Error>)
    ensures
        is_unsupported(result),
        *final(scope) == *old(scope),
{
    Err(not_supported())
}

pub fn op_remove_pending_promise_rejection<B>(
    scope: &mut HandleScope<'_, B>,
    _promise: SerdeValue,
) -> (result: Result<(), Error>)
    ensures
        is_unsupported(result),
        *final(scope) == *old(scope),
{
    Err(not_supported())
}

pub fn op_has_pending_promise_rejection<B>(
    scope: &mut HandleScope<'_, B>,
    _promise: SerdeValue,
) -> (result: Result<bool, Error>)
    ensures
        is_unsupported(result),
        *final(scope) == *old(scope),
{
    Err(not_supported())
}

/// Proxies cannot be looked into.
pub fn op_get_proxy_details<B>(scope: &mut HandleScope<'_, B>, _proxy: SerdeValue) -> (details:
    Option<(SerdeValue, SerdeValue)>)
    ensures
        details is None,
        *final(scope) == *old(scope),
{
    None
}

pub fn op_memory_usage<B: JsBackend>(scope: &mut HandleScope<'_, B>) -> (usage: MemoryUsage)
    ensures
        final(scope).isolate.backend.events() == old(scope).isolate.backend.events().push(
            BackendEvent::GetMemoryUsage { usage },
        ),
        final(scope).isolate.same_but_backend(*old(scope).isolate),
        *final(final(scope).isolate) == *final(old(scope).isolate),
        final(scope).realm_idx == old(scope).realm_idx,
{
    scope.isolate.backend.get_memory_usage()
}

/// Effectively throw an uncatchable error. This will terminate runtime
/// execution before any more JS code can run, except in the REPL where it
/// should just output the error to the console.
pub fn op_dispatch_exception<B: JsBackend>(scope: &mut HandleScope<'_, B>, exception: SerdeValue)
    requires
        old(scope).isolate.state is Some,
        exception is FromBackend,
    ensures
        final(scope).isolate.state->0.dispatched_exceptions@.len() == old(
            scope,
        ).isolate.state->0.dispatched_exceptions@.len() + 1,
        final(scope).isolate.state->0.dispatched_exceptions@[0].value() == exception->FromBackend_0,
        final(scope).isolate.state->0.dispatched_exceptions@.skip(1) == old(
            scope,
        ).isolate.state->0.dispatched_exceptions@,
        final(scope).isolate.backend.events() == old(scope).isolate.backend.events().push(
            BackendEvent::Terminate,
        ),
        *final(scope).isolate == (Isolate {
            backend: final(scope).isolate.backend,
            state: Some(
                JsRuntimeState {
                    dispatched_exceptions: final(scope).isolate.state->0.dispatched_exceptions,
                    ..old(scope).isolate.state->0
                },
            ),
            ..*old(scope).isolate
        }),
        final(scope).isolate.keeps(*old(scope).isolate),
        *final(final(scope).isolate) == *final(old(scope).isolate),
        final(scope).realm_idx == old(scope).realm_idx,
{
    let value = <Value as TryFrom<SerdeValue>>::try_from(exception).unwrap();
    let handle = Global::from_raw(&mut *scope.isolate, value).unwrap();
    if let Some(state) = scope.isolate.state.take() {
        let mut state = state;
        let ghost before = state.dispatched_exceptions@;
        state.dispatched_exceptions.push_front(handle);
        assert(state.dispatched_exceptions@.skip(1) =~= before);
        scope.isolate.state = Some(state);
    }
    scope.isolate.terminate_execution();
}

/// The names of the ops, in the order in which they were registered.
pub fn op_op_names<B>(scope: &HandleScope<'_, B>) -> (names: Vec<String>)
    requires
        scope.realm_idx < scope.isolate.slots@.len(),
    ensures
        ({
            let op_ctxs = old(scope.isolate).slots@[scope.realm_idx as int].op_ctxs@;
            &&& names@.len() == op_ctxs.len()
            &&& forall|i: int|
                0 <= i < names@.len() ==> (#[trigger] names@[i])@ == op_ctxs[i].decl.name@
        }),
{
    let op_ctxs = &JsRealm::state_from_scope(scope).op_ctxs;
    let mut names: Vec<String> = Vec::new();
    let mut i: usize = 0;
    while i < op_ctxs.len()
        invariant
            i <= op_ctxs@.len(),
            names@.len() == i,
            forall|k: int| 0 <= k < i ==> (#[trigger] names@[k])@ == op_ctxs@[k].decl.name@,
        decreases op_ctxs@.len() - i,
    {
        names.push(op_ctxs[i].decl.name.to_owned());
        i = i + 1;
    }
    names
}

pub fn op_event_loop_has_more_work<B>(scope: &HandleScope<'_, B>) -> (pending: bool)
    requires
        scope.isolate.state is Some,
    ensures
        pending == (has_refed_ops(
            old(scope.isolate).slots@,
            old(scope.isolate).state->0,
        ) || old(scope.isolate).state->0.has_tick_scheduled),
{
    EventLoopPendingState::new(
        &scope.isolate.slots,
        scope.isolate.state.as_ref().unwrap(),
    ).is_pending()
}

/// Zero-copy is an illusion: no buffer is ever detached.
pub fn op_arraybuffer_was_detached<B>(
    scope: &mut HandleScope<'_, B>,
    _input: SerdeValue,
) -> (detached: Result<bool, Error>)
    ensures
        detached == Ok::<_, Error>(false),
        *final(scope) == *old(scope),
{
    Ok(false)
}

} // verus!

//! What native code exposes to JavaScript when a context is set up.
use crate::backend::{BackendEvent, JsBackend, NativeFunctionCallback};
use crate::data::{max_string_length, Exception, String as JsString};
use crate::function::{FunctionCallbackArguments, MapFnTo, ReturnValue};
use crate::handle::{HandleInternal, Local};
use crate::isolate::{Context, Isolate};
use crate::names::NameMap;
use crate::ops::{FunctionCallback, OpCtx, RealmIdx, UserData};
use crate::scope::HandleScope;
use crate::serde::Serialized;
use crate::state::JsRealm;
use vstd::prelude::*;
use vstd::utf8::encode_utf8;

verus! {

/// The ops under their names. Where a name occurs twice the later op has it.
pub open spec fn ops_by_name(realm_idx: RealmIdx, op_ctxs: Seq<OpCtx>) -> Map<
    Seq<char>,
    NativeFunctionCallback,
>
    decreases op_ctxs.len(),
{
    if op_ctxs.len() == 0 {
        Map::empty()
    } else {
        ops_by_name(realm_idx, op_ctxs.drop_last()).insert(
            op_ctxs.last().decl.name@,
            NativeFunctionCallback {
                callback: op_ctxs.last().decl.v8_fn_ptr,
                user_data: UserData::Op { realm_idx, id: (op_ctxs.len() - 1) as usize },
            },
        )
    }
}

/// All that is exposed to JavaScript in a realm: the ops, and a list of the async ones. Each native
/// function is called with a mark of the realm.
pub open spec fn bridge_of(realm_idx: RealmIdx, op_ctxs: Seq<OpCtx>) -> Map<
    Seq<char>,
    NativeFunctionCallback,
> {
    ops_by_name(realm_idx, op_ctxs).insert(
        "asyncOpsInfo"@,
        NativeFunctionCallback {
            callback: FunctionCallback::AsyncOpsInfo,
            user_data: UserData::Ops { realm_idx, count: op_ctxs.len() as usize },
        },
    )
}

/// Every op is exposed, unless a later op or the list of async ops has its name.
pub proof fn ops_are_exposed(realm_idx: RealmIdx, op_ctxs: Seq<OpCtx>, i: int)
    requires
        0 <= i < op_ctxs.len(),
        op_ctxs[i].decl.name@ != "asyncOpsInfo"@,
        forall|j: int|
            i < j < op_ctxs.len() ==> (#[trigger] op_ctxs[j]).decl.name@ != op_ctxs[i].decl.name@,
    ensures
        bridge_of(realm_idx, op_ctxs).contains_key(op_ctxs[i].decl.name@),
        bridge_of(realm_idx, op_ctxs)[op_ctxs[i].decl.name@] == (NativeFunctionCallback {
            callback: op_ctxs[i].decl.v8_fn_ptr,
            user_data: UserData::Op { realm_idx, id: i as usize },
        }),
    decreases op_ctxs.len(),
{
    lemma_op_has_name(realm_idx, op_ctxs, i);
}

pub proof fn lemma_op_has_name(realm_idx: RealmIdx, op_ctxs: Seq<OpCtx>, i: int)
    requires
        0 <= i < op_ctxs.len(),
        forall|j: int|
            i < j < op_ctxs.len() ==> (#[trigger] op_ctxs[j]).decl.name@ != op_ctxs[i].decl.name@,
    ensures
        ops_by_name(realm_idx, op_ctxs).contains_key(op_ctxs[i].decl.name@),
        ops_by_name(realm_idx, op_ctxs)[op_ctxs[i].decl.name@] == (NativeFunctionCallback {
            callback: op_ctxs[i].decl.v8_fn_ptr,
            user_data: UserData::Op { realm_idx, id: i as usize },
        }),
    decreases op_ctxs.len(),
{
    if i < op_ctxs.len() - 1 {
        let fewer = op_ctxs.drop_last();
        assert forall|j: int| i < j < fewer.len() implies (#[trigger] fewer[j]).decl.name@
            != fewer[i].decl.name@ by {
            assert(op_ctxs[j].decl.name@ != op_ctxs[i].decl.name@);
        }
        lemma_op_has_name(realm_idx, fewer, i);
        assert(op_ctxs.last() == op_ctxs[op_ctxs.len() - 1]);
    }
}

/// Makes the context of the next realm, in which JavaScript finds the ops.
pub fn initialize_context<'s, B: JsBackend>(
    scope: &mut HandleScope<'s, B>,
    op_ctxs: &[OpCtx],
) -> (context: Local<'s, Context>)
    ensures
        context.value().is_next_of(*old(scope).isolate),
        final(scope).isolate.backend.events() == old(scope).isolate.backend.events().push(
            BackendEvent::InjectBridge {
                path: "Deno.core.ops"@,
                bridge: bridge_of(old(scope).isolate.slots@.len() as usize, op_ctxs@),
            },
        ),
        final(scope).isolate.same_but_backend(*old(scope).isolate),
        *final(final(scope).isolate) == *final(old(scope).isolate),
        final(scope).realm_idx == old(scope).realm_idx,
{
    let context = Context::new(scope);
    let realm_idx: RealmIdx = context.get_data().realm_idx;
    let mut callbacks = initialize_ops(realm_idx, op_ctxs);
    initialize_async_ops_info(&mut callbacks, realm_idx, op_ctxs);
    scope.isolate.backend.inject_bridge("Deno.core.ops", callbacks);
    context
}

pub fn initialize_ops(realm_idx: RealmIdx, op_ctxs: &[OpCtx]) -> (callbacks: NameMap<
    NativeFunctionCallback,
>)
    ensures
        callbacks.wf(),
        callbacks@ == ops_by_name(realm_idx, op_ctxs@),
{
    let mut callbacks: NameMap<NativeFunctionCallback> = NameMap::new();
    let mut i: usize = 0;
    while i < op_ctxs.len()
        invariant
            i <= op_ctxs@.len(),
            callbacks.wf(),
            callbacks@ == ops_by_name(realm_idx, op_ctxs@.take(i as int)),
        decreases op_ctxs@.len() - i,
    {
        let ctx = &op_ctxs[i];
        callbacks.insert(
            ctx.decl.name,
            NativeFunctionCallback {
                callback: ctx.decl.v8_fn_ptr,
                user_data: UserData::Op { realm_idx, id: i },
            },
        );
        i = i + 1;
        assert(op_ctxs@.take(i as int).drop_last() == op_ctxs@.take(i - 1));
    }
    assert(op_ctxs@.take(i as int) == op_ctxs@);
    callbacks
}

pub fn initialize_async_ops_info(
    ops_obj: &mut NameMap<NativeFunctionCallback>,
    realm_idx: RealmIdx,
    op_ctxs: &[OpCtx],
)
    requires
        old(ops_obj).wf(),
    ensures
        final(ops_obj).wf(),
        final(ops_obj)@ == old(ops_obj)@.insert(
            "asyncOpsInfo"@,
            NativeFunctionCallback {
                callback: FunctionCallback::AsyncOpsInfo,
                user_data: UserData::Ops { realm_idx, count: op_ctxs@.len() as usize },
            },
        ),
{
    let val = NativeFunctionCallback {
        callback: FunctionCallback::AsyncOpsInfo,
        user_data: UserData::Ops { realm_idx, count: op_ctxs.len() },
    };
    ops_obj.insert("asyncOpsInfo", val);
}

/// Leaves a `TypeError` for the backend to throw.
pub fn throw_type_error<B: JsBackend>(scope: &mut HandleScope<'_, B>, message: &str)
    requires
        encode_utf8(message@).len() <= max_string_length(),
    ensures
        final(scope).isolate.backend.events() == old(scope).isolate.backend.events().push(
            BackendEvent::SetException { class: "TypeError"@, message: message@ },
        ),
        final(scope).isolate.same_but_backend(*old(scope).isolate),
        *final(final(scope).isolate) == *final(old(scope).isolate),
        final(scope).realm_idx == old(scope).realm_idx,
{
    let message = JsString::new(scope, message).unwrap();
    let exception = Exception::type_error(scope, message);
    scope.throw_exception(exception);
}

/// Walks over the async ops of a context.
pub struct AsyncOpsInfoIterator<'s> {
    pub info: &'s [OpCtx],
    pub index: usize,
}

impl<'s> AsyncOpsInfoIterator<'s> {
    pub fn new(info: &'s [OpCtx]) -> (ops: Self)
        ensures
            ops.info@ == info@,
            ops.index == 0,
    {
        AsyncOpsInfoIterator { info, index: 0 }
    }

    /// The next async op.
    pub fn next(&mut self) -> (ctx: Option<&'s OpCtx>)
        requires
            old(self).index <= old(self).info@.len(),
        ensures
            final(self).info == old(self).info,
            old(self).index <= final(self).index <= final(self).info@.len(),
            match ctx {
                Some(ctx) => {
                    &&& old(self).index < final(self).index
                    &&& *ctx == final(self).info@[final(self).index - 1]
                    &&& ctx.decl.is_async
                    &&& forall|k: int|
                        old(self).index <= k < final(self).index - 1 ==> !(
                        #[trigger] final(self).info@[k]).decl.is_async
                },
                None => {
                    &&& final(self).index == final(self).info@.len()
                    &&& forall|k: int|
                        old(self).index <= k < final(self).info@.len() ==> !(
                        #[trigger] final(self).info@[k]).decl.is_async
                },
            },
    {
        let start: usize = self.index;
        while self.index < self.info.len()
            invariant
                self.info == old(self).info,
                start == old(self).index,
                start <= self.index <= self.info@.len(),
                forall|k: int|
                    start <= k < self.index ==> !(#[trigger] self.info@[k]).decl.is_async,
            decreases self.info@.len() - self.index,
        {
            let ctx = &self.info[self.index];
            self.index = self.index + 1;
            if ctx.decl.is_async {
                return Some(ctx);
            }
        }
        None
    }
}

/// The numbers of arguments of the async ops, under their names.
pub open spec fn async_ops(op_ctxs: Seq<OpCtx>) -> Map<Seq<char>, i32>
    decreases op_ctxs.len(),
{
    if op_ctxs.len() == 0 {
        Map::empty()
    } else {
        let ctx = op_ctxs.last();
        let others = async_ops(op_ctxs.drop_last());
        if ctx.decl.is_async {
            others.insert(ctx.decl.name@, ctx.decl.argc as i32)
        } else {
            others
        }
    }
}

proof fn lemma_sync_ops_add_nothing(op_ctxs: Seq<OpCtx>, from: int, to: int)
    requires
        0 <= from <= to <= op_ctxs.len(),
        forall|k: int| from <= k < to ==> !(#[trigger] op_ctxs[k]).decl.is_async,
    ensures
        async_ops(op_ctxs.take(to)) == async_ops(op_ctxs.take(from)),
    decreases to - from,
{
    if from < to {
        lemma_sync_ops_add_nothing(op_ctxs, from, to - 1);
        assert(op_ctxs.take(to).drop_last() == op_ctxs.take(to - 1));
        assert(!op_ctxs[to - 1].decl.is_async);
    }
}

/// Lists the async ops.
pub fn async_ops_info(op_ctxs: &[OpCtx]) -> (names: NameMap<i32>)
    ensures
        names.wf(),
        names@ == async_ops(op_ctxs@),
{
    let mut async_op_names: NameMap<i32> = NameMap::new();
    let mut ops = AsyncOpsInfoIterator::new(op_ctxs);
    loop
        invariant
            ops.info@ == op_ctxs@,
            ops.index <= op_ctxs@.len(),
            async_op_names.wf(),
            async_op_names@ == async_ops(op_ctxs@.take(ops.index as int)),
        decreases op_ctxs@.len() - ops.index,
    {
        let ghost start: int = ops.index as int;
        match ops.next() {
            Some(ctx) => {
                async_op_names.insert(ctx.decl.name, ctx.decl.argc as i32);
                proof {
                    let end: int = ops.index as int;
                    lemma_sync_ops_add_nothing(op_ctxs@, start, end - 1);
                    assert(op_ctxs@.take(end).drop_last() == op_ctxs@.take(end - 1));
                }
            },
            None => {
                proof {
                    lemma_sync_ops_add_nothing(op_ctxs@, start, op_ctxs@.len() as int);
                    assert(op_ctxs@.take(op_ctxs@.len() as int) == op_ctxs@);
                }
                return async_op_names;
            },
        }
    }
}

/// The native function that lists the async ops of the realm that it is exposed to.
pub struct AsyncOpsInfo;

impl<B> MapFnTo<B> for AsyncOpsInfo {
    open spec fn is_callable(&self, isolate: Isolate<B>, args: FunctionCallbackArguments) -> bool {
        args.data.realm() < isolate.slots@.len()
    }

    open spec fn answers(
        &self,
        before: Isolate<B>,
        args: FunctionCallbackArguments,
        after: Isolate<B>,
        value: Option<Serialized>,
    ) -> bool {
        &&& after == before
        &&& value matches Some(Serialized::Names(names))
        &&& names.wf()
        &&& names@ == async_ops(before.slots@[args.data.realm() as int].op_ctxs@)
    }

    fn invoke(
        &self,
        scope: &mut HandleScope<'_, B>,
        _args: FunctionCallbackArguments,
        return_value: &mut ReturnValue,
    ) {
        let names = async_ops_info(JsRealm::state_from_scope(scope).op_ctxs.as_slice());
        return_value.set(Serialized::Names(names));
    }
}

} // verus!

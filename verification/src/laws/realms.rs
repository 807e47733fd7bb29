//! What realms are made of, and what their set-up asks of the backend.
use crate::backend::{
    BackendEvent, JsBackend, MemoryUsage, NativeFunctionCallback, Run, TotallyLegitJSBackend,
};
use crate::bindings::{
    async_ops, async_ops_info, bridge_of, initialize_async_ops_info, initialize_context,
    initialize_ops, ops_are_exposed, ops_by_name,
    AsyncOpsInfo,
};
use crate::data::{Function, Object, Value};
use crate::error::{parsed_url, Error};
use crate::extension_js::{InitAction, InitPhase};
use crate::function::{FunctionCallbackArguments, FunctionCallbackInfo, MapFnTo};
use crate::handle::{Global, HandleInternal, Local};
use crate::isolate::{Context, Isolate, IsolateId};
use crate::laws::runtimes::{is_evaluation, is_load, lemma_script_events};
use crate::modules::ModuleId;
use crate::names::NameMap;
use crate::ops::{FunctionCallback, OpCtx, RealmIdx, UserData};
use crate::realm_setup::RealmSetup;
use crate::runtime::{
    grabbed, grabs_second, moved_to_realm, sets_cbs, JsRuntime, RuntimeOptions,
};
use crate::scope::{HandleScope, TryCatch};
use crate::serde::{Deserialized, Serialized, SerializedView};
use crate::state::{ContextState, JsRealm};
use crate::turn::Turn;
use vstd::prelude::*;

verus! {

/// An op has this name.
pub open spec fn is_op_name(op_ctxs: Seq<OpCtx>, name: Seq<char>) -> bool {
    exists|i: int| 0 <= i < op_ctxs.len() && (#[trigger] op_ctxs[i]).decl.name@ == name
}

proof fn lemma_ops_by_name(realm_idx: RealmIdx, op_ctxs: Seq<OpCtx>, name: Seq<char>)
    ensures
        ops_by_name(realm_idx, op_ctxs).contains_key(name) <==> is_op_name(op_ctxs, name),
    decreases op_ctxs.len(),
{
    if op_ctxs.len() > 0 {
        let fewer = op_ctxs.drop_last();
        lemma_ops_by_name(realm_idx, fewer, name);
        if is_op_name(fewer, name) {
            let i = choose|i: int| 0 <= i < fewer.len() && (#[trigger] fewer[i]).decl.name@ == name;
            assert(op_ctxs[i].decl.name@ == name);
        }
        if is_op_name(op_ctxs, name) {
            let i = choose|i: int|
                0 <= i < op_ctxs.len() && (#[trigger] op_ctxs[i]).decl.name@ == name;
            if i < fewer.len() {
                assert(fewer[i].decl.name@ == name);
            }
        }
        assert(op_ctxs[op_ctxs.len() - 1] == op_ctxs.last());
    }
}

/// What JavaScript finds in a realm are the ops under their names, and the list of async ops, which
/// knows the realm and how many ops there are. There is nothing else.
pub proof fn bridges_hold_ops_and_nothing_else(
    realm_idx: RealmIdx,
    op_ctxs: Seq<OpCtx>,
    name: Seq<char>,
)
    requires
        op_ctxs.len() <= usize::MAX,
    ensures
        bridge_of(realm_idx, op_ctxs).contains_key(name) <==> name == "asyncOpsInfo"@
            || is_op_name(op_ctxs, name),
        bridge_of(realm_idx, op_ctxs)["asyncOpsInfo"@].callback == FunctionCallback::AsyncOpsInfo,
        bridge_of(realm_idx, op_ctxs)["asyncOpsInfo"@].user_data matches UserData::Ops {
            realm_idx: own,
            count,
        } && own == realm_idx && count == op_ctxs.len(),
{
    lemma_ops_by_name(realm_idx, op_ctxs, name);
}

/// The last op with a name is found under it, with its function, and with a mark of its realm and
/// its number.
pub proof fn ops_are_found_under_their_names(
    realm_idx: RealmIdx,
    op_ctxs: &[OpCtx],
    callbacks: NameMap<NativeFunctionCallback>,
    i: int,
)
    requires
        call_ensures(initialize_ops, (realm_idx, op_ctxs), callbacks),
        0 <= i < op_ctxs@.len(),
        forall|j: int|
            i < j < op_ctxs@.len() ==> (#[trigger] op_ctxs@[j]).decl.name@
                != op_ctxs@[i].decl.name@,
    ensures
        callbacks@.contains_key(op_ctxs@[i].decl.name@),
        callbacks@[op_ctxs@[i].decl.name@].callback == op_ctxs@[i].decl.v8_fn_ptr,
        callbacks@[op_ctxs@[i].decl.name@].user_data == (UserData::Op {
            realm_idx,
            id: i as usize,
        }),
{
    crate::bindings::lemma_op_has_name(realm_idx, op_ctxs@, i);
}

/// This async op is the last with its name.
pub open spec fn is_last_async(op_ctxs: Seq<OpCtx>, i: int) -> bool {
    &&& 0 <= i < op_ctxs.len()
    &&& op_ctxs[i].decl.is_async
    &&& forall|j: int|
        i < j < op_ctxs.len() && (#[trigger] op_ctxs[j]).decl.is_async ==> op_ctxs[j].decl.name@
            != op_ctxs[i].decl.name@
}

proof fn lemma_async_ops(op_ctxs: Seq<OpCtx>, name: Seq<char>)
    ensures
        async_ops(op_ctxs).contains_key(name) ==> exists|i: int| #[trigger]
            is_last_async(op_ctxs, i) && op_ctxs[i].decl.name@ == name && async_ops(op_ctxs)[name]
                == op_ctxs[i].decl.argc,
        !async_ops(op_ctxs).contains_key(name) ==> forall|i: int|
            0 <= i < op_ctxs.len() && (#[trigger] op_ctxs[i]).decl.is_async
                ==> op_ctxs[i].decl.name@ != name,
    decreases op_ctxs.len(),
{
    if op_ctxs.len() > 0 {
        let fewer = op_ctxs.drop_last();
        let last = op_ctxs.len() - 1;
        lemma_async_ops(fewer, name);
        if op_ctxs[last].decl.is_async && op_ctxs[last].decl.name@ == name {
            assert(is_last_async(op_ctxs, last));
        } else if async_ops(fewer).contains_key(name) {
            let i = choose|i: int| #[trigger]
                is_last_async(fewer, i) && fewer[i].decl.name@ == name && async_ops(fewer)[name]
                    == fewer[i].decl.argc;
            assert forall|j: int|
                i < j < op_ctxs.len() && (#[trigger] op_ctxs[j]).decl.is_async implies
                op_ctxs[j].decl.name@ != op_ctxs[i].decl.name@ by {
                if j < last {
                    assert(fewer[j] == op_ctxs[j]);
                }
            }
            assert(is_last_async(op_ctxs, i));
        } else {
            assert forall|i: int|
                0 <= i < op_ctxs.len() && (#[trigger] op_ctxs[i]).decl.is_async implies
                op_ctxs[i].decl.name@ != name by {
                if i < last {
                    assert(fewer[i] == op_ctxs[i]);
                }
            }
        }
    }
}

/// The list of async ops holds the names of all of them and of no other, each with the number of its
/// arguments.
pub proof fn async_ops_are_listed(op_ctxs: &[OpCtx], names: NameMap<i32>, name: Seq<char>)
    requires
        call_ensures(async_ops_info, (op_ctxs,), names),
    ensures
        names@.contains_key(name) <==> exists|i: int|
            0 <= i < op_ctxs@.len() && (#[trigger] op_ctxs@[i]).decl.is_async
                && op_ctxs@[i].decl.name@ == name,
        names@.contains_key(name) ==> exists|i: int| #[trigger]
            is_last_async(op_ctxs@, i) && op_ctxs@[i].decl.name@ == name && names@[name]
                == op_ctxs@[i].decl.argc,
{
    lemma_async_ops(op_ctxs@, name);
    if names@.contains_key(name) {
        let i = choose|i: int| #[trigger]
            is_last_async(op_ctxs@, i) && op_ctxs@[i].decl.name@ == name && names@[name]
                == op_ctxs@[i].decl.argc;
        assert(op_ctxs@[i].decl.is_async);
    }
}

/// The realm in a mark.
pub open spec fn marked_realm(data: UserData) -> RealmIdx {
    match data {
        UserData::Op { realm_idx, id: _ } => realm_idx,
        UserData::Ops { realm_idx, count: _ } => realm_idx,
    }
}

/// JavaScript that asks for the async ops gets those of its own realm, and changes nothing by that.
pub proof fn async_ops_are_those_of_the_realm<B>(
    before: Isolate<B>,
    args: FunctionCallbackArguments,
    after: Isolate<B>,
    value: Option<Serialized>,
    name: Seq<char>,
)
    requires
        <AsyncOpsInfo as MapFnTo<B>>::answers(&AsyncOpsInfo, before, args, after, value),
    ensures
        after == before,
        ({
            let realm_idx = marked_realm(args.data);
            let op_ctxs = before.slots@[realm_idx as int].op_ctxs@;
            &&& value matches Some(Serialized::Names(names))
            &&& names@.contains_key(name) ==> exists|i: int| #[trigger]
                is_last_async(op_ctxs, i) && op_ctxs[i].decl.name@ == name && names@[name]
                    == op_ctxs[i].decl.argc
            &&& !names@.contains_key(name) ==> forall|i: int|
                0 <= i < op_ctxs.len() && (#[trigger] op_ctxs[i]).decl.is_async
                    ==> op_ctxs[i].decl.name@ != name
        }),
{
    let realm_idx = marked_realm(args.data);
    lemma_async_ops(before.slots@[realm_idx as int].op_ctxs@, name);
}

/// A map gives back what was put in last under a name, and leaves every other name alone. Names stay
/// in the order in which they first came.
pub proof fn maps_give_back_what_was_put_in<V>(
    map: &mut NameMap<V>,
    name: &str,
    value: V,
    later: NameMap<V>,
    found: Option<&V>,
    other: &str,
    other_before: Option<&V>,
    other_after: Option<&V>,
    before: NameMap<V>,
)
    requires
        old(map).wf(),
        before == *old(map),
        later == *final(map),
        call_ensures(NameMap::<V>::insert, (map, name, value), ()),
        call_ensures(NameMap::<V>::get, (&later, name), found),
        call_ensures(NameMap::<V>::get, (&before, other), other_before),
        call_ensures(NameMap::<V>::get, (&later, other), other_after),
        other@ != name@,
    ensures
        found matches Some(own) && *own == value,
        other_before is Some <==> other_after is Some,
        other_before is Some ==> *other_before->0 == *other_after->0,
        old(map)@.contains_key(name@) ==> final(map).names() == old(map).names(),
        !old(map)@.contains_key(name@) ==> final(map).names() == old(map).names().push(name@),
{
}

/// A realm begins with the ops of the global one, exposed under their names with a mark of the new
/// realm, and with nothing else set.
pub proof fn new_realms_expose_the_ops<B: JsBackend>(
    runtime: &mut JsRuntime<B>,
    setup: RealmSetup,
    i: int,
)
    requires
        old(runtime).is_set_up(),
        call_ensures(JsRuntime::<B>::begin_realm, (runtime,), setup),
        0 <= i < old(runtime).v8_isolate.slots@[0].op_ctxs@.len(),
        old(runtime).v8_isolate.slots@[0].op_ctxs@[i].decl.name@ != "asyncOpsInfo"@,
        forall|j: int|
            i < j < old(runtime).v8_isolate.slots@[0].op_ctxs@.len() ==> (
            #[trigger] old(runtime).v8_isolate.slots@[0].op_ctxs@[j]).decl.name@
                != old(runtime).v8_isolate.slots@[0].op_ctxs@[i].decl.name@,
    ensures
        ({
            let before = old(runtime).v8_isolate;
            let after = final(runtime).v8_isolate;
            let count = before.slots@.len();
            let op = before.slots@[0].op_ctxs@[i];
            &&& after.slots@.len() == count + 1
            &&& after.slots@[count as int].js_recv_cb is None
            &&& after.slots@[count as int].js_format_exception_cb is None
            &&& after.slots@[count as int].unrefed_ops@.len() == 0
            &&& after.slots@[count as int].op_ctxs@.len() == before.slots@[0].op_ctxs@.len()
            &&& after.slots@[count as int].op_ctxs@[i].decl == op.decl
            &&& after.slots@[count as int].op_ctxs@[i].realm_idx == count
            &&& after.backend.events().len() == before.backend.events().len() + 1
            &&& after.backend.events().last() matches BackendEvent::InjectBridge { path, bridge }
            &&& path == "Deno.core.ops"@
            &&& bridge.contains_key(op.decl.name@)
            &&& bridge[op.decl.name@].callback == op.decl.v8_fn_ptr
            &&& bridge[op.decl.name@].user_data matches UserData::Op { realm_idx, id }
            &&& realm_idx == count
            &&& id == i
        }),
{
    let before = old(runtime).v8_isolate;
    let after = final(runtime).v8_isolate;
    let op_ctxs = before.slots@[0].op_ctxs@;
    let count = before.slots@.len();
    assert(before.slots.len() == count);
    assert(before.slots@[0].op_ctxs.len() == op_ctxs.len());
    let moved = moved_to_realm(op_ctxs, count as usize);
    assert(after.slots@[count as int] == after.slots@.last());
    assert forall|j: int| i < j < moved.len() implies (#[trigger] moved[j]).decl.name@
        != moved[i].decl.name@ by {
        assert(op_ctxs[j].decl.name@ != op_ctxs[i].decl.name@);
    }
    ops_are_exposed(count as usize, moved, i);
}

/// A script of an extension is executed as it is listed. The set-up goes on with the next file where
/// the backend has a result, and is over with an error where it has none.
pub proof fn set_up_scripts_are_executed<B: JsBackend>(
    setup: &mut RealmSetup,
    runtime: &mut JsRuntime<B>,
    action: InitAction,
)
    requires
        old(setup).init.wf(),
        call_ensures(RealmSetup::advance::<B>, (setup, runtime), action),
        old(setup).init.done < old(setup).init.steps@.len(),
        old(setup).init.steps@[old(setup).init.done as int] is Script,
    ensures
        ({
            let file = old(setup).init.steps@[old(setup).init.done as int]->Script_0;
            let earlier = old(runtime).v8_isolate.backend.events();
            let later = final(runtime).v8_isolate.backend.events();
            &&& later.len() > earlier.len()
            &&& later[earlier.len() as int] matches BackendEvent::Ran {
                run: Run::ExecuteScript { name, source_code, result },
                within: _,
            }
            &&& name == file.specifier@
            &&& source_code == file.code@
            &&& result is Some ==> action is Advance && final(setup).init.done
                == old(setup).init.done + 1 && later.len() == earlier.len() + 1
            &&& result is None ==> (action matches InitAction::Finished(Err(_)))
                && final(setup).init.done == old(setup).init.done
        }),
        final(setup).init.steps == old(setup).init.steps,
        final(runtime).extensions_with_js == old(runtime).extensions_with_js,
{
    let file = old(setup).init.steps@[old(setup).init.done as int]->Script_0;
    let before = old(runtime).v8_isolate;
    let after = final(runtime).v8_isolate;
    let idx = old(setup).realm().idx();
    let outcome = choose|outcome: Result<Global<Value>, Error>| #[trigger]
        crate::realm::executed(before, after, idx, file.specifier@, file.code@, outcome)
            && match outcome {
            Ok(_) => {
                &&& action == InitAction::Advance
                &&& final(setup).init.done == old(setup).init.done + 1
            },
            Err(error) => {
                &&& action == InitAction::Finished(Err(error))
                &&& final(setup).init == old(setup).init
            },
        };
    lemma_script_events(before, after, idx, file.specifier@, file.code@, outcome);
}

/// A module of an extension is loaded under the normal form of its URL and evaluated after that. The
/// event loop is run for it where the backend began with it.
pub proof fn set_up_modules_are_evaluated<B: JsBackend>(
    setup: &mut RealmSetup,
    runtime: &mut JsRuntime<B>,
    action: InitAction,
    href: Seq<char>,
    scheme: Seq<char>,
    path: Seq<char>,
)
    requires
        old(setup).init.wf(),
        call_ensures(RealmSetup::advance::<B>, (setup, runtime), action),
        old(setup).init.done < old(setup).init.steps@.len(),
        old(setup).init.steps@[old(setup).init.done as int] is Module,
        parsed_url(old(setup).init.steps@[old(setup).init.done as int]->Module_0.specifier@) == Ok::<
            _,
            Seq<char>,
        >((href, scheme, path)),
    ensures
        ({
            let file = old(setup).init.steps@[old(setup).init.done as int]->Module_0;
            let id = old(runtime).v8_isolate.module_map->0.next_module_id;
            let earlier = old(runtime).v8_isolate.backend.events();
            let later = final(runtime).v8_isolate.backend.events();
            let begun = action is RunTurn;
            &&& later.len() == earlier.len() + 2
            &&& later.take(earlier.len() as int) == earlier
            &&& is_load(later[earlier.len() as int], id, href, Some(file.code@))
            &&& is_evaluation(later[earlier.len() as int + 1], id, begun)
            &&& begun ==> final(setup).init.phase == InitPhase::Turning(id)
            &&& !begun ==> action == InitAction::NotStarted(id)
            &&& final(setup).init.done == old(setup).init.done
        }),
{
    let file = old(setup).init.steps@[old(setup).init.done as int]->Module_0;
    let id = old(runtime).v8_isolate.module_map->0.next_module_id;
    let (middle, started) = choose|middle: JsRuntime<B>, started: bool| #[trigger]
        crate::extension_js::evaluation_begun(
            *old(runtime),
            *final(runtime),
            middle,
            href,
            file.code@,
            id,
            started,
        ) && if started {
            &&& action == InitAction::RunTurn
            &&& final(setup).init == (crate::extension_js::ExtensionJsInit {
                phase: InitPhase::Turning(id),
                ..old(setup).init
            })
        } else {
            &&& action == InitAction::NotStarted(id)
            &&& final(setup).init == old(setup).init
        };
    let earlier = old(runtime).v8_isolate.backend.events();
    let later = final(runtime).v8_isolate.backend.events();
    assert(later.take(earlier.len() as int) =~= earlier);
}

/// When all files are done the functions that native code calls are asked for by their names, and
/// both are set where both are there. The runtime gets its extensions back.
pub proof fn set_ups_end_with_the_callbacks<B: JsBackend>(
    setup: &mut RealmSetup,
    runtime: &mut JsRuntime<B>,
    action: InitAction,
)
    requires
        old(setup).init.wf(),
        call_ensures(RealmSetup::advance::<B>, (setup, runtime), action),
        old(setup).init.done == old(setup).init.steps@.len(),
    ensures
        ({
            let at = old(setup).realm().idx() as int;
            let earlier = old(runtime).v8_isolate.backend.events();
            let later = final(runtime).v8_isolate.backend.events();
            let slot = final(runtime).v8_isolate.slots@[at];
            &&& later.len() > earlier.len()
            &&& later[earlier.len() as int] matches BackendEvent::Ran {
                run: Run::GrabFunction { name, function },
                within: _,
            }
            &&& name == "Deno.core.opresolve"@
            &&& function is None ==> action is NoCallbacks && later.len() == earlier.len() + 1
            &&& function matches Some(opresolve) ==> {
                &&& later.len() == earlier.len() + 2
                &&& later[earlier.len() as int + 1] matches BackendEvent::Ran {
                    run: Run::GrabFunction { name: second_name, function: second },
                    within: _,
                }
                &&& second_name == "Deno.core.buildCustomError"@
                &&& second is None ==> action is NoCallbacks
                &&& second matches Some(build_custom_error) ==> {
                    &&& action matches InitAction::Finished(Ok(realm))
                    &&& realm == old(setup).realm()
                    &&& slot.js_recv_cb matches Some(own)
                    &&& own.value() == opresolve
                    &&& slot.js_build_custom_error_cb matches Some(own_second)
                    &&& own_second.value() == build_custom_error
                }
            }
        }),
        final(runtime).extensions_with_js == old(setup).init.extensions,
{
    let idx = old(setup).realm().idx();
    let start = old(runtime).v8_isolate;
    let end = final(runtime).v8_isolate;
    let found = action is Finished;
    assert(crate::runtime::grabs_cbs(start, end, idx, found));
    let (middle, opresolve) = choose|middle: Isolate<B>, opresolve: Option<Function>| #[trigger]
        grabbed(start, middle, "Deno.core.opresolve"@, opresolve) && match opresolve {
            Some(opresolve) => grabs_second(middle, end, idx, opresolve, found),
            None => !found && end == middle,
        };
    if let Some(opresolve) = opresolve {
        let (ready, second) = choose|ready: Isolate<B>, second: Option<Function>| #[trigger]
            grabbed(middle, ready, "Deno.core.buildCustomError"@, second) && match second {
                Some(second) => found && sets_cbs(ready, end, idx, opresolve, second),
                None => !found && end == ready,
            };
        assert(end.backend == ready.backend);
    }
}

/// The error has a note that names the file, and is itself under it.
pub open spec fn is_noted_error(noted: Error, specifier: Seq<char>, error: Error) -> bool {
    noted matches Error::Context { context, source } && context@ == "Couldn't execute '"@
        + specifier + "'"@ && *source == error
}

/// After a turn no tick is left scheduled. The module is awaited where the event loop has nothing
/// left to do, the event loop is run again where it has, and an error ends the set-up, with a note
/// on the file.
pub proof fn set_up_turns_leave_no_tick<B: JsBackend>(
    setup: &mut RealmSetup,
    runtime: &mut JsRuntime<B>,
    turn: Turn,
    action: InitAction,
    id: ModuleId,
)
    requires
        old(setup).init.wf(),
        old(setup).init.phase == InitPhase::Turning(id),
        old(runtime).is_set_up(),
        call_ensures(RealmSetup::on_turn::<B>, (setup, runtime, turn), action),
    ensures
        !final(runtime).v8_isolate.state->0.has_tick_scheduled,
        final(runtime).v8_isolate.backend == old(runtime).v8_isolate.backend,
        final(runtime).v8_isolate.slots == old(runtime).v8_isolate.slots,
        final(runtime).v8_isolate.state->0.pending_ops
            == old(runtime).v8_isolate.state->0.pending_ops,
        final(setup).init.done == old(setup).init.done,
        match turn {
            Turn::Ready(Ok(_)) => action == InitAction::AwaitModule(id) && final(setup).init.phase
                == InitPhase::Ending(id),
            Turn::Ready(Err(error)) => (action matches InitAction::Finished(Err(noted))
                && is_noted_error(
                noted,
                old(setup).init.steps@[old(setup).init.done as int]->Module_0.specifier@,
                error,
            )),
            Turn::Pending { .. } => action is RunTurn && final(setup).init.phase
                == InitPhase::Turning(id),
        },
{
}

/// A module that has ended well is done, and the next file is next. One that has not ends the
/// set-up, with a note on the file.
pub proof fn set_up_modules_end(
    setup: &mut RealmSetup,
    result: Result<(), Error>,
    action: InitAction,
)
    requires
        old(setup).init.wf(),
        old(setup).init.phase is Ending,
        call_ensures(RealmSetup::on_module, (setup, result), action),
    ensures
        result is Ok ==> action is Advance && final(setup).init.done == old(setup).init.done + 1
            && final(setup).init.phase == InitPhase::Next,
        result matches Err(error) ==> (action matches InitAction::Finished(Err(noted))
            && is_noted_error(
            noted,
            old(setup).init.steps@[old(setup).init.done as int]->Module_0.specifier@,
            error,
        )) && final(setup).init.done == old(setup).init.done,
        final(setup).init.steps == old(setup).init.steps,
{
}

/// A realm belongs to the isolate that its context was made in, and its scopes are at its place
/// there.
pub proof fn realms_know_their_isolate<'s, B>(
    realm: JsRealm,
    isolate: Isolate<B>,
    belongs: bool,
    entered: &'s mut Isolate<B>,
    scope: HandleScope<'s, B>,
)
    requires
        call_ensures(JsRealm::belongs_to::<B>, (&realm, &isolate), belongs),
        call_ensures(JsRealm::handle_scope::<B>, (&realm, entered), scope),
    ensures
        belongs <==> realm.0.value().isolate_id == isolate.id.number() && realm.0.value().realm_idx
            < isolate.slots@.len(),
        scope.realm_idx == realm.0.value().realm_idx,
{
}

/// What is kept in an isolate for a realm or under an index is what was put there last, and other
/// places are left alone.
pub proof fn isolates_keep_what_is_put_in<B>(
    isolate: &mut Isolate<B>,
    realm_idx: RealmIdx,
    value: ContextState,
    numbered: &mut Isolate<B>,
    index: u32,
    address: usize,
    r: int,
    other: u32,
)
    requires
        realm_idx <= old(isolate).slots@.len(),
        call_ensures(Isolate::<B>::set_slot, (isolate, realm_idx, value), ()),
        call_ensures(Isolate::<B>::set_data, (numbered, index, address), ()),
        0 <= r < old(isolate).slots@.len(),
        r != realm_idx,
        other != index,
    ensures
        final(isolate).slots@[realm_idx as int] == value,
        final(isolate).slots@[r] == old(isolate).slots@[r],
        realm_idx < old(isolate).slots@.len() ==> final(isolate).slots@.len()
            == old(isolate).slots@.len(),
        final(isolate).state == old(isolate).state,
        final(isolate).data == old(isolate).data,
        final(numbered).data@.contains_key(index),
        final(numbered).data@[index] == address,
        final(numbered).data@.contains_key(other) == old(numbered).data@.contains_key(other),
        old(numbered).data@.contains_key(other) ==> final(numbered).data@[other]
            == old(numbered).data@[other],
        final(numbered).slots == old(numbered).slots,
{
}

/// What is read of an isolate is what is kept in it. Termination cannot be observed.
pub proof fn isolates_tell_what_they_keep<B>(
    isolate: Isolate<B>,
    realm_idx: RealmIdx,
    slot: Option<&ContextState>,
    index: u32,
    address: usize,
    terminating: bool,
)
    requires
        isolate.data@.contains_key(index),
        call_ensures(Isolate::<B>::get_slot, (&isolate, realm_idx), slot),
        call_ensures(Isolate::<B>::get_data, (&isolate, index), address),
        call_ensures(Isolate::<B>::is_execution_terminating, (&isolate,), terminating),
    ensures
        slot is Some <==> realm_idx < isolate.slots@.len(),
        slot is Some ==> *slot->0 == isolate.slots@[realm_idx as int],
        address == isolate.data@[index],
        !terminating,
{
}

/// A context is initialized by exposing the ops in it, once: those under their names and the list of
/// async ops, all with a mark of the realm that comes next.
pub proof fn contexts_are_made_with_their_ops<'s, B: JsBackend>(
    scope: &mut HandleScope<'s, B>,
    op_ctxs: &[OpCtx],
    context: Local<'s, Context>,
    i: int,
)
    requires
        call_ensures(initialize_context::<B>, (scope, op_ctxs), context),
        0 <= i < op_ctxs@.len(),
        op_ctxs@[i].decl.name@ != "asyncOpsInfo"@,
        forall|j: int|
            i < j < op_ctxs@.len() ==> (#[trigger] op_ctxs@[j]).decl.name@
                != op_ctxs@[i].decl.name@,
    ensures
        context.value().isolate_id == old(scope).isolate.id.number(),
        context.value().realm_idx == old(scope).isolate.slots@.len(),
        final(scope).isolate.slots == old(scope).isolate.slots,
        final(scope).isolate.state == old(scope).isolate.state,
        ({
            let earlier = old(scope).isolate.backend.events();
            let later = final(scope).isolate.backend.events();
            &&& later.len() == earlier.len() + 1
            &&& later.take(earlier.len() as int) == earlier
            &&& later.last() matches BackendEvent::InjectBridge { path, bridge }
            &&& path == "Deno.core.ops"@
            &&& bridge.contains_key("asyncOpsInfo"@)
            &&& bridge.contains_key(op_ctxs@[i].decl.name@)
            &&& bridge[op_ctxs@[i].decl.name@].callback == op_ctxs@[i].decl.v8_fn_ptr
            &&& bridge[op_ctxs@[i].decl.name@].user_data matches UserData::Op { realm_idx, id }
            &&& realm_idx == old(scope).isolate.slots@.len()
            &&& id == i
        }),
{
    let count = old(scope).isolate.slots@.len();
    assert(old(scope).isolate.slots.len() == count);
    assert(op_ctxs.len() == op_ctxs@.len());
    ops_are_exposed(count as usize, op_ctxs@, i);
    let earlier = old(scope).isolate.backend.events();
    let later = final(scope).isolate.backend.events();
    assert(later.take(earlier.len() as int) =~= earlier);
}

/// The list of async ops is added under its name, and leaves the ops as they are.
pub proof fn async_list_is_added(
    callbacks: &mut NameMap<NativeFunctionCallback>,
    realm_idx: RealmIdx,
    op_ctxs: &[OpCtx],
    name: Seq<char>,
)
    requires
        old(callbacks).wf(),
        call_ensures(initialize_async_ops_info, (callbacks, realm_idx, op_ctxs), ()),
        name != "asyncOpsInfo"@,
    ensures
        final(callbacks)@.contains_key("asyncOpsInfo"@),
        final(callbacks)@["asyncOpsInfo"@].callback == FunctionCallback::AsyncOpsInfo,
        final(callbacks)@["asyncOpsInfo"@].user_data matches UserData::Ops {
            realm_idx: own,
            count,
        } && own == realm_idx && count == op_ctxs@.len(),
        final(callbacks)@.contains_key(name) == old(callbacks)@.contains_key(name),
        old(callbacks)@.contains_key(name) ==> final(callbacks)@[name] == old(callbacks)@[name],
{
    assert(op_ctxs.len() == op_ctxs@.len());
}

/// A new context is that of the next realm of its isolate, the current one that of the first, and a
/// context's state is kept at its place.
pub proof fn contexts_have_their_places<'s, B>(
    scope: &mut HandleScope<'s, B>,
    next: Local<'s, Context>,
    isolate: &'s mut Isolate<B>,
    current: Local<'s, Context>,
    context: Context,
    keeping: &mut Isolate<B>,
    value: ContextState,
)
    requires
        call_ensures(Context::new::<B>, (scope,), next),
        call_ensures(Isolate::<B>::get_current_context, (isolate,), current),
        context.isolate_id == old(keeping).id.number(),
        context.realm_idx <= old(keeping).slots@.len(),
        call_ensures(Context::set_slot::<B>, (&context, keeping, value), ()),
    ensures
        next.value().isolate_id == old(scope).isolate.id.number(),
        next.value().realm_idx == old(scope).isolate.slots@.len(),
        *final(scope).isolate == *old(scope).isolate,
        current.value().isolate_id == old(isolate).id.number(),
        current.value().realm_idx == 0,
        final(keeping).slots@[context.realm_idx as int] == value,
        context.realm_idx == old(keeping).slots@.len() ==> final(keeping).slots@.len()
            == old(keeping).slots@.len() + 1,
        final(keeping).state == old(keeping).state,
{
}

/// What is read of a realm is what is kept at its place, whichever way it is looked up.
pub proof fn realms_read_their_state<'s, B>(
    realm: JsRealm,
    isolate: Isolate<B>,
    state: &ContextState,
    scope: HandleScope<'s, B>,
    scope_state: &ContextState,
    entered: &'s mut Isolate<B>,
    inside: HandleScope<'s, B>,
    first: HandleScope<'s, B>,
    second: &'s mut Isolate<B>,
)
    requires
        realm.is_of(isolate),
        call_ensures(JsRealm::state::<B>, (&realm, &isolate), state),
        scope.realm_idx < scope.isolate.slots@.len(),
        call_ensures(JsRealm::state_from_scope::<B>, (&scope,), scope_state),
        call_ensures(
            HandleScope::<'s, B>::with_context::<Global<Context>>,
            (entered, &realm.0),
            inside,
        ),
        call_ensures(HandleScope::<'s, B>::new, (second,), first),
    ensures
        *state == isolate.slots@[realm.0.value().realm_idx as int],
        *scope_state == old(scope.isolate).slots@[scope.realm_idx as int],
        inside.realm_idx == realm.0.value().realm_idx,
        first.realm_idx == 0,
{
}

/// A realm that is begun is to run the JavaScript of all extensions with JavaScript, from the first
/// file on. The extensions are with the set-up meanwhile, and nothing else of the runtime changes.
pub proof fn new_realms_run_all_javascript<B: JsBackend>(
    runtime: &mut JsRuntime<B>,
    setup: RealmSetup,
)
    requires
        old(runtime).is_set_up(),
        call_ensures(JsRuntime::<B>::begin_realm, (runtime,), setup),
    ensures
        setup.init.extensions == old(runtime).extensions_with_js,
        setup.init.done == 0,
        setup.init.phase == InitPhase::Next,
        setup.realm().0.value().realm_idx == old(runtime).v8_isolate.slots@.len(),
        setup.realm().0.value().isolate_id == old(runtime).v8_isolate.id.number(),
        final(runtime).extensions_with_js@.len() == 0,
        final(runtime).extensions == old(runtime).extensions,
        final(runtime).event_loop_middlewares == old(runtime).event_loop_middlewares,
        final(runtime).v8_isolate.state->0.pending_ops
            == old(runtime).v8_isolate.state->0.pending_ops,
        final(runtime).v8_isolate.module_map == old(runtime).v8_isolate.module_map,
{
    assert(old(runtime).v8_isolate.slots.len() == old(runtime).v8_isolate.slots@.len());
}

/// The entries of a map are its names with their values, each once, in the order in which the names
/// first came.
pub proof fn entries_are_in_order<V>(map: NameMap<V>, entries: &Vec<(String, V)>, i: int)
    requires
        map.wf(),
        call_ensures(NameMap::<V>::entries, (&map,), entries),
        0 <= i < entries@.len(),
    ensures
        entries@.len() == map.names().len(),
        entries@[i].0@ == map.names()[i],
        map@.contains_key(entries@[i].0@),
        map@[entries@[i].0@] == entries@[i].1,
        forall|j: int| 0 <= j < entries@.len() && j != i ==> entries@[j].0@ != entries@[i].0@,
{
    let names = entries@.map_values(|entry: (String, V)| entry.0@);
    assert(names[i] == entries@[i].0@);
    assert forall|j: int| 0 <= j < entries@.len() && j != i implies entries@[j].0@
        != entries@[i].0@ by {
        assert(names[j] == entries@[j].0@);
    }
}

/// An argument can be taken by its place, and put back there.
pub proof fn arguments_have_their_places<'a>(
    args: &'a mut FunctionCallbackArguments,
    i: i32,
    value: &'a mut Deserialized,
)
    requires
        0 <= i < old(args).values@.len(),
        call_ensures(FunctionCallbackArguments::get, (args, i), value),
    ensures
        *old(value) == old(args).values@[i as int],
        final(args).values@ == old(args).values@.update(i as int, *final(value)),
        final(args).data == old(args).data,
{
}

/// A call of the native function that lists async ops is answered with those of the realm in its
/// mark, and changes nothing.
pub proof fn async_ops_are_answered<'s, B>(
    info: FunctionCallbackInfo<'s, B>,
    value: Serialized,
    name: Seq<char>,
)
    requires
        marked_realm(info.data) < info.isolate.slots@.len(),
        call_ensures(<AsyncOpsInfo as MapFnTo<B>>::map_fn_to, (&AsyncOpsInfo, info), value),
    ensures
        *final(info.isolate) == *old(info.isolate),
        ({
            let op_ctxs = old(info.isolate).slots@[marked_realm(info.data) as int].op_ctxs@;
            &&& value@ matches SerializedView::Names(names)
            &&& names.contains_key(name) ==> exists|i: int| #[trigger]
                is_last_async(op_ctxs, i) && op_ctxs[i].decl.name@ == name && names[name]
                    == op_ctxs[i].decl.argc
            &&& !names.contains_key(name) ==> forall|i: int|
                0 <= i < op_ctxs.len() && (#[trigger] op_ctxs[i]).decl.is_async
                    ==> op_ctxs[i].decl.name@ != name
        }),
{
    let op_ctxs = old(info.isolate).slots@[marked_realm(info.data) as int].op_ctxs@;
    lemma_async_ops(op_ctxs, name);
}

/// The backend that is there by default runs nothing: scripts and calls have no result, no module is
/// begun with, and any function is there.
pub proof fn default_backend_runs_nothing(
    isolate: &mut Isolate<TotallyLegitJSBackend>,
    name: &str,
    source_code: &str,
    value: Option<Value>,
    executing: &mut Isolate<TotallyLegitJSBackend>,
    id: ModuleId,
    started: bool,
    grabbing: &mut Isolate<TotallyLegitJSBackend>,
    function: Option<Function>,
    invoking: &mut Isolate<TotallyLegitJSBackend>,
    called: Function,
    args: Vec<Serialized>,
    answer: Option<Deserialized>,
    backend: &mut TotallyLegitJSBackend,
    usage: MemoryUsage,
)
    requires
        call_ensures(
            <TotallyLegitJSBackend as JsBackend>::execute_script,
            (isolate, name, source_code),
            value,
        ),
        call_ensures(
            <TotallyLegitJSBackend as JsBackend>::execute_module,
            (executing, id),
            started,
        ),
        call_ensures(
            <TotallyLegitJSBackend as JsBackend>::grab_function,
            (grabbing, name),
            function,
        ),
        call_ensures(
            <TotallyLegitJSBackend as JsBackend>::invoke_function,
            (invoking, &called, args),
            answer,
        ),
        call_ensures(<TotallyLegitJSBackend as JsBackend>::get_memory_usage, (backend,), usage),
    ensures
        value is None,
        !started,
        function == Some(Function(0)),
        answer is None,
        usage.physical_total == 0 && usage.heap_total == 0 && usage.heap_used == 0
            && usage.external == 0,
        final(isolate).slots == old(isolate).slots,
        final(invoking).slots == old(invoking).slots,
{
}

/// An isolate, a context's state and what an exception is caught in begin empty.
pub proof fn everything_begins_empty<'s, 'p, B>(
    id: IsolateId,
    backend: B,
    isolate: Isolate<B>,
    op_ctxs: Vec<OpCtx>,
    slot: ContextState,
    options: RuntimeOptions<TotallyLegitJSBackend>,
    scope: &'s mut HandleScope<'p, B>,
    catching: TryCatch<'s, HandleScope<'p, B>>,
    caught: bool,
    terminated: bool,
    exception: Option<Local<'p, Value>>,
)
    requires
        call_ensures(Isolate::<B>::new, (id, backend), isolate),
        call_ensures(ContextState::new, (op_ctxs,), slot),
        call_ensures(RuntimeOptions::<TotallyLegitJSBackend>::default, (), options),
        call_ensures(TryCatch::<'s, HandleScope<'p, B>>::new, (scope,), catching),
        call_ensures(TryCatch::<'s, HandleScope<'p, B>>::has_caught, (&catching,), caught),
        call_ensures(TryCatch::<'s, HandleScope<'p, B>>::has_terminated, (&catching,), terminated),
        call_ensures(TryCatch::<'s, HandleScope<'p, B>>::exception, (&catching,), exception),
    ensures
        isolate.id == id,
        isolate.backend == backend,
        isolate.slots@.len() == 0,
        isolate.state is None,
        isolate.module_map is None,
        slot.op_ctxs@ == op_ctxs@,
        slot.js_recv_cb is None && slot.js_build_custom_error_cb is None,
        slot.js_promise_reject_cb is None && slot.js_format_exception_cb is None,
        slot.unrefed_ops@.len() == 0,
        options.extensions@.len() == 0 && options.extensions_with_js@.len() == 0,
        options.get_error_class_fn is None,
        !caught,
        !terminated,
        exception is None,
{
}

/// A realm is one of its context, as is every copy of it, and its global object is that of the
/// context.
pub proof fn realms_are_their_contexts<'s, B>(
    context: Global<Context>,
    realm: JsRealm,
    copy: JsRealm,
    same: &Global<Context>,
    isolate: &'s mut Isolate<B>,
    object: Local<'s, Object>,
)
    requires
        call_ensures(JsRealm::new, (context,), realm),
        call_ensures(JsRealm::clone, (&realm,), copy),
        call_ensures(JsRealm::context, (&realm,), same),
        call_ensures(JsRealm::global_object::<B>, (&realm, isolate), object),
    ensures
        realm.0 == context,
        copy == realm,
        *same == context,
        object.value() == context.value().global.value(),
        *final(isolate) == *old(isolate),
{
}

} // verus!

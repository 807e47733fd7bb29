//! What a runtime asks of its backend, and what it keeps of it.
use crate::backend::{BackendEvent, JsBackend, Run};
use crate::bindings::ops_are_exposed;
use crate::data::Value;
use crate::error::{parsed_url, Error};
use crate::event_loop::EventLoopPendingState;
use crate::extension::{Extension, ExtensionFileSource};
use crate::handle::{Global, HandleInternal};
use crate::isolate::{Context, Isolate, IsolateId};
use crate::laws::completions::{every_op_is_told_once, tells_each_once};
use crate::laws::extensions::{
    is_left, lists_hooks, middleware_comes_in_order, ops_before, passes_through,
    runtimes_start_with_all_ops,
};
use crate::laws::texts::has;
use crate::modules::{two_mains_error, ModuleId, ModuleMap};
use crate::ops::{CompletedOp, FunctionCallback, OpDecl, OpState, UserData};
use crate::pending::{done_ops, only_done, pending_count, PendingOps};
use crate::realm_setup::RealmSetup;
use crate::runtime::{couldnt_execute, resolved, turn_begun, JsRuntime, ModuleStart, RuntimeOptions};
use crate::state::{JsRealm, JsRuntimeState};
use crate::text::debug_text;
use crate::turn::{MacrotaskDrain, Turn};
use vstd::prelude::*;

verus! {

/// A main module is there.
pub open spec fn has_main_module(modules: ModuleMap) -> bool {
    exists|id: ModuleId| #[trigger] modules.by_id@.contains_key(id) && modules.by_id@[id].main
}

/// One module more, under the next number, and all others as they were.
pub open spec fn is_added(
    before: ModuleMap,
    after: ModuleMap,
    id: ModuleId,
    main: bool,
    name: Seq<char>,
) -> bool {
    &&& id == before.next_module_id
    &&& after.next_module_id == id + 1
    &&& after.by_id@.contains_key(id)
    &&& after.by_id@[id].id == id
    &&& after.by_id@[id].main == main
    &&& after.by_id@[id].name@ == name
    &&& forall|other: ModuleId|
        other != id ==> (#[trigger] after.by_id@.contains_key(other) <==> before.by_id@.contains_key(
            other,
        ))
    &&& forall|other: ModuleId| #[trigger]
        before.by_id@.contains_key(other) ==> after.by_id@[other] == before.by_id@[other]
}

proof fn lemma_added(
    before: ModuleMap,
    after: ModuleMap,
    main: bool,
    name: Seq<char>,
)
    requires
        before.adds(after, main, name),
    ensures
        is_added(before, after, before.next_module_id, main, name),
{
    let id = before.next_module_id;
    assert(after.by_id@.dom().contains(id));
    assert forall|other: ModuleId| other != id implies (#[trigger] after.by_id@.contains_key(other)
        <==> before.by_id@.contains_key(other)) by {
        assert(after.by_id@.dom().contains(other) == before.by_id@.dom().insert(id).contains(other));
    }
}

/// The error of a second main module shows both.
pub open spec fn is_second_main(error: Error, specifier: Seq<char>, existing: Seq<char>) -> bool {
    has(
        error,
        "Error"@,
        "Trying to create \"main\" module ("@ + debug_text(specifier)
            + "), when one already exists ("@ + debug_text(existing) + ")"@,
    )
}

/// Modules are added under the next number. A side module always is; a main module only where there
/// is none yet, and otherwise nothing changes and the error shows both.
pub proof fn modules_are_added_under_the_next_number(
    side: &mut ModuleMap,
    main: &mut ModuleMap,
    specifier: &str,
    side_id: Result<ModuleId, Error>,
    main_id: Result<ModuleId, Error>,
)
    requires
        old(side).wf(),
        old(main).wf(),
        call_ensures(ModuleMap::load_side, (side, specifier), side_id),
        call_ensures(ModuleMap::load_main, (main, specifier), main_id),
    ensures
        side_id matches Ok(id) && is_added(*old(side), *final(side), id, false, specifier@),
        main_id is Ok <==> !has_main_module(*old(main)),
        main_id matches Ok(id) ==> is_added(*old(main), *final(main), id, true, specifier@),
        main_id matches Err(error) ==> *final(main) == *old(main) && exists|id: ModuleId|
            #[trigger] old(main).by_id@.contains_key(id) && old(main).by_id@[id].main
                && is_second_main(error, specifier@, old(main).by_id@[id].name@),
{
    lemma_added(*old(side), *final(side), false, specifier@);
    if main_id is Ok {
        lemma_added(*old(main), *final(main), true, specifier@);
        if has_main_module(*old(main)) {
            let id = choose|id: ModuleId| #[trigger]
                old(main).by_id@.contains_key(id) && old(main).by_id@[id].main;
            assert(old(main).is_main(id));
        }
    } else {
        let id = choose|id: ModuleId| old(main).is_main(id);
        assert(old(main).is_main(id));
        assert(old(main).by_id@.contains_key(id) && old(main).by_id@[id].main);
    }
}

/// The error of a second main module is put together from what is shown of both.
pub proof fn second_mains_are_shown(shown: &str, existing: &str, error: Error)
    requires
        call_ensures(two_mains_error, (shown, existing), error),
    ensures
        has(
            error,
            "Error"@,
            "Trying to create \"main\" module ("@ + shown@ + "), when one already exists ("@
                + existing@ + ")"@,
        ),
{
}

/// A map of modules begins empty, and tells which modules are in it.
pub proof fn modules_are_found_by_number(empty: ModuleMap, modules: ModuleMap, id: ModuleId, found: bool)
    requires
        call_ensures(ModuleMap::default, (), empty),
        call_ensures(ModuleMap::contains, (&modules, id), found),
    ensures
        empty.next_module_id == 0,
        !empty.by_id@.contains_key(id),
        found <==> modules.by_id@.contains_key(id),
{
}

/// The backend was asked for one thing more, and then no more.
pub open spec fn asked_once<B: JsBackend>(before: Isolate<B>, after: Isolate<B>) -> bool {
    let earlier = before.backend.events();
    let later = after.backend.events();
    later.len() == earlier.len() + 1 && later.take(earlier.len() as int) == earlier
}

proof fn lemma_asked_once<B: JsBackend>(before: Isolate<B>, after: Isolate<B>)
    requires
        after.backend.events() == before.backend.events().push(after.backend.events().last()),
    ensures
        asked_once(before, after),
{
    assert(after.backend.events().take(before.backend.events().len() as int)
        =~= before.backend.events());
}

/// The event is the loading of a module.
pub open spec fn is_load(
    event: BackendEvent,
    id: ModuleId,
    name: Seq<char>,
    code: Option<Seq<char>>,
) -> bool {
    event matches BackendEvent::Ran {
        run: Run::LoadModule { id: own_id, name: own_name, code: own_code },
        within: _,
    } && own_id == id && own_name == name && own_code == code
}

/// The event is the evaluation of a module.
pub open spec fn is_evaluation(event: BackendEvent, id: ModuleId, begun: bool) -> bool {
    event matches BackendEvent::Ran { run: Run::ExecuteModule { id: own_id, started }, within: _ }
        && own_id == id && started == begun
}

/// The text of a string that may be absent.
pub open spec fn text_in(code: Option<String>) -> Option<Seq<char>> {
    match code {
        Some(code) => Some(code@),
        None => None,
    }
}

/// A module that is loaded is handed to the backend once, with its number, its name and its code. A
/// second main module is not handed to it.
pub proof fn loaded_modules_reach_the_backend<B: JsBackend>(
    side: &mut JsRuntime<B>,
    main: &mut JsRuntime<B>,
    specifier: &str,
    code: Option<String>,
    side_id: Result<ModuleId, Error>,
    main_id: Result<ModuleId, Error>,
)
    requires
        old(side).is_set_up(),
        old(main).is_set_up(),
        call_ensures(JsRuntime::<B>::load_side_module, (side, specifier, code), side_id),
        call_ensures(JsRuntime::<B>::load_main_module, (main, specifier, code), main_id),
    ensures
        side_id is Ok,
        asked_once(old(side).v8_isolate, final(side).v8_isolate),
        is_load(
            final(side).v8_isolate.backend.events().last(),
            side_id->Ok_0,
            specifier@,
            text_in(code),
        ),
        side_id matches Ok(id) ==> is_added(
            old(side).v8_isolate.module_map->0,
            final(side).v8_isolate.module_map->0,
            id,
            false,
            specifier@,
        ),
        main_id is Ok <==> !has_main_module(old(main).v8_isolate.module_map->0),
        main_id matches Ok(id) ==> {
            &&& asked_once(old(main).v8_isolate, final(main).v8_isolate)
            &&& is_load(
                final(main).v8_isolate.backend.events().last(),
                id,
                specifier@,
                text_in(code),
            )
            &&& is_added(
                old(main).v8_isolate.module_map->0,
                final(main).v8_isolate.module_map->0,
                id,
                true,
                specifier@,
            )
        },
        main_id is Err ==> *final(main) == *old(main),
{
    let side_before = old(side).v8_isolate.module_map->0;
    lemma_added(side_before, final(side).v8_isolate.module_map->0, false, specifier@);
    lemma_asked_once(old(side).v8_isolate, final(side).v8_isolate);
    let main_before = old(main).v8_isolate.module_map->0;
    if main_id is Ok {
        lemma_added(main_before, final(main).v8_isolate.module_map->0, true, specifier@);
        lemma_asked_once(old(main).v8_isolate, final(main).v8_isolate);
        if has_main_module(main_before) {
            let id = choose|id: ModuleId| #[trigger]
                main_before.by_id@.contains_key(id) && main_before.by_id@[id].main;
            assert(main_before.is_main(id));
        }
    } else {
        let id = choose|id: ModuleId| main_before.is_main(id);
        assert(main_before.by_id@.contains_key(id) && main_before.by_id@[id].main);
    }
}

/// A module is evaluated by the backend, once, where it was loaded. The backend is not asked about
/// any other.
pub proof fn only_loaded_modules_are_evaluated<B: JsBackend>(
    runtime: &mut JsRuntime<B>,
    id: ModuleId,
    start: ModuleStart,
)
    requires
        old(runtime).is_set_up(),
        call_ensures(JsRuntime::<B>::mod_evaluate, (runtime, id), start),
    ensures
        !old(runtime).v8_isolate.module_map->0.by_id@.contains_key(id) <==> start
            == ModuleStart::NotFound,
        start == ModuleStart::NotFound ==> *final(runtime) == *old(runtime),
        start != ModuleStart::NotFound ==> asked_once(
            old(runtime).v8_isolate,
            final(runtime).v8_isolate,
        ) && is_evaluation(
            final(runtime).v8_isolate.backend.events().last(),
            id,
            start == ModuleStart::Started,
        ),
{
    if start != ModuleStart::NotFound {
        lemma_asked_once(old(runtime).v8_isolate, final(runtime).v8_isolate);
    }
}

/// A script is handed to the backend as it is, under its name. Its value is what the backend gives,
/// and there is an error exactly where it gives none.
pub proof fn scripts_give_what_the_backend_gives<B: JsBackend>(
    runtime: &mut JsRuntime<B>,
    name: &str,
    source_code: &str,
    outcome: Result<Global<Value>, Error>,
)
    requires
        old(runtime).is_set_up(),
        call_ensures(JsRuntime::<B>::execute_script, (runtime, name, source_code), outcome),
    ensures
        ({
            let earlier = old(runtime).v8_isolate.backend.events();
            let later = final(runtime).v8_isolate.backend.events();
            &&& later.len() > earlier.len()
            &&& later.take(earlier.len() as int) == earlier
            &&& later[earlier.len() as int] matches BackendEvent::Ran {
                run: Run::ExecuteScript { name: own, source_code: source, result },
                within: _,
            }
            &&& own == name@
            &&& source == source_code@
            &&& outcome matches Ok(handle) ==> result == Some(handle.value()) && later.len()
                == earlier.len() + 1
            &&& outcome matches Err(error) ==> result is None && error is Js
        }),
        outcome matches Err(error) ==> exists|middle: Isolate<B>|
            middle.backend.events().len() == old(runtime).v8_isolate.backend.events().len() + 1
                && #[trigger] crate::event_loop::is_reported(
                middle,
                final(runtime).v8_isolate,
                0,
                Value::Undefined,
                false,
                error,
            ),
        final(runtime).extensions == old(runtime).extensions,
        final(runtime).extensions_with_js == old(runtime).extensions_with_js,
{
    let before = old(runtime).v8_isolate;
    let after = final(runtime).v8_isolate;
    lemma_script_events(before, after, 0, name@, source_code@, outcome);
    if let Err(error) = outcome {
        let middle = choose|middle: Isolate<B>| #[trigger]
            crate::backend::ran(
                before,
                middle,
                Run::ExecuteScript { name: name@, source_code: source_code@, result: None },
            ) && crate::event_loop::is_reported(
                middle,
                after,
                0,
                Value::Undefined,
                false,
                error,
            );
        assert(middle.backend.events().len() == before.backend.events().len() + 1);
    }
}

/// What executing a script asks of the backend first.
pub proof fn lemma_script_events<B: JsBackend>(
    before: Isolate<B>,
    after: Isolate<B>,
    realm_idx: usize,
    name: Seq<char>,
    source_code: Seq<char>,
    outcome: Result<Global<Value>, Error>,
)
    requires
        crate::realm::executed(before, after, realm_idx, name, source_code, outcome),
    ensures
        ({
            let earlier = before.backend.events();
            let later = after.backend.events();
            &&& later.len() > earlier.len()
            &&& later.take(earlier.len() as int) == earlier
            &&& later[earlier.len() as int] matches BackendEvent::Ran {
                run: Run::ExecuteScript { name: own, source_code: source, result },
                within: _,
            }
            &&& own == name
            &&& source == source_code
            &&& outcome matches Ok(handle) ==> result == Some(handle.value()) && later.len()
                == earlier.len() + 1
            &&& outcome matches Err(error) ==> result is None && error is Js
        }),
{
    let earlier = before.backend.events();
    let later = after.backend.events();
    match outcome {
        Ok(_) => {
            assert(later.take(earlier.len() as int) =~= earlier);
        },
        Err(error) => {
            let middle = choose|middle: Isolate<B>| #[trigger]
                crate::backend::ran(
                    before,
                    middle,
                    Run::ExecuteScript { name, source_code, result: None },
                ) && crate::event_loop::is_reported(
                    middle,
                    after,
                    realm_idx,
                    Value::Undefined,
                    false,
                    error,
                );
            let between = middle.backend.events();
            assert(between.take(earlier.len() as int) =~= earlier);
            assert(later.take(earlier.len() as int) =~= earlier);
        },
    }
}

/// A module of an extension is loaded under the normal form of its URL, with its code. Where its
/// specifier is no URL nothing is loaded, and the error says which file it is and why.
pub proof fn extension_modules_are_loaded_by_url<B: JsBackend>(
    runtime: &mut JsRuntime<B>,
    file: ExtensionFileSource,
    loaded: Result<ModuleId, Error>,
)
    requires
        old(runtime).is_set_up(),
        call_ensures(JsRuntime::<B>::load_extension_module, (runtime, &file), loaded),
    ensures
        parsed_url(file.specifier@) matches Ok((href, _, _)) ==> {
            &&& loaded is Ok
            &&& asked_once(old(runtime).v8_isolate, final(runtime).v8_isolate)
            &&& is_load(
                final(runtime).v8_isolate.backend.events().last(),
                loaded->Ok_0,
                href,
                Some(file.code@),
            )
            &&& is_added(
                old(runtime).v8_isolate.module_map->0,
                final(runtime).v8_isolate.module_map->0,
                loaded->Ok_0,
                false,
                href,
            )
        },
        parsed_url(file.specifier@) matches Err(text) ==> (loaded matches Err(Error::Context {
            context,
            source,
        }) && context@ == "Couldn't execute '"@ + file.specifier@ + "'"@ && (
        *source matches Error::Message(own) && own@ == text)) && *final(runtime) == *old(runtime),
{
    if let Ok((href, _, _)) = parsed_url(file.specifier@) {
        lemma_added(
            old(runtime).v8_isolate.module_map->0,
            final(runtime).v8_isolate.module_map->0,
            false,
            href,
        );
        lemma_asked_once(old(runtime).v8_isolate, final(runtime).v8_isolate);
    }
}

/// The note on a file names the file, and the error itself stays under it.
pub proof fn notes_name_the_file(specifier: &str, error: Error, noted: Error)
    requires
        call_ensures(couldnt_execute, (specifier, error), noted),
    ensures
        noted matches Error::Context { context, source } && context@ == "Couldn't execute '"@
            + specifier@ + "'"@ && *source == error,
{
}

/// In a turn JavaScript is told of ops that are done, of each exactly once. Where nothing was queued
/// but ops that were done already, these are all of them, in the order in which they were queued,
/// and none is left.
pub proof fn done_ops_are_told_in_a_turn<'a, B: JsBackend>(
    runtime: &mut JsRuntime<B>,
    cx: &mut std::task::Context<'a>,
    outcome: Option<Result<(), Error>>,
)
    requires
        old(runtime).is_set_up(),
        call_ensures(JsRuntime::<B>::resolve_async_ops, (runtime, cx), outcome),
        outcome is Some,
    ensures
        outcome->0 is Ok,
        exists|taken: Isolate<B>, completed: Seq<CompletedOp>, places: Seq<(int, int)>|
            #![trigger tells_each_once(taken, final(runtime).v8_isolate, completed, places)]
            {
                &&& taken.backend == old(runtime).v8_isolate.backend
                &&& taken.slots == old(runtime).v8_isolate.slots
                &&& tells_each_once(taken, final(runtime).v8_isolate, completed, places)
                &&& pending_count(old(runtime).v8_isolate.state->0.pending_ops) == pending_count(
                    taken.state->0.pending_ops,
                ) + completed.len()
                &&& only_done(old(runtime).v8_isolate.state->0.pending_ops) ==> completed
                    == done_ops(old(runtime).v8_isolate.state->0.pending_ops)
            },
{
    let before = old(runtime).v8_isolate;
    let after = final(runtime).v8_isolate;
    let (taken, completed) = choose|taken: Isolate<B>, completed: Seq<CompletedOp>| #[trigger]
        resolved(before, taken, after, completed, outcome);
    every_op_is_told_once(taken, after, completed);
    let places = choose|places: Seq<(int, int)>| #[trigger]
        tells_each_once(taken, after, completed, places);
    assert(tells_each_once(taken, after, completed, places));
}

/// A set of pending ops gives up those that are done: of those that were done when they went in, the
/// earlier ones first, each once.
pub proof fn done_ops_come_out_in_order<'a>(
    ops: &mut PendingOps,
    cx: &mut std::task::Context<'a>,
    ready: Vec<CompletedOp>,
)
    requires
        call_ensures(PendingOps::take_ready, (ops, cx), ready),
    ensures
        pending_count(*old(ops)) == pending_count(*final(ops)) + ready@.len(),
        done_ops(*final(ops)).len() <= done_ops(*old(ops)).len(),
        exists|places: Seq<int>| #[trigger]
            places.len() == done_ops(*old(ops)).len() - done_ops(*final(ops)).len() && (forall|
                i: int,
            |
                0 <= i < places.len() ==> 0 <= #[trigger] places[i] < ready@.len()
                    && ready@[places[i]] == done_ops(*old(ops))[i]) && (forall|i: int, j: int|
                0 <= i < j < places.len() ==> places[i] < places[j]),
        only_done(*old(ops)) ==> ready@ == done_ops(*old(ops)) && pending_count(*final(ops)) == 0,
{
    let places = choose|places: Seq<int>| #[trigger]
        crate::pending::are_places(done_ops(*old(ops)), done_ops(*final(ops)), ready@, places);
    assert(places.len() == done_ops(*old(ops)).len() - done_ops(*final(ops)).len());
}

/// A turn begins with the responses, goes on with the next tick callbacks, and leaves the macrotasks
/// to be drained from the first on.
pub proof fn turns_begin_with_responses<'a, B: JsBackend>(
    runtime: &mut JsRuntime<B>,
    cx: &mut std::task::Context<'a>,
    begun: Option<Result<MacrotaskDrain, Error>>,
)
    requires
        old(runtime).is_set_up(),
        call_ensures(JsRuntime::<B>::begin_turn, (runtime, cx), begun),
        begun is Some,
    ensures
        begun->0 matches Ok(drain) && drain.next == 0 && drain.callbacks@
            == final(runtime).v8_isolate.state->0.js_macrotask_cbs@,
        exists|taken: Isolate<B>, told: Isolate<B>, completed: Seq<CompletedOp>, places: Seq<
            (int, int),
        >|
            #![trigger tells_each_once(taken, told, completed, places)]
            {
                &&& taken.backend == old(runtime).v8_isolate.backend
                &&& tells_each_once(taken, told, completed, places)
                &&& !told.state->0.has_tick_scheduled ==> final(runtime).v8_isolate == told
                &&& told.state->0.has_tick_scheduled ==> {
                    let callbacks = told.state->0.js_nexttick_cbs@;
                    let earlier = told.backend.events();
                    let later = final(runtime).v8_isolate.backend.events();
                    &&& later.len() == earlier.len() + callbacks.len()
                    &&& later.take(earlier.len() as int) == earlier
                }
            },
{
    let before = old(runtime).v8_isolate;
    let after = final(runtime).v8_isolate;
    let (taken, middle, completed) = choose|
        taken: Isolate<B>,
        middle: Isolate<B>,
        completed: Seq<CompletedOp>,
    | #[trigger]
        turn_begun(before, taken, middle, after, completed, begun);
    every_op_is_told_once(taken, middle, completed);
    let places = choose|places: Seq<(int, int)>| #[trigger]
        tells_each_once(taken, middle, completed, places);
    if middle.state->0.has_tick_scheduled {
        crate::backend::calls_keep_history(
            middle,
            after,
            crate::turn::plain_calls(middle.state->0.js_nexttick_cbs@),
        );
    }
    assert(tells_each_once(taken, middle, completed, places));
}

/// A turn ends by what all middleware answers: one that may have scheduled something is enough for
/// the runtime to be polled again at once.
pub proof fn middleware_is_asked_in_each_turn<B: JsBackend, F: Fn(usize) -> bool>(
    runtime: JsRuntime<B>,
    middleware: F,
    turn: Turn,
)
    requires
        runtime.is_set_up(),
        call_ensures(JsRuntime::<B>::finish_turn::<F>, (&runtime, &middleware), turn),
    ensures
        turn == (Turn::Pending { wake: true }) || forall|i: int|
            0 <= i < runtime.event_loop_middlewares@.len() ==> #[trigger] call_ensures(
                middleware,
                (runtime.event_loop_middlewares@[i],),
                false,
            ),
        turn is Ready ==> !runtime.v8_isolate.state->0.has_tick_scheduled && pending_count(
            runtime.v8_isolate.state->0.pending_ops,
        ) <= crate::event_loop::unrefed_count(runtime.v8_isolate.slots@),
        turn == (Turn::Pending { wake: false }) ==> !runtime.v8_isolate.state->0.have_unpolled_ops
            && !runtime.v8_isolate.state->0.has_tick_scheduled && pending_count(
            runtime.v8_isolate.state->0.pending_ops,
        ) > crate::event_loop::unrefed_count(runtime.v8_isolate.slots@),
        runtime.event_loop_middlewares@.len() == 0 && turn == (Turn::Pending { wake: true })
            ==> runtime.v8_isolate.state->0.have_unpolled_ops
            || runtime.v8_isolate.state->0.has_tick_scheduled,
{
    let ids = runtime.event_loop_middlewares@;
    let answers = choose|answers: Seq<bool>| #[trigger]
        crate::turn::are_answers(middleware, ids, answers) && turn == crate::turn::turn_end(
            runtime.v8_isolate.slots@,
            runtime.v8_isolate.state->0,
            answers.contains(true),
        );
    if !answers.contains(true) {
        assert forall|i: int| 0 <= i < ids.len() implies #[trigger] call_ensures(
            middleware,
            (ids[i],),
            false,
        ) by {
            assert(!answers[i]);
        }
    }
}

/// A runtime is made where each extension could be prepared; the error is that of the first that
/// could not. The builtins come first among the extensions with JavaScript, there is one realm, and
/// nothing is pending.
pub proof fn runtimes_start_prepared<
    B: JsBackend,
    M: Fn(usize, OpDecl) -> OpDecl,
    F: Fn(usize) -> Result<(), Error>,
>(
    isolate_id: IsolateId,
    options: RuntimeOptions<B>,
    builtins: Extension,
    middleware: M,
    init_state: F,
    made: Result<(JsRuntime<B>, RealmSetup), Error>,
)
    requires
        call_ensures(
            JsRuntime::<B>::new::<M, F>,
            (isolate_id, options, builtins, &middleware, &init_state),
            made,
        ),
    ensures
        ({
            let all = options.extensions@ + options.extensions_with_js@.insert(0, builtins);
            &&& made matches Ok((runtime, setup)) ==> {
                &&& forall|i: int|
                    0 <= i < all.len() ==> ((#[trigger] all[i]).opstate_fn matches Some(id)
                        ==> call_ensures(init_state, (id,), Ok::<(), Error>(())))
                &&& runtime.extensions@.len() == options.extensions@.len()
                &&& setup.init.extensions@.len() == options.extensions_with_js@.len() + 1
                &&& setup.init.extensions@[0].name == builtins.name
                &&& setup.init.extensions@[0].js_files == builtins.js_files
                &&& setup.init.extensions@[0].esm_files == builtins.esm_files
                &&& setup.init.extensions@[0].esm_entry_point == builtins.esm_entry_point
                &&& forall|i: int|
                    #![trigger options.extensions_with_js@[i]]
                    0 <= i < options.extensions_with_js@.len() ==> {
                        let own = setup.init.extensions@[i + 1];
                        let given = options.extensions_with_js@[i];
                        own.name == given.name && own.js_files == given.js_files && own.esm_files
                            == given.esm_files && own.esm_entry_point == given.esm_entry_point
                    }
                &&& setup.init.done == 0
                &&& runtime.v8_isolate.id == isolate_id
                &&& runtime.v8_isolate.slots@.len() == 1
                &&& runtime.v8_isolate.slots@[0].js_recv_cb is None
                &&& runtime.v8_isolate.state matches Some(state)
                &&& state.known_realms@.len() == 1
                &&& pending_count(state.pending_ops) == 0
                &&& !state.has_tick_scheduled && !state.have_unpolled_ops
                &&& state.js_macrotask_cbs@.len() == 0 && state.js_nexttick_cbs@.len() == 0
                &&& state.dispatched_exceptions@.len() == 0
                &&& state.op_state.get_error_class_fn == options.get_error_class_fn
                &&& runtime.v8_isolate.module_map matches Some(modules)
                &&& modules.next_module_id == 0
                &&& runtime.v8_isolate.backend.events().len() == options.backend.events().len() + 1
                &&& runtime.v8_isolate.backend.events().last() matches BackendEvent::InjectBridge {
                    path,
                    bridge: _,
                }
                &&& path == "Deno.core.ops"@
            }
            &&& made matches Err(error) ==> exists|at: int|
                0 <= at < all.len() && ((#[trigger] all[at]).opstate_fn matches Some(id)
                    && call_ensures(init_state, (id,), Err::<(), Error>(error))) && forall|i: int|
                    0 <= i < at ==> ((#[trigger] all[i]).opstate_fn matches Some(id)
                        ==> call_ensures(init_state, (id,), Ok::<(), Error>(())))
        }),
{
    let second = options.extensions_with_js@.insert(0, builtins);
    let all = options.extensions@ + second;
    match made {
        Ok((runtime, setup)) => {
            assert(setup.init.extensions@[0].name == second[0].name);
            assert forall|i: int|
                #![trigger options.extensions_with_js@[i]]
                0 <= i < options.extensions_with_js@.len() implies {
                let own = setup.init.extensions@[i + 1];
                let given = options.extensions_with_js@[i];
                own.name == given.name && own.js_files == given.js_files && own.esm_files
                    == given.esm_files && own.esm_entry_point == given.esm_entry_point
            } by {
                assert(second[i + 1] == options.extensions_with_js@[i]);
            }
        },
        Err(error) => {
            let at = choose|at: int| #[trigger]
                crate::runtime::failed_at(init_state, all, at, error);
            assert(all[at].opstate_fn is Some);
        },
    }
}

/// Preparing extensions asks every hook, and succeeds where each did. The event loop middleware of
/// all extensions is collected behind what is there, in the order of the extensions.
pub proof fn extensions_are_prepared_in_order<B, F: Fn(usize) -> Result<(), Error>>(
    runtime: &mut JsRuntime<B>,
    init_state: F,
    result: Result<(), Error>,
)
    requires
        call_ensures(JsRuntime::<B>::init_extension_ops::<F>, (runtime, &init_state), result),
    ensures
        ({
            let all = old(runtime).extensions@ + old(runtime).extensions_with_js@;
            &&& result is Ok ==> {
                &&& forall|i: int|
                    0 <= i < all.len() ==> ((#[trigger] all[i]).opstate_fn matches Some(id)
                        ==> call_ensures(init_state, (id,), Ok::<(), Error>(())))
                &&& exists|first: Seq<usize>, second: Seq<usize>|
                    #![trigger first + second]
                    {
                        &&& final(runtime).event_loop_middlewares@
                            == old(runtime).event_loop_middlewares@ + (first + second)
                        &&& lists_hooks(
                            first,
                            Seq::new(
                                old(runtime).extensions@.len(),
                                |i: int| old(runtime).extensions@[i].event_loop_middleware,
                            ),
                        )
                        &&& lists_hooks(
                            second,
                            Seq::new(
                                old(runtime).extensions_with_js@.len(),
                                |i: int| old(runtime).extensions_with_js@[i].event_loop_middleware,
                            ),
                        )
                    }
            }
            &&& result matches Err(error) ==> exists|at: int|
                0 <= at < all.len() && ((#[trigger] all[at]).opstate_fn matches Some(id)
                    && call_ensures(init_state, (id,), Err::<(), Error>(error)))
        }),
        final(runtime).v8_isolate == old(runtime).v8_isolate,
{
    let all = old(runtime).extensions@ + old(runtime).extensions_with_js@;
    match result {
        Ok(_) => {
            let first = crate::runtime::loop_middleware_of(old(runtime).extensions@);
            let second = crate::runtime::loop_middleware_of(old(runtime).extensions_with_js@);
            middleware_comes_in_order(old(runtime).extensions@);
            middleware_comes_in_order(old(runtime).extensions_with_js@);
            assert(final(runtime).event_loop_middlewares@
                =~= old(runtime).event_loop_middlewares@ + (first + second));
        },
        Err(error) => {
            let at = choose|at: int| #[trigger]
                crate::runtime::failed_at(init_state, all, at, error);
            assert(all[at].opstate_fn is Some);
        },
    }
}

/// What is told of a runtime is what it keeps, and forgetting a tick changes nothing else.
pub proof fn runtimes_tell_what_they_keep<B: JsBackend>(
    runtime: JsRuntime<B>,
    realm: JsRealm,
    pending: EventLoopPendingState,
    also_pending: EventLoopPendingState,
    cleared: &mut JsRuntime<B>,
)
    requires
        runtime.is_set_up(),
        call_ensures(JsRuntime::<B>::global_realm, (&runtime,), realm),
        call_ensures(JsRuntime::<B>::event_loop_pending_state, (&runtime,), pending),
        call_ensures(
            JsRuntime::<B>::event_loop_pending_state_from_isolate,
            (&runtime.v8_isolate,),
            also_pending,
        ),
        old(cleared).is_set_up(),
        call_ensures(JsRuntime::<B>::clear_tick, (cleared,), ()),
    ensures
        runtime.v8_isolate.state->0.global_realm == Some(realm),
        pending == also_pending,
        pending.has_tick_scheduled == runtime.v8_isolate.state->0.has_tick_scheduled,
        pending.has_pending_refed_ops <==> pending_count(
            runtime.v8_isolate.state->0.pending_ops,
        ) > crate::event_loop::unrefed_count(runtime.v8_isolate.slots@),
        !final(cleared).v8_isolate.state->0.has_tick_scheduled,
        final(cleared).v8_isolate.slots == old(cleared).v8_isolate.slots,
        final(cleared).v8_isolate.backend == old(cleared).v8_isolate.backend,
        final(cleared).v8_isolate.state->0.pending_ops
            == old(cleared).v8_isolate.state->0.pending_ops,
        final(cleared).v8_isolate.state->0.have_unpolled_ops
            == old(cleared).v8_isolate.state->0.have_unpolled_ops,
        final(cleared).extensions == old(cleared).extensions,
{
}

/// Terminating asks that of the backend once, and nothing else changes.
pub proof fn termination_is_asked_for_once<B: JsBackend>(isolate: &mut Isolate<B>, done: bool)
    requires
        call_ensures(Isolate::<B>::terminate_execution, (isolate,), done),
    ensures
        done,
        final(isolate).backend.events() == old(isolate).backend.events().push(
            BackendEvent::Terminate,
        ),
        final(isolate).state == old(isolate).state,
        final(isolate).slots == old(isolate).slots,
{
}

/// A new runtime exposes the ops of all its extensions to the JavaScript of its one realm: each is
/// registered under its number, as all middleware has left it, and the last op with a name is found
/// under that name, with the function that is registered and a mark of its number.
pub proof fn runtimes_expose_all_ops<
    B: JsBackend,
    M: Fn(usize, OpDecl) -> OpDecl,
    F: Fn(usize) -> Result<(), Error>,
>(
    isolate_id: IsolateId,
    options: RuntimeOptions<B>,
    builtins: Extension,
    middleware: M,
    init_state: F,
    made: Result<(JsRuntime<B>, RealmSetup), Error>,
    i: int,
    k: int,
)
    requires
        call_ensures(
            JsRuntime::<B>::new::<M, F>,
            (isolate_id, options, builtins, &middleware, &init_state),
            made,
        ),
        made is Ok,
        ({
            let all = options.extensions@ + options.extensions_with_js@.insert(0, builtins);
            0 <= i < all.len() && all[i].ops is Some && 0 <= k < all[i].ops->0@.len()
        }),
    ensures
        ({
            let all = options.extensions@ + options.extensions_with_js@.insert(0, builtins);
            let declared = all[i].ops->0@[k];
            let id = ops_before(all, i) + k;
            let op_ctxs = made->Ok_0.0.v8_isolate.slots@[0].op_ctxs@;
            let op = op_ctxs[id].decl;
            let event = made->Ok_0.0.v8_isolate.backend.events().last();
            &&& op_ctxs.len() == ops_before(all, all.len() as int)
            &&& id < op_ctxs.len()
            &&& op_ctxs[id].id == id
            &&& op_ctxs[id].realm_idx == 0
            &&& op.name == declared.name
            &&& exists|ids: Seq<usize>, stages: Seq<OpDecl>|
                #![trigger passes_through(middleware, ids, declared, stages)]
                lists_hooks(ids, Seq::new(all.len(), |e: int| all[e].middleware_fn))
                    && passes_through(middleware, ids, declared, stages) && is_left(
                    declared,
                    stages.last(),
                    op,
                )
            &&& op.name@ != "asyncOpsInfo"@ && (forall|j: int|
                id < j < op_ctxs.len() ==> (#[trigger] op_ctxs[j]).decl.name@ != op.name@)
                ==> is_exposed(event, op.name@, op.v8_fn_ptr, id)
            &&& made->Ok_0.0.v8_isolate.state->0.op_state.tracker.completed_async@.len()
                == op_ctxs.len()
        }),
{
    let all = options.extensions@ + options.extensions_with_js@.insert(0, builtins);
    let runtime = made->Ok_0.0;
    let op_ctxs = runtime.v8_isolate.slots@[0].op_ctxs@;
    let id = ops_before(all, i) + k;
    runtimes_start_with_all_ops(op_ctxs, middleware, all, i, k);
    let op = op_ctxs[id].decl;
    assert(runtime.v8_isolate.slots@[0].op_ctxs.len() == op_ctxs.len());
    if op.name@ != "asyncOpsInfo"@ && (forall|j: int|
        id < j < op_ctxs.len() ==> (#[trigger] op_ctxs[j]).decl.name@ != op.name@) {
        ops_are_exposed(0, op_ctxs, id);
    }
}

/// JavaScript finds this function under this name, with a mark of this op of the first realm.
pub open spec fn is_exposed(
    event: BackendEvent,
    name: Seq<char>,
    function: FunctionCallback,
    id: int,
) -> bool {
    &&& event matches BackendEvent::InjectBridge { path, bridge }
    &&& path == "Deno.core.ops"@
    &&& bridge.contains_key(name)
    &&& bridge[name].callback == function
    &&& bridge[name].user_data matches UserData::Op { realm_idx, id: own }
    &&& realm_idx == 0
    &&& own == id
}

/// A script that is executed in a realm is handed to the backend as it is, and gives what the
/// backend gives. Where it gives nothing, the error is described by the callback of that realm.
pub proof fn realms_run_their_scripts<B: JsBackend>(
    realm: JsRealm,
    isolate: &mut Isolate<B>,
    name: &str,
    source_code: &str,
    outcome: Result<Global<Value>, Error>,
)
    requires
        old(isolate).state is Some,
        call_ensures(
            JsRealm::execute_script::<B>,
            (&realm, isolate, name, source_code),
            outcome,
        ),
    ensures
        ({
            let earlier = old(isolate).backend.events();
            let later = final(isolate).backend.events();
            &&& later.len() > earlier.len()
            &&& later.take(earlier.len() as int) == earlier
            &&& later[earlier.len() as int] matches BackendEvent::Ran {
                run: Run::ExecuteScript { name: own, source_code: source, result },
                within: _,
            }
            &&& own == name@
            &&& source == source_code@
            &&& outcome matches Ok(handle) ==> result == Some(handle.value()) && later.len()
                == earlier.len() + 1
            &&& outcome matches Err(error) ==> result is None && error is Js
        }),
        outcome matches Err(error) ==> exists|middle: Isolate<B>|
            middle.backend.events().len() == old(isolate).backend.events().len() + 1
                && #[trigger] crate::event_loop::is_reported(
                middle,
                *final(isolate),
                realm.0.value().realm_idx,
                Value::Undefined,
                false,
                error,
            ),
{
    let before = *old(isolate);
    let after = *final(isolate);
    lemma_script_events(
        before,
        after,
        realm.0.value().realm_idx,
        name@,
        source_code@,
        outcome,
    );
    if let Err(error) = outcome {
        let middle = choose|middle: Isolate<B>| #[trigger]
            crate::backend::ran(
                before,
                middle,
                Run::ExecuteScript { name: name@, source_code: source_code@, result: None },
            ) && crate::event_loop::is_reported(
                middle,
                after,
                realm.0.value().realm_idx,
                Value::Undefined,
                false,
                error,
            );
        assert(middle.backend.events().len() == before.backend.events().len() + 1);
    }
}

/// What a runtime gives access to is its own.
pub proof fn runtimes_give_access_to_their_own<B: JsBackend>(
    runtime: JsRuntime<B>,
    op_state: &OpState,
    context: Global<Context>,
    isolate: Isolate<B>,
    state: &JsRuntimeState,
    modules: &ModuleMap,
)
    requires
        runtime.is_set_up(),
        isolate.state is Some,
        isolate.module_map is Some,
        call_ensures(JsRuntime::<B>::op_state, (&runtime,), op_state),
        call_ensures(JsRuntime::<B>::global_context, (&runtime,), context),
        call_ensures(JsRuntime::<B>::state, (&isolate,), state),
        call_ensures(JsRuntime::<B>::module_map, (&isolate,), modules),
    ensures
        *op_state == runtime.v8_isolate.state->0.op_state,
        runtime.v8_isolate.state->0.global_realm == Some(JsRealm(context)),
        isolate.state == Some(*state),
        isolate.module_map == Some(*modules),
{
}

} // verus!

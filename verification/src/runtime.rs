//! A runtime: an isolate with its extensions.
use crate::backend::{
    ran, BackendEvent, JsBackend, NativeFunctionCallback, Run, TotallyLegitJSBackend,
};
use crate::bindings::{bridge_of, initialize_context, ops_by_name};
use crate::data::{Function, Object, Value};
use crate::error::{parse_url, parsed_url, Error};
use crate::event_loop::{
    acceptable, accepts, completed_in, has_refed_ops, resolve_completed, EventLoopPendingState,
};
use crate::extension::{
    collect_ops, declared_ops, dependencies_met, entry_points_exist, is_registered, is_specified,
    middleware_of, Extension, ExtensionFileSource,
};
use crate::handle::{lemma_handle_is_value, Global, HandleInternal, Weak};
use crate::isolate::{Context, Isolate, IsolateId};
use crate::modules::{second_main_message, ModuleId, ModuleInfo, ModuleMap};
use crate::ops::{CompletedOp, OpCtx, OpDecl, OpState, RealmIdx, UserData};
use crate::pending::{done_ops, only_done, pending_count, pending_new, takes};
use crate::realm::executed;
use crate::realm_setup::RealmSetup;
use crate::scope::HandleScope;
use crate::state::{ContextState, JsRealm, JsRuntimeState};
use crate::turn::{
    are_answers, drain_nexttick, end_turn, run_middlewares, ticked, turn_end, MacrotaskDrain, Turn,
};
use std::collections::VecDeque;
use vstd::prelude::*;

verus! {

pub const V8_WRAPPER_TYPE_INDEX: i32 = 0;

pub const V8_WRAPPER_OBJECT_INDEX: i32 = 1;

/// A single execution context of JavaScript. Corresponds roughly to the "Web
/// Worker" concept in the DOM.
pub struct JsRuntime<B> {
    pub v8_isolate: Isolate<B>,
    pub extensions: Vec<Extension>,
    pub extensions_with_js: Vec<Extension>,
    pub event_loop_middlewares: Vec<usize>,
}

pub struct RuntimeOptions<B> {
    /// The JavaScript engine.
    pub backend: B,
    /// Allows to map error type to a string "class" used to represent
    /// error in JavaScript.
    pub get_error_class_fn: Option<usize>,
    /// JsRuntime extensions, not to be confused with ES modules.
    /// Only ops registered by extensions will be initialized. If you need
    /// to execute JS code from extensions, use `extensions_with_js` options
    /// instead.
    pub extensions: Vec<Extension>,
    /// JsRuntime extensions, not to be confused with ES modules.
    /// Ops registered by extensions will be initialized and JS code will be
    /// executed. If you don't need to execute JS code from extensions, use
    /// `extensions` option instead.
    pub extensions_with_js: Vec<Extension>,
}

impl Default for RuntimeOptions<TotallyLegitJSBackend> {
    fn default() -> (options: Self)
        ensures
            options.backend.events() == Seq::<BackendEvent>::empty(),
            options.get_error_class_fn is None,
            options.extensions@ == Seq::<Extension>::empty(),
            options.extensions_with_js@ == Seq::<Extension>::empty(),
    {
        RuntimeOptions {
            backend: TotallyLegitJSBackend::new(),
            get_error_class_fn: None,
            extensions: Vec::new(),
            extensions_with_js: Vec::new(),
        }
    }
}

/// The event loop middleware of the extensions, in order.
pub open spec fn loop_middleware_of(extensions: Seq<Extension>) -> Seq<usize>
    decreases extensions.len(),
{
    if extensions.len() == 0 {
        Seq::empty()
    } else {
        let earlier = loop_middleware_of(extensions.drop_last());
        match extensions.last().event_loop_middleware {
            Some(id) => earlier.push(id),
            None => earlier,
        }
    }
}

/// The extensions without their event loop middleware.
pub open spec fn without_loop_middleware(extensions: Seq<Extension>) -> Seq<Extension> {
    extensions.map_values(
        |extension: Extension| Extension { event_loop_middleware: None, ..extension },
    )
}

/// What extensions share was prepared for the first `count` of them.
pub open spec fn prepared<F: Fn(usize) -> Result<(), Error>>(
    init_state: F,
    extensions: Seq<Extension>,
    count: int,
) -> bool {
    forall|i: int|
        0 <= i < count ==> ((#[trigger] extensions[i]).opstate_fn matches Some(id)
            ==> call_ensures(init_state, (id,), Ok::<(), Error>(())))
}

/// Preparing what the extension at `at` shares failed, and was the first to fail.
pub open spec fn failed_at<F: Fn(usize) -> Result<(), Error>>(
    init_state: F,
    extensions: Seq<Extension>,
    at: int,
    error: Error,
) -> bool {
    &&& 0 <= at < extensions.len()
    &&& prepared(init_state, extensions, at)
    &&& extensions[at].opstate_fn matches Some(id)
    &&& call_ensures(init_state, (id,), Err::<(), Error>(error))
}

/// Prepares what the extensions of a list share, and collects their event loop middleware.
fn init_list<F: Fn(usize) -> Result<(), Error>>(
    extensions: &mut Vec<Extension>,
    middlewares: &mut Vec<usize>,
    init_state: &F,
) -> (result: Result<(), Error>)
    requires
        forall|id: usize| call_requires(*init_state, (id,)),
    ensures
        match result {
            Ok(()) => {
                &&& prepared(*init_state, old(extensions)@, old(extensions)@.len() as int)
                &&& final(extensions)@ == without_loop_middleware(old(extensions)@)
                &&& final(middlewares)@ == old(middlewares)@ + loop_middleware_of(
                    old(extensions)@,
                )
            },
            Err(error) => exists|at: int| #[trigger]
                failed_at(*init_state, old(extensions)@, at, error) && final(middlewares)@ == old(
                    middlewares,
                )@ + loop_middleware_of(old(extensions)@.take(at)),
        },
{
    let ghost all = extensions@;
    let mut i: usize = 0;
    while i < extensions.len()
        invariant
            i <= extensions@.len(),
            extensions@.len() == all.len(),
            forall|id: usize| call_requires(*init_state, (id,)),
            prepared(*init_state, all, i as int),
            middlewares@ == old(middlewares)@ + loop_middleware_of(all.take(i as int)),
            forall|k: int|
                0 <= k < i ==> #[trigger] extensions@[k] == (Extension {
                    event_loop_middleware: None,
                    ..all[k]
                }),
            forall|k: int| i <= k < extensions@.len() ==> #[trigger] extensions@[k] == all[k],
            all == old(extensions)@,
        decreases extensions@.len() - i,
    {
        assert(extensions@[i as int] == all[i as int]);
        // ops are already registered when the context is initialized
        if let Some(id) = extensions[i].opstate_fn {
            let outcome = init_state(id);
            assert(call_ensures(*init_state, (id,), outcome));
            match outcome {
                Ok(()) => {},
                Err(error) => {
                    assert(failed_at(*init_state, all, i as int, error));
                    return Err(error);
                },
            }
            assert(outcome->Ok_0 == ());
        }
        assert(prepared(*init_state, all, i + 1));
        // Setup event-loop middleware
        let taken = extensions[i].init_event_loop_middleware();
        if let Some(middleware) = taken {
            middlewares.push(middleware);
        }
        i = i + 1;
        assert(all.take(i as int).drop_last() == all.take(i - 1));
    }
    assert(all.take(i as int) == all);
    assert(extensions@ =~= without_loop_middleware(all));
    Ok(())
}

/// Op contexts for the ops of a realm, numbered from zero on.
pub open spec fn numbered(op_ctxs: Seq<OpCtx>, realm_idx: int) -> bool {
    forall|i: int|
        0 <= i < op_ctxs.len() ==> (#[trigger] op_ctxs[i]).id == i && op_ctxs[i].realm_idx
            == realm_idx
}

fn number_ops(ops: Vec<OpDecl>) -> (op_ctxs: Vec<OpCtx>)
    ensures
        op_ctxs@.len() == ops@.len(),
        forall|i: int| 0 <= i < ops@.len() ==> (#[trigger] op_ctxs@[i]).decl == ops@[i],
        numbered(op_ctxs@, 0),
{
    let mut op_ctxs: Vec<OpCtx> = Vec::new();
    let mut id: usize = 0;
    while id < ops.len()
        invariant
            id <= ops@.len(),
            op_ctxs@.len() == id,
            forall|i: int| 0 <= i < id ==> (#[trigger] op_ctxs@[i]).decl == ops@[i],
            numbered(op_ctxs@, 0),
        decreases ops@.len() - id,
    {
        op_ctxs.push(OpCtx { id, decl: ops[id], realm_idx: 0 });
        id = id + 1;
    }
    op_ctxs
}

/// A runtime's state in which nothing has happened yet.
pub open spec fn is_fresh_state(
    state: JsRuntimeState,
    ops_count: nat,
    get_error_class_fn: Option<usize>,
) -> bool {
    &&& state.global_realm matches Some(realm)
    &&& state.known_realms@ == seq![realm.0]
    &&& state.js_macrotask_cbs@.len() == 0
    &&& state.js_nexttick_cbs@.len() == 0
    &&& !state.has_tick_scheduled
    &&& pending_count(state.pending_ops) == 0
    &&& done_ops(state.pending_ops) == Seq::<CompletedOp>::empty()
    &&& only_done(state.pending_ops)
    &&& !state.have_unpolled_ops
    &&& state.op_state.tracker.completed_async@ == Seq::new(ops_count, |i: int| 0u64)
    &&& state.op_state.get_error_class_fn == get_error_class_fn
    &&& state.dispatched_exceptions@.len() == 0
}

/// The op contexts that a runtime starts with: the declared ops of all extensions, as the
/// middleware leaves them.
pub open spec fn starts_with_ops<M: Fn(usize, OpDecl) -> OpDecl>(
    op_ctxs: Seq<OpCtx>,
    middleware: M,
    extensions: Seq<Extension>,
) -> bool {
    &&& op_ctxs.len() == declared_ops(extensions).len()
    &&& numbered(op_ctxs, 0)
    &&& forall|i: int|
        0 <= i < op_ctxs.len() ==> is_registered(
            middleware,
            middleware_of(extensions),
            declared_ops(extensions)[i],
            (#[trigger] op_ctxs[i]).decl,
        )
}

/// A runtime as it is made: the ops of its extensions are exposed to JavaScript, the extensions
/// are prepared, and the set-up of the global realm is to begin.
pub open spec fn is_started<
    B: JsBackend,
    M: Fn(usize, OpDecl) -> OpDecl,
    F: Fn(usize) -> Result<(), Error>,
>(
    runtime: JsRuntime<B>,
    setup: RealmSetup,
    isolate_id: IsolateId,
    events: Seq<BackendEvent>,
    get_error_class_fn: Option<usize>,
    extensions: Seq<Extension>,
    extensions_with_js: Seq<Extension>,
    middleware: M,
    init_state: F,
) -> bool {
    let all = extensions + extensions_with_js;
    let isolate = runtime.v8_isolate;
    let op_ctxs = isolate.slots@[0].op_ctxs@;
    &&& runtime.is_set_up()
    &&& isolate.id == isolate_id
    &&& isolate.slots@.len() == 1
    &&& starts_with_ops(op_ctxs, middleware, all)
    &&& isolate.slots@[0].is_fresh(op_ctxs)
    &&& is_fresh_state(isolate.state->0, op_ctxs.len(), get_error_class_fn)
    &&& isolate.module_map->0.by_id@ == Map::<ModuleId, ModuleInfo>::empty()
    &&& isolate.module_map->0.next_module_id == 0
    &&& isolate.data@ == Map::<u32, usize>::empty()
    &&& isolate.backend.events() == events.push(
        BackendEvent::InjectBridge { path: "Deno.core.ops"@, bridge: bridge_of(0, op_ctxs) },
    )
    &&& prepared(init_state, all, all.len() as int)
    &&& runtime.extensions@ == without_loop_middleware(
        extensions.map_values(|e: Extension| e.without_ops()),
    )
    &&& runtime.extensions_with_js@ == Seq::<Extension>::empty()
    &&& setup.is_begun(
        isolate.state->0.global_realm->0,
        without_loop_middleware(extensions_with_js.map_values(|e: Extension| e.without_ops())),
    )
    &&& runtime.event_loop_middlewares@ == loop_middleware_of(all)
}

/// Every op that a runtime was started with is one whose calls are counted, whatever JavaScript
/// has brought about since.
pub proof fn registered_ops_are_counted<
    B: JsBackend,
    M: Fn(usize, OpDecl) -> OpDecl,
    F: Fn(usize) -> Result<(), Error>,
>(
    runtime: JsRuntime<B>,
    setup: RealmSetup,
    isolate_id: IsolateId,
    events: Seq<BackendEvent>,
    get_error_class_fn: Option<usize>,
    extensions: Seq<Extension>,
    extensions_with_js: Seq<Extension>,
    middleware: M,
    init_state: F,
    later: Isolate<B>,
    i: int,
)
    requires
        is_started(
            runtime,
            setup,
            isolate_id,
            events,
            get_error_class_fn,
            extensions,
            extensions_with_js,
            middleware,
            init_state,
        ),
        later.keeps(runtime.v8_isolate),
        0 <= i < later.slots@[0].op_ctxs@.len(),
    ensures
        later.slots@[0].op_ctxs@[i].id == i,
        later.slots@[0].op_ctxs@[i].id < later.state->0.op_state.tracker.completed_async@.len(),
        later.slots@[0].op_ctxs@[i].realm_idx < later.state->0.known_realms@.len(),
{
    assert(later.slots@[0].keeps(runtime.v8_isolate.slots@[0]));
}

impl<B> JsRuntime<B> {
    /// The runtime has a global realm, which is the first of its realms, and what native code keeps
    /// for each realm.
    pub open spec fn is_set_up(self) -> bool {
        &&& self.v8_isolate.state matches Some(state)
        &&& state.global_realm matches Some(realm)
        &&& realm.is_of(self.v8_isolate)
        &&& realm.idx() == 0
        &&& state.known_realms@.len() == self.v8_isolate.slots@.len()
        &&& forall|r: int|
            0 <= r < state.known_realms@.len() ==> (
            #[trigger] state.known_realms@[r]).value().is_of(self.v8_isolate)
                && state.known_realms@[r].value().realm_idx == r
        &&& self.v8_isolate.module_map matches Some(module_map)
        &&& module_map.wf()
    }

    /// A runtime stays set up through everything that JavaScript can bring about.
    pub proof fn stays_set_up(self, before: JsRuntime<B>)
        requires
            before.is_set_up(),
            self.v8_isolate.keeps(before.v8_isolate),
        ensures
            self.is_set_up(),
    {
    }

    /// Initializes ops of provided Extensions
    pub fn init_extension_ops<F: Fn(usize) -> Result<(), Error>>(
        &mut self,
        init_state: &F,
    ) -> (result: Result<(), Error>)
        requires
            forall|id: usize| call_requires(*init_state, (id,)),
        ensures
            final(self).v8_isolate == old(self).v8_isolate,
            match result {
                Ok(()) => {
                    let all = old(self).extensions@ + old(self).extensions_with_js@;
                    &&& prepared(*init_state, all, all.len() as int)
                    &&& final(self).extensions@ == without_loop_middleware(old(self).extensions@)
                    &&& final(self).extensions_with_js@ == without_loop_middleware(
                        old(self).extensions_with_js@,
                    )
                    &&& final(self).event_loop_middlewares@ == old(self).event_loop_middlewares@
                        + loop_middleware_of(old(self).extensions@) + loop_middleware_of(
                        old(self).extensions_with_js@,
                    )
                },
                Err(error) => exists|at: int| #[trigger]
                    failed_at(
                        *init_state,
                        old(self).extensions@ + old(self).extensions_with_js@,
                        at,
                        error,
                    ),
            },
    {
        let ghost first = self.extensions@;
        let ghost second = self.extensions_with_js@;
        let ghost all = first + second;
        // Take extensions while they are worked on
        let mut extensions: Vec<Extension> = Vec::new();
        std::mem::swap(&mut extensions, &mut self.extensions);
        match init_list(&mut extensions, &mut self.event_loop_middlewares, init_state) {
            Ok(()) => {},
            Err(error) => {
                proof {
                    let at = choose|at: int| #[trigger] failed_at(*init_state, first, at, error);
                    assert(all[at] == first[at]);
                    assert forall|i: int| 0 <= i < at implies ((
                    #[trigger] all[i]).opstate_fn matches Some(id) ==> call_ensures(
                        *init_state,
                        (id,),
                        Ok::<(), Error>(()),
                    )) by {
                        assert(first[i] == all[i]);
                    }
                    assert(failed_at(*init_state, all, at, error));
                }
                return Err(error);
            },
        }
        // Restore extensions
        self.extensions = extensions;
        let mut extensions: Vec<Extension> = Vec::new();
        std::mem::swap(&mut extensions, &mut self.extensions_with_js);
        let result = init_list(&mut extensions, &mut self.event_loop_middlewares, init_state);
        proof {
            assert forall|i: int| 0 <= i < first.len() implies ((
            #[trigger] all[i]).opstate_fn matches Some(id) ==> call_ensures(
                *init_state,
                (id,),
                Ok::<(), Error>(()),
            )) by {
                assert(first[i] == all[i]);
            }
            let done: int = if result is Ok {
                second.len() as int
            } else {
                choose|at: int| #[trigger] failed_at(*init_state, second, at, result->Err_0)
            };
            assert forall|i: int| 0 <= i < first.len() + done implies ((
            #[trigger] all[i]).opstate_fn matches Some(id) ==> call_ensures(
                *init_state,
                (id,),
                Ok::<(), Error>(()),
            )) by {
                if i < first.len() {
                    assert(first[i] == all[i]);
                } else {
                    assert(second[i - first.len()] == all[i]);
                }
            }
            if result is Err {
                assert(all[first.len() + done] == second[done]);
                assert(failed_at(*init_state, all, first.len() + done, result->Err_0));
            }
        }
        match result {
            Ok(()) => {},
            Err(error) => {
                return Err(error);
            },
        }
        // Restore extensions
        self.extensions_with_js = extensions;
        Ok(())
    }
}

impl<B: JsBackend> JsRuntime<B> {
    /// Only constructor, configuration is done through `options`. The builtins come before all
    /// other extensions with JavaScript. What is left to do after this is the set-up of the global
    /// realm, which comes with the runtime.
    pub fn new<M: Fn(usize, OpDecl) -> OpDecl, F: Fn(usize) -> Result<(), Error>>(
        isolate_id: IsolateId,
        options: RuntimeOptions<B>,
        builtins: Extension,
        middleware: &M,
        init_state: &F,
    ) -> (made: Result<(Self, RealmSetup), Error>)
        requires
            dependencies_met(
                options.extensions@ + options.extensions_with_js@.insert(0, builtins),
            ),
            entry_points_exist(options.extensions_with_js@.insert(0, builtins)),
            forall|id: usize, op: OpDecl| call_requires(*middleware, (id, op)),
            forall|id: usize| call_requires(*init_state, (id,)),
        ensures
            match made {
                Ok((runtime, setup)) => is_started(
                    runtime,
                    setup,
                    isolate_id,
                    options.backend.events(),
                    options.get_error_class_fn,
                    options.extensions@,
                    options.extensions_with_js@.insert(0, builtins),
                    *middleware,
                    *init_state,
                ),
                Err(error) => exists|at: int| #[trigger]
                    failed_at(
                        *init_state,
                        options.extensions@ + options.extensions_with_js@.insert(0, builtins),
                        at,
                        error,
                    ),
            },
    {
        let mut options = options;
        let ghost first = options.extensions@;
        let ghost second = options.extensions_with_js@.insert(0, builtins);
        // Add builtins extension
        options.extensions_with_js.insert(0, builtins);
        let ops = collect_ops(
            &mut options.extensions,
            &mut options.extensions_with_js,
            middleware,
        );
        let mut op_state = OpState::new(ops.len());
        op_state.get_error_class_fn = options.get_error_class_fn;
        let op_ctxs = number_ops(ops);
        let mut isolate = Isolate::new(isolate_id, options.backend);
        let global_context = {
            let mut scope = HandleScope::new(&mut isolate);
            let context = initialize_context(&mut scope, op_ctxs.as_slice());
            Global::new(&mut *scope.isolate, context)
        };
        global_context.get_data().set_slot(&mut isolate, ContextState::new(op_ctxs));
        let mut known_realms: Vec<Weak<Context>> = Vec::new();
        known_realms.push(Weak::new(&mut isolate, global_context.clone()));
        proof {
            lemma_handle_is_value(known_realms@[0], global_context);
        }
        assert(known_realms@ =~= seq![global_context]);
        isolate.state = Some(
            JsRuntimeState {
                global_realm: Some(JsRealm(global_context)),
                known_realms,
                js_macrotask_cbs: Vec::new(),
                js_nexttick_cbs: Vec::new(),
                has_tick_scheduled: false,
                pending_ops: pending_new(),
                have_unpolled_ops: false,
                op_state,
                dispatched_exceptions: VecDeque::new(),
            },
        );
        isolate.module_map = Some(ModuleMap::default());
        let mut js_runtime = JsRuntime {
            v8_isolate: isolate,
            extensions: options.extensions,
            extensions_with_js: options.extensions_with_js,
            event_loop_middlewares: Vec::new(),
        };
        // Init resources and ops before extensions to make sure they are
        // available during the initialization process.
        let ghost bare_first = js_runtime.extensions@;
        let ghost bare_second = js_runtime.extensions_with_js@;
        let result = js_runtime.init_extension_ops(init_state);
        proof {
            let bare = bare_first + bare_second;
            assert forall|i: int| 0 <= i < bare.len() implies (#[trigger] bare[i]).opstate_fn == (
            first + second)[i].opstate_fn && bare[i].event_loop_middleware == (first
                + second)[i].event_loop_middleware by {
                if i < bare_first.len() {
                    assert(bare[i] == bare_first[i]);
                } else {
                    assert(bare[i] == bare_second[i - bare_first.len()]);
                }
            }
            lemma_same_hooks(*init_state, first + second, bare);
            lemma_loop_middleware_of_both(bare_first, bare_second);
            assert(Seq::<usize>::empty() + loop_middleware_of(bare_first) + loop_middleware_of(
                bare_second,
            ) =~= loop_middleware_of(bare));
        }
        match result {
            Ok(()) => {
                proof {
                    let all = js_runtime.extensions_with_js@;
                    assert forall|i: int| 0 <= i < all.len() implies ((
                    #[trigger] all[i]).esm_entry_point matches Some(entry_point) ==> is_specified(
                        all[i].esm_files@,
                        entry_point@,
                    )) by {
                        assert(second[i].esm_entry_point == all[i].esm_entry_point);
                    }
                }
                let realm = js_runtime.global_realm();
                let setup = RealmSetup::begin(&mut js_runtime, realm);
                Ok((js_runtime, setup))
            },
            Err(error) => Err(error),
        }
    }
}

/// The op contexts of another realm: the same ops under the same numbers.
pub open spec fn moved_to_realm(op_ctxs: Seq<OpCtx>, realm_idx: usize) -> Seq<OpCtx> {
    op_ctxs.map_values(|op_ctx: OpCtx| OpCtx { realm_idx, ..op_ctx })
}

fn move_to_realm(op_ctxs: &Vec<OpCtx>, realm_idx: usize) -> (moved: Vec<OpCtx>)
    ensures
        moved@ == moved_to_realm(op_ctxs@, realm_idx),
{
    let mut moved: Vec<OpCtx> = Vec::new();
    let mut i: usize = 0;
    while i < op_ctxs.len()
        invariant
            i <= op_ctxs@.len(),
            moved@ == moved_to_realm(op_ctxs@.take(i as int), realm_idx),
        decreases op_ctxs@.len() - i,
    {
        let op_ctx = op_ctxs[i];
        moved.push(OpCtx { id: op_ctx.id, decl: op_ctx.decl, realm_idx });
        i = i + 1;
        assert(moved@ =~= moved_to_realm(op_ctxs@.take(i as int), realm_idx));
    }
    assert(op_ctxs@.take(i as int) == op_ctxs@);
    moved
}

/// There is one realm more, the last, with the ops of the global one, which are exposed to its
/// JavaScript. The realms that there were stay as they are.
pub open spec fn adds_realm<B: JsBackend>(
    before: Isolate<B>,
    after: Isolate<B>,
    realm: JsRealm,
) -> bool {
    let realm_idx = before.state->0.known_realms@.len() as usize;
    let op_ctxs = moved_to_realm(before.slots@[0].op_ctxs@, realm_idx);
    &&& realm.is_of(after)
    &&& realm.idx() == realm_idx
    &&& realm.0.value().global.value() == (Object {  })
    &&& after.backend.events() == before.backend.events().push(
        BackendEvent::InjectBridge {
            path: "Deno.core.ops"@,
            bridge: bridge_of(realm_idx, op_ctxs),
        },
    )
    &&& after.slots@.len() == before.slots@.len() + 1
    &&& after.slots@.drop_last() == before.slots@
    &&& after.slots@.last().is_fresh(op_ctxs)
    &&& after.state->0.known_realms@ == before.state->0.known_realms@.push(realm.0)
    &&& after == (Isolate {
        backend: after.backend,
        slots: after.slots,
        state: Some(
            JsRuntimeState { known_realms: after.state->0.known_realms, ..before.state->0 },
        ),
        ..before
    })
}

/// Every realm exposes the same ops to JavaScript, each with the mark of its own realm.
pub proof fn realms_expose_same_ops(
    op_ctxs: Seq<OpCtx>,
    realm_idx: RealmIdx,
    other_idx: RealmIdx,
    name: Seq<char>,
)
    ensures
        bridge_of(other_idx, moved_to_realm(op_ctxs, other_idx)).contains_key(name) == bridge_of(
            realm_idx,
            op_ctxs,
        ).contains_key(name),
        bridge_of(realm_idx, op_ctxs).contains_key(name) ==> {
            let here = bridge_of(realm_idx, op_ctxs)[name];
            let there = bridge_of(other_idx, moved_to_realm(op_ctxs, other_idx))[name];
            same_native(realm_idx, here, other_idx, there)
        },
{
    lemma_same_ops_by_name(op_ctxs, realm_idx, other_idx, name);
}

/// The same native function, exposed to one realm and to another.
pub open spec fn same_native(
    realm_idx: RealmIdx,
    here: NativeFunctionCallback,
    other_idx: RealmIdx,
    there: NativeFunctionCallback,
) -> bool {
    &&& here.callback == there.callback
    &&& match here.user_data {
        UserData::Op { realm_idx: idx, id } => idx == realm_idx && there.user_data
            == (UserData::Op { realm_idx: other_idx, id }),
        UserData::Ops { realm_idx: idx, count } => idx == realm_idx && there.user_data
            == (UserData::Ops { realm_idx: other_idx, count }),
    }
}

proof fn lemma_same_ops_by_name(
    op_ctxs: Seq<OpCtx>,
    realm_idx: RealmIdx,
    other_idx: RealmIdx,
    name: Seq<char>,
)
    ensures
        ops_by_name(other_idx, moved_to_realm(op_ctxs, other_idx)).contains_key(name)
            == ops_by_name(realm_idx, op_ctxs).contains_key(name),
        ops_by_name(realm_idx, op_ctxs).contains_key(name) ==> same_native(
            realm_idx,
            ops_by_name(realm_idx, op_ctxs)[name],
            other_idx,
            ops_by_name(other_idx, moved_to_realm(op_ctxs, other_idx))[name],
        ),
    decreases op_ctxs.len(),
{
    if op_ctxs.len() > 0 {
        lemma_same_ops_by_name(op_ctxs.drop_last(), realm_idx, other_idx, name);
        assert(moved_to_realm(op_ctxs, other_idx).drop_last() == moved_to_realm(
            op_ctxs.drop_last(),
            other_idx,
        ));
    }
}

/// The functions of core.js that native code calls were set in a realm.
pub open spec fn sets_cbs<B>(
    before: Isolate<B>,
    after: Isolate<B>,
    realm_idx: RealmIdx,
    opresolve: Function,
    build_custom_error: Function,
) -> bool {
    let slot = after.slots@[realm_idx as int];
    &&& before.changes_slot(
        after,
        realm_idx,
        ContextState {
            js_recv_cb: slot.js_recv_cb,
            js_build_custom_error_cb: slot.js_build_custom_error_cb,
            ..before.slots@[realm_idx as int]
        },
    )
    &&& slot.js_recv_cb matches Some(js_recv_cb)
    &&& js_recv_cb.value() == opresolve
    &&& slot.js_build_custom_error_cb matches Some(js_build_custom_error_cb)
    &&& js_build_custom_error_cb.value() == build_custom_error
}

/// A function was asked for by its name.
pub open spec fn grabbed<B: JsBackend>(
    before: Isolate<B>,
    after: Isolate<B>,
    name: Seq<char>,
    function: Option<Function>,
) -> bool {
    ran(before, after, Run::GrabFunction { name, function })
}

/// The second function of core.js was asked for, and both were set where it was there.
pub open spec fn grabs_second<B: JsBackend>(
    before: Isolate<B>,
    after: Isolate<B>,
    realm_idx: RealmIdx,
    opresolve: Function,
    found: bool,
) -> bool {
    exists|ready: Isolate<B>, build_custom_error: Option<Function>| #[trigger]
        grabbed(before, ready, "Deno.core.buildCustomError"@, build_custom_error) && match build_custom_error {
            Some(build_custom_error) => found && sets_cbs(
                ready,
                after,
                realm_idx,
                opresolve,
                build_custom_error,
            ),
            None => !found && after == ready,
        }
}

/// The functions of core.js were asked for, the second only where the first was there, and both
/// were set where both were there.
pub open spec fn grabs_cbs<B: JsBackend>(
    before: Isolate<B>,
    after: Isolate<B>,
    realm_idx: RealmIdx,
    found: bool,
) -> bool {
    exists|middle: Isolate<B>, opresolve: Option<Function>| #[trigger]
        grabbed(before, middle, "Deno.core.opresolve"@, opresolve) && match opresolve {
            Some(opresolve) => grabs_second(middle, after, realm_idx, opresolve, found),
            None => !found && after == middle,
        }
}

impl<B: JsBackend> JsRuntime<B> {
    pub fn global_context(&self) -> (context: Global<Context>)
        requires
            self.is_set_up(),
        ensures
            context == (self.v8_isolate.state->0.global_realm->0).0,
    {
        self.global_realm().0
    }

    pub fn v8_isolate(&mut self) -> (isolate: &mut Isolate<B>)
        ensures
            *isolate == old(self).v8_isolate,
            *final(self) == (JsRuntime { v8_isolate: *final(isolate), ..*old(self) }),
    {
        &mut self.v8_isolate
    }

    pub fn global_realm(&self) -> (realm: JsRealm)
        requires
            self.is_set_up(),
        ensures
            realm == self.v8_isolate.state->0.global_realm->0,
    {
        let state = self.v8_isolate.state.as_ref().unwrap();
        state.global_realm.as_ref().unwrap().clone()
    }

    /// Makes the context of a new realm.
    pub(crate) fn add_realm(&mut self) -> (realm: JsRealm)
        requires
            old(self).is_set_up(),
        ensures
            final(self).is_set_up(),
            adds_realm(old(self).v8_isolate, final(self).v8_isolate, realm),
            *final(self) == (JsRuntime { v8_isolate: final(self).v8_isolate, ..*old(self) }),
    {
        let realm_idx: usize = self.v8_isolate.state.as_ref().unwrap().known_realms.len();
        let op_ctxs = move_to_realm(&self.v8_isolate.slots[0].op_ctxs, realm_idx);
        let context = {
            let mut scope = HandleScope::new(&mut self.v8_isolate);
            let context = initialize_context(&mut scope, op_ctxs.as_slice());
            Global::new(&mut *scope.isolate, context)
        };
        context.get_data().set_slot(&mut self.v8_isolate, ContextState::new(op_ctxs));
        assert(self.v8_isolate.slots@.drop_last() == old(self).v8_isolate.slots@);
        let known = Weak::new(&mut self.v8_isolate, context.clone());
        proof {
            lemma_handle_is_value(known, context);
        }
        if let Some(state) = self.v8_isolate.state.take() {
            let mut state = state;
            state.known_realms.push(known);
            self.v8_isolate.state = Some(state);
        }
        assert forall|r: int| 0 <= r <= realm_idx implies (
        #[trigger] self.v8_isolate.state->0.known_realms@[r]).value().is_of(self.v8_isolate)
            && self.v8_isolate.state->0.known_realms@[r].value().realm_idx == r by {
            if r < realm_idx {
                assert(old(self).v8_isolate.state->0.known_realms@[r].value().is_of(
                    old(self).v8_isolate,
                ));
            }
        }
        JsRealm::new(context)
    }

    pub fn handle_scope(&mut self) -> (scope: HandleScope<'_, B>)
        requires
            old(self).is_set_up(),
        ensures
            *scope.isolate == old(self).v8_isolate,
            scope.realm_idx == 0,
            *final(self) == (JsRuntime { v8_isolate: *final(scope.isolate), ..*old(self) }),
    {
        self.global_realm().handle_scope(&mut self.v8_isolate)
    }

    /// What native code keeps for the runtime that an isolate belongs to.
    pub fn state(isolate: &Isolate<B>) -> (state: &JsRuntimeState)
        requires
            isolate.state is Some,
        ensures
            isolate.state == Some(*state),
    {
        isolate.state.as_ref().unwrap()
    }

    /// The modules of the runtime that an isolate belongs to.
    pub fn module_map(isolate: &Isolate<B>) -> (module_map: &ModuleMap)
        requires
            isolate.module_map is Some,
        ensures
            isolate.module_map == Some(*module_map),
    {
        isolate.module_map.as_ref().unwrap()
    }

    /// Grabs core.js' `opresolve` & `buildCustomError`. Tells whether JavaScript has both.
    pub(crate) fn init_cbs(&mut self, realm: &JsRealm) -> (found: bool)
        requires
            old(self).is_set_up(),
            realm.is_of(old(self).v8_isolate),
        ensures
            final(self).is_set_up(),
            grabs_cbs(old(self).v8_isolate, final(self).v8_isolate, realm.idx(), found),
            *final(self) == (JsRuntime { v8_isolate: final(self).v8_isolate, ..*old(self) }),
    {
        let ghost before = *self;
        let recv_cb = B::grab_function(&mut self.v8_isolate, "Deno.core.opresolve");
        let ghost middle = *self;
        proof {
            middle.stays_set_up(before);
            assert(grabbed(
                before.v8_isolate,
                middle.v8_isolate,
                "Deno.core.opresolve"@,
                recv_cb,
            ));
        }
        let recv_cb = match recv_cb {
            Some(recv_cb) => recv_cb,
            None => {
                return false;
            },
        };
        let build_custom_error_cb = B::grab_function(
            &mut self.v8_isolate,
            "Deno.core.buildCustomError",
        );
        let ghost ready = *self;
        proof {
            ready.stays_set_up(middle);
            assert(grabbed(
                middle.v8_isolate,
                ready.v8_isolate,
                "Deno.core.buildCustomError"@,
                build_custom_error_cb,
            ));
        }
        let build_custom_error_cb = match build_custom_error_cb {
            Some(build_custom_error_cb) => build_custom_error_cb,
            None => {
                assert(grabs_second(
                    middle.v8_isolate,
                    ready.v8_isolate,
                    realm.idx(),
                    recv_cb,
                    false,
                ));
                return false;
            },
        };
        let ghost opresolve = recv_cb;
        let ghost build_custom_error = build_custom_error_cb;
        let recv_cb = Global::from_raw(&mut self.v8_isolate, recv_cb).unwrap();
        let build_custom_error_cb = Global::from_raw(
            &mut self.v8_isolate,
            build_custom_error_cb,
        ).unwrap();
        // Put global handles in the realm's ContextState
        let realm_idx: RealmIdx = realm.context().get_data().realm_idx;
        self.v8_isolate.slots[realm_idx].js_recv_cb = Some(recv_cb);
        self.v8_isolate.slots[realm_idx].js_build_custom_error_cb = Some(build_custom_error_cb);
        proof {
            assert(self.v8_isolate.slots@ =~= ready.v8_isolate.slots@.update(
                realm_idx as int,
                self.v8_isolate.slots@[realm_idx as int],
            ));
            assert(sets_cbs(
                ready.v8_isolate,
                self.v8_isolate,
                realm_idx,
                opresolve,
                build_custom_error,
            ));
            assert(grabs_second(
                middle.v8_isolate,
                self.v8_isolate,
                realm_idx,
                opresolve,
                true,
            ));
        }
        true
    }

    /// Returns the runtime's op state, which can be used to maintain ops
    /// and access resources between op calls.
    pub fn op_state(&self) -> (op_state: &OpState)
        requires
            self.is_set_up(),
        ensures
            *op_state == self.v8_isolate.state->0.op_state,
    {
        &self.v8_isolate.state.as_ref().unwrap().op_state
    }

    /// Executes traditional JavaScript code (traditional = not ES modules).
    ///
    /// The execution takes place on the current global context, so it is possible
    /// to maintain local JS state and invoke this method multiple times.
    ///
    /// The error is a [`crate::error::JsError`], and comes where the backend has no result.
    pub fn execute_script(&mut self, name: &str, source_code: &str) -> (outcome: Result<
        Global<Value>,
        Error,
    >)
        requires
            old(self).is_set_up(),
        ensures
            final(self).is_set_up(),
            executed(
                old(self).v8_isolate,
                final(self).v8_isolate,
                0,
                name@,
                source_code@,
                outcome,
            ),
            final(self).v8_isolate.keeps(old(self).v8_isolate),
            *final(self) == (JsRuntime { v8_isolate: final(self).v8_isolate, ..*old(self) }),
    {
        let ghost before = *self;
        let realm = self.global_realm();
        let outcome = realm.execute_script(&mut self.v8_isolate, name, source_code);
        proof {
            self.stays_set_up(before);
        }
        outcome
    }

    /// Load specified module.
    ///
    /// The module will be marked as "main", and because of that
    /// "import.meta.main" will return true when checked inside that module.
    pub fn load_main_module(&mut self, specifier: &str, code: Option<String>) -> (loaded: Result<
        ModuleId,
        Error,
    >)
        requires
            old(self).is_set_up(),
            old(self).v8_isolate.module_map->0.next_module_id < ModuleId::MAX,
        ensures
            final(self).is_set_up(),
            ({
                let modules = old(self).v8_isolate.module_map->0;
                match loaded {
                    Ok(id) => {
                        &&& !modules.has_main()
                        &&& id == modules.next_module_id
                        &&& modules.adds(final(self).v8_isolate.module_map->0, true, specifier@)
                        &&& final(self).v8_isolate.module_map->0.is_main(id)
                        &&& ran(
                            Isolate {
                                module_map: final(self).v8_isolate.module_map,
                                ..old(self).v8_isolate
                            },
                            final(self).v8_isolate,
                            Run::LoadModule {
                                id,
                                name: specifier@,
                                code: match code {
                                    Some(code) => Some(code@),
                                    None => None,
                                },
                            },
                        )
                    },
                    Err(error) => {
                        &&& modules.has_main()
                        &&& error.is_custom(
                            "Error"@,
                            second_main_message(specifier@, modules.main_name()),
                        )
                        &&& *final(self) == *old(self)
                    },
                }
            }),
            *final(self) == (JsRuntime { v8_isolate: final(self).v8_isolate, ..*old(self) }),
    {
        let mut module_map = self.v8_isolate.module_map.take().unwrap();
        let loaded = module_map.load_main(specifier);
        self.v8_isolate.module_map = Some(module_map);
        match loaded {
            Ok(id) => {
                let ghost ready = *self;
                B::load_module(&mut self.v8_isolate, id, specifier, code);
                proof {
                    self.stays_set_up(ready);
                }
                Ok(id)
            },
            Err(error) => Err(error),
        }
    }

    /// Load specified ES module.
    ///
    /// This method is meant to be used when loading some utility code that
    /// might be later imported by the main module (ie. an entry point module).
    pub fn load_side_module(&mut self, specifier: &str, code: Option<String>) -> (loaded: Result<
        ModuleId,
        Error,
    >)
        requires
            old(self).is_set_up(),
            old(self).v8_isolate.module_map->0.next_module_id < ModuleId::MAX,
        ensures
            final(self).is_set_up(),
            loaded == Ok::<_, Error>(old(self).v8_isolate.module_map->0.next_module_id),
            old(self).v8_isolate.module_map->0.adds(
                final(self).v8_isolate.module_map->0,
                false,
                specifier@,
            ),
            ran(
                (Isolate {
                    module_map: final(self).v8_isolate.module_map,
                    ..old(self).v8_isolate
                }),
                final(self).v8_isolate,
                Run::LoadModule {
                    id: old(self).v8_isolate.module_map->0.next_module_id,
                    name: specifier@,
                    code: match code {
                        Some(code) => Some(code@),
                        None => None,
                    },
                },
            ),
            *final(self) == (JsRuntime { v8_isolate: final(self).v8_isolate, ..*old(self) }),
    {
        let mut module_map = self.v8_isolate.module_map.take().unwrap();
        let loaded = module_map.load_side(specifier);
        self.v8_isolate.module_map = Some(module_map);
        match loaded {
            Ok(id) => {
                let ghost ready = *self;
                B::load_module(&mut self.v8_isolate, id, specifier, code);
                proof {
                    self.stays_set_up(ready);
                }
                Ok(id)
            },
            Err(error) => Err(error),
        }
    }

    /// Evaluates an already instantiated ES module, and tells whether the backend began with it.
    /// How it ends is told to the embedder later. The backend is not asked about a module that was
    /// not instantiated.
    pub fn mod_evaluate(&mut self, id: ModuleId) -> (start: ModuleStart)
        requires
            old(self).is_set_up(),
        ensures
            final(self).is_set_up(),
            evaluated(*old(self), *final(self), id, start),
            *final(self) == (JsRuntime { v8_isolate: final(self).v8_isolate, ..*old(self) }),
    {
        if !self.v8_isolate.module_map.as_ref().unwrap().contains(id) {
            return ModuleStart::NotFound;
        }
        let ghost before = *self;
        let started = B::execute_module(&mut self.v8_isolate, id);
        proof {
            self.stays_set_up(before);
        }
        if started {
            ModuleStart::Started
        } else {
            ModuleStart::NotStarted
        }
    }

    pub fn event_loop_pending_state(&self) -> (pending: EventLoopPendingState)
        requires
            self.is_set_up(),
        ensures
            pending.has_pending_refed_ops == has_refed_ops(
                self.v8_isolate.slots@,
                self.v8_isolate.state->0,
            ),
            pending.has_tick_scheduled == self.v8_isolate.state->0.has_tick_scheduled,
    {
        JsRuntime::event_loop_pending_state_from_isolate(&self.v8_isolate)
    }

    pub fn event_loop_pending_state_from_isolate(isolate: &Isolate<B>) -> (pending:
        EventLoopPendingState)
        requires
            isolate.state is Some,
        ensures
            pending.has_pending_refed_ops == has_refed_ops(isolate.slots@, isolate.state->0),
            pending.has_tick_scheduled == isolate.state->0.has_tick_scheduled,
    {
        EventLoopPendingState::new(&isolate.slots, isolate.state.as_ref().unwrap())
    }
}

/// Whether the evaluation of a module began.
#[derive(Clone, Copy, Debug, PartialEq, Eq, Structural)]
pub enum ModuleStart {
    Started,
    /// The backend did not begin with it.
    NotStarted,
    /// No module has that number.
    NotFound,
}

/// The backend was told to evaluate a module, where there is one with that number.
pub open spec fn evaluated<B: JsBackend>(
    before: JsRuntime<B>,
    after: JsRuntime<B>,
    id: ModuleId,
    start: ModuleStart,
) -> bool {
    if before.v8_isolate.module_map->0.by_id@.contains_key(id) {
        &&& start != ModuleStart::NotFound
        &&& ran(
            before.v8_isolate,
            after.v8_isolate,
            Run::ExecuteModule { id, started: start == ModuleStart::Started },
        )
    } else {
        start == ModuleStart::NotFound && after == before
    }
}

/// These ops were taken out of the pending ones, and nothing else happened.
pub open spec fn took<B>(
    before: Isolate<B>,
    after: Isolate<B>,
    completed: Seq<CompletedOp>,
) -> bool {
    &&& after.state is Some
    &&& takes(before.state->0.pending_ops, after.state->0.pending_ops, completed)
    &&& after == (Isolate {
        state: Some(
            JsRuntimeState { pending_ops: after.state->0.pending_ops, ..before.state->0 },
        ),
        ..before
    })
}

/// Ops that were done were taken out of the pending ones, which left `taken`. They were completed
/// where the runtime knows them all and JavaScript can be told.
pub open spec fn resolved<B: JsBackend>(
    before: Isolate<B>,
    taken: Isolate<B>,
    after: Isolate<B>,
    completed: Seq<CompletedOp>,
    outcome: Option<Result<(), Error>>,
) -> bool {
    &&& took(before, taken, completed)
    &&& match outcome {
        Some(result) => {
            &&& acceptable(taken, completed)
            &&& result is Ok
            &&& completed_in(taken, after, completed)
        },
        None => !acceptable(taken, completed) && after == taken,
    }
}

/// Responses were sent, which left `middle`, next tick callbacks were called after that, and the
/// macrotask callbacks are those that there are then.
pub open spec fn turn_begun<B: JsBackend>(
    before: Isolate<B>,
    taken: Isolate<B>,
    middle: Isolate<B>,
    after: Isolate<B>,
    completed: Seq<CompletedOp>,
    begun: Option<Result<MacrotaskDrain, Error>>,
) -> bool {
    match begun {
        Some(begun) => {
            &&& resolved(before, taken, middle, completed, Some(Ok(())))
            &&& ticked(middle, after)
            &&& begun matches Ok(drain)
            &&& drain.wf()
            &&& drain.next == 0
            &&& drain.callbacks@ == after.state->0.js_macrotask_cbs@
        },
        None => resolved(before, taken, after, completed, None),
    }
}

/// A module of an extension was handed to the backend.
pub open spec fn loaded_as<B: JsBackend>(
    before: JsRuntime<B>,
    after: JsRuntime<B>,
    href: Seq<char>,
    code: Seq<char>,
) -> bool {
    let modules = before.v8_isolate.module_map->0;
    &&& modules.adds(after.v8_isolate.module_map->0, false, href)
    &&& ran(
        Isolate { module_map: after.v8_isolate.module_map, ..before.v8_isolate },
        after.v8_isolate,
        Run::LoadModule { id: modules.next_module_id, name: href, code: Some(code) },
    )
}

/// A note on the file that could not be executed.
pub open spec fn execution_note(specifier: Seq<char>) -> Seq<char> {
    "Couldn't execute '"@ + specifier + "'"@
}

/// The error of a file of an extension, with a note on the file.
pub fn couldnt_execute(specifier: &str, error: Error) -> (noted: Error)
    ensures
        noted matches Error::Context { context, source } && context@ == execution_note(specifier@)
            && *source == error,
{
    let mut context = "Couldn't execute '".to_owned();
    context.append(specifier);
    context.append("'");
    error.context(context)
}

impl<B: JsBackend> JsRuntime<B> {
    /// Loads a module of an extension.
    pub fn load_extension_module(&mut self, file_source: &ExtensionFileSource) -> (loaded: Result<
        ModuleId,
        Error,
    >)
        requires
            old(self).is_set_up(),
            old(self).v8_isolate.module_map->0.next_module_id < ModuleId::MAX,
        ensures
            final(self).is_set_up(),
            match parsed_url(file_source.specifier@) {
                Ok((href, _, _)) => {
                    &&& loaded == Ok::<_, Error>(
                        old(self).v8_isolate.module_map->0.next_module_id,
                    )
                    &&& loaded_as(*old(self), *final(self), href, file_source.code@)
                },
                Err(text) => {
                    &&& loaded matches Err(Error::Context { context, source })
                    &&& context@ == execution_note(file_source.specifier@)
                    &&& source.is_message(text)
                    &&& *final(self) == *old(self)
                },
            },
            *final(self) == (JsRuntime { v8_isolate: final(self).v8_isolate, ..*old(self) }),
    {
        match parse_url(file_source.specifier.as_str()) {
            Ok(url) => self.load_side_module(
                url.href.as_str(),
                Some(file_source.code.to_owned()),
            ),
            Err(text) => Err(
                couldnt_execute(file_source.specifier.as_str(), Error::Message(text)),
            ),
        }
    }

    /// Forgets a scheduled tick. While extensions are set up no tick may keep the event loop
    /// going.
    pub fn clear_tick(&mut self)
        requires
            old(self).is_set_up(),
        ensures
            final(self).is_set_up(),
            final(self).v8_isolate.state == Some(
                JsRuntimeState { has_tick_scheduled: false, ..old(self).v8_isolate.state->0 },
            ),
            *final(self) == (JsRuntime {
                v8_isolate: Isolate {
                    state: final(self).v8_isolate.state,
                    ..old(self).v8_isolate
                },
                ..*old(self)
            }),
    {
        if let Some(state) = self.v8_isolate.state.take() {
            let mut state = state;
            state.has_tick_scheduled = false;
            self.v8_isolate.state = Some(state);
        }
    }

    /// Sends finished responses to JavaScript. Nothing comes back where an op that finished is
    /// not one of the runtime's, or JavaScript cannot be told of it.
    pub fn resolve_async_ops(&mut self, cx: &mut std::task::Context<'_>) -> (outcome: Option<
        Result<(), Error>,
    >)
        requires
            old(self).is_set_up(),
        ensures
            final(self).is_set_up(),
            exists|taken: Isolate<B>, completed: Seq<CompletedOp>| #[trigger]
                resolved(
                    old(self).v8_isolate,
                    taken,
                    final(self).v8_isolate,
                    completed,
                    outcome,
                ),
            final(self).v8_isolate.keeps(old(self).v8_isolate),
            *final(self) == (JsRuntime { v8_isolate: final(self).v8_isolate, ..*old(self) }),
    {
        let ghost before = *self;
        let mut state = self.v8_isolate.state.take().unwrap();
        let completed = state.pending_ops.take_ready(cx);
        self.v8_isolate.state = Some(state);
        let ghost taken = *self;
        let ghost all = completed@;
        assert(took(before.v8_isolate, taken.v8_isolate, all));
        proof {
            taken.stays_set_up(before);
        }
        if !accepts(&self.v8_isolate, &completed) {
            assert(resolved(
                before.v8_isolate,
                taken.v8_isolate,
                self.v8_isolate,
                all,
                None,
            ));
            return None;
        }
        let result = resolve_completed(&mut self.v8_isolate, completed);
        proof {
            self.v8_isolate.lemma_keeps_through(taken.v8_isolate, before.v8_isolate);
            self.stays_set_up(before);
            assert(resolved(
                before.v8_isolate,
                taken.v8_isolate,
                self.v8_isolate,
                all,
                Some(result),
            ));
        }
        Some(result)
    }

    /// Begins a turn of the event loop: sends finished responses, and runs all next tick
    /// callbacks. Macrotasks are run after that, by steps of what comes back.
    pub fn begin_turn(&mut self, cx: &mut std::task::Context<'_>) -> (begun: Option<
        Result<MacrotaskDrain, Error>,
    >)
        requires
            old(self).is_set_up(),
        ensures
            final(self).is_set_up(),
            exists|taken: Isolate<B>, middle: Isolate<B>, completed: Seq<CompletedOp>| #[trigger]
                turn_begun(
                    old(self).v8_isolate,
                    taken,
                    middle,
                    final(self).v8_isolate,
                    completed,
                    begun,
                ),
            final(self).v8_isolate.keeps(old(self).v8_isolate),
            *final(self) == (JsRuntime { v8_isolate: final(self).v8_isolate, ..*old(self) }),
    {
        let ghost before = *self;
        let resolved_ops = self.resolve_async_ops(cx);
        let ghost middle = *self;
        let ghost (taken, completed) = choose|taken: Isolate<B>, completed: Seq<CompletedOp>|
            #[trigger]
            resolved(before.v8_isolate, taken, middle.v8_isolate, completed, resolved_ops);
        match resolved_ops {
            None => {
                assert(turn_begun(
                    before.v8_isolate,
                    taken,
                    middle.v8_isolate,
                    middle.v8_isolate,
                    completed,
                    None,
                ));
                return None;
            },
            Some(Err(error)) => {
                return Some(Err(error));
            },
            Some(Ok(unit)) => {
                assert(unit == ());
                assert(resolved(
                    before.v8_isolate,
                    taken,
                    middle.v8_isolate,
                    completed,
                    Some(Ok(())),
                ));
            },
        }
        match drain_nexttick(&mut self.v8_isolate) {
            Ok(()) => {},
            Err(error) => {
                return Some(Err(error));
            },
        }
        proof {
            self.v8_isolate.lemma_keeps_through(middle.v8_isolate, before.v8_isolate);
            self.stays_set_up(before);
        }
        let begun = Some(Ok(MacrotaskDrain::new(&self.v8_isolate)));
        assert(turn_begun(
            before.v8_isolate,
            taken,
            middle.v8_isolate,
            self.v8_isolate,
            completed,
            begun,
        ));
        begun
    }

    /// Ends a turn of the event loop: runs the middleware, and looks at what is left to wait for.
    pub fn finish_turn<F: Fn(usize) -> bool>(&self, middleware: &F) -> (turn: Turn)
        requires
            self.is_set_up(),
            forall|id: usize| call_requires(*middleware, (id,)),
        ensures
            exists|answers: Seq<bool>| #[trigger]
                are_answers(*middleware, self.event_loop_middlewares@, answers) && turn
                    == turn_end(
                    self.v8_isolate.slots@,
                    self.v8_isolate.state->0,
                    answers.contains(true),
                ),
    {
        let maybe_scheduling = run_middlewares(&self.event_loop_middlewares, middleware);
        end_turn(&self.v8_isolate, maybe_scheduling)
    }
}

proof fn lemma_loop_middleware_of_both(first: Seq<Extension>, second: Seq<Extension>)
    ensures
        loop_middleware_of(first + second) == loop_middleware_of(first) + loop_middleware_of(
            second,
        ),
    decreases second.len(),
{
    if second.len() > 0 {
        lemma_loop_middleware_of_both(first, second.drop_last());
        assert((first + second).drop_last() == first + second.drop_last());
        assert(loop_middleware_of(first + second) =~= loop_middleware_of(first)
            + loop_middleware_of(second));
    } else {
        assert(first + second == first);
        assert(loop_middleware_of(first) + loop_middleware_of(second) == loop_middleware_of(
            first,
        ));
    }
}

proof fn lemma_same_hooks<F: Fn(usize) -> Result<(), Error>>(
    init_state: F,
    before: Seq<Extension>,
    after: Seq<Extension>,
)
    requires
        before.len() == after.len(),
        forall|i: int|
            0 <= i < after.len() ==> (#[trigger] after[i]).opstate_fn == before[i].opstate_fn
                && after[i].event_loop_middleware == before[i].event_loop_middleware,
    ensures
        forall|count: int|
            0 <= count <= before.len() ==> prepared(init_state, before, count) == #[trigger]
            prepared(init_state, after, count),
        forall|at: int, error: Error| #[trigger]
            failed_at(init_state, after, at, error) ==> failed_at(init_state, before, at, error),
        loop_middleware_of(after) == loop_middleware_of(before),
{
    assert forall|count: int| 0 <= count <= before.len() implies prepared(
        init_state,
        before,
        count,
    ) == #[trigger] prepared(init_state, after, count) by {
        if prepared(init_state, after, count) {
            assert forall|i: int| 0 <= i < count implies ((
            #[trigger] before[i]).opstate_fn matches Some(id) ==> call_ensures(
                init_state,
                (id,),
                Ok::<(), Error>(()),
            )) by {
                assert(after[i].opstate_fn == before[i].opstate_fn);
            }
        }
    }
    assert forall|at: int, error: Error| #[trigger]
        failed_at(init_state, after, at, error) implies failed_at(
        init_state,
        before,
        at,
        error,
    ) by {
        assert(after[at].opstate_fn == before[at].opstate_fn);
        assert(prepared(init_state, after, at));
    }
    lemma_same_loop_middleware(before, after);
}

proof fn lemma_same_loop_middleware(before: Seq<Extension>, after: Seq<Extension>)
    requires
        before.len() == after.len(),
        forall|i: int|
            0 <= i < after.len() ==> (#[trigger] after[i]).event_loop_middleware
                == before[i].event_loop_middleware,
    ensures
        loop_middleware_of(after) == loop_middleware_of(before),
    decreases before.len(),
{
    if before.len() > 0 {
        lemma_same_loop_middleware(before.drop_last(), after.drop_last());
        assert(after.last() == after[after.len() - 1]);
    }
}

} // verus!

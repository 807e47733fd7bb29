use deno_minus_v8::backend::{History, JsBackend, MemoryUsage, NativeFunctionCallback};
use deno_minus_v8::bindings::{throw_type_error, AsyncOpsInfo};
use deno_minus_v8::data::{Exception, Function, String as JsString, Value};
use deno_minus_v8::double::Double;
use deno_minus_v8::error::{custom_error, range_error, Error};
use deno_minus_v8::event_loop::{exception_to_err_result, resolve_completed, select_exception};
use deno_minus_v8::extension::{
    check_dependencies, check_entry_points, extension_js, Extension, ExtensionFileSource, JsStep,
};
use deno_minus_v8::extension_js::InitAction;
use deno_minus_v8::function::{FunctionCallbackArguments, FunctionCallbackInfo, MapFnTo, ReturnValue};
use deno_minus_v8::handle::{HandleInternal, Local};
use deno_minus_v8::isolate::{Isolate, IsolateId, IsolateIds};
use deno_minus_v8::modules::{ModuleId, ModuleMap};
use deno_minus_v8::names::NameMap;
use deno_minus_v8::ops::{
    CompletedOp, FunctionCallback, OpCtx, OpDecl, OpError, OpResult, UserData,
};
use deno_minus_v8::ops_builtin_v8::{
    init_builtins_v8, op_arraybuffer_was_detached, op_decode, op_dispatch_exception, op_encode,
    op_event_loop_has_more_work, op_get_proxy_details, op_has_tick_scheduled, op_memory_usage,
    op_op_names, op_queue_microtask, op_ref_op, op_run_microtasks, op_set_format_exception_callback,
    op_set_has_tick_scheduled, op_set_macrotask_callback, op_set_next_tick_callback,
    op_set_promise_reject_callback, op_unref_op,
};
use deno_minus_v8::realm_setup::RealmSetup;
use deno_minus_v8::runtime::{couldnt_execute, JsRuntime, ModuleStart, RuntimeOptions};
use deno_minus_v8::scope::HandleScope;
use deno_minus_v8::serde::{Deserialized, Serialized, Value as SerdeValue};
use deno_minus_v8::state::JsRealm;
use deno_minus_v8::turn::{
    queue_async_op, queue_fast_async_op, EagerPollResult, MacrotaskStep, Turn,
};
use std::collections::VecDeque;
use std::future::{pending, ready, Pending, Ready};
use std::task::Context;

struct Scripted {
    log: Vec<String>,
    bridges: Vec<Vec<(String, NativeFunctionCallback)>>,
    answers: VecDeque<Option<Deserialized>>,
    scripts: VecDeque<Option<Value>>,
    functions: Vec<(String, i32)>,
    /// What native code is called from JavaScript that is invoked.
    on_invoke: Option<fn(&mut Isolate<Scripted>)>,
}

fn scripted() -> Scripted {
    Scripted {
        log: vec![],
        bridges: vec![],
        answers: VecDeque::new(),
        scripts: VecDeque::new(),
        functions: vec![
            ("Deno.core.opresolve".to_string(), 100),
            ("Deno.core.buildCustomError".to_string(), 200),
        ],
        on_invoke: None,
    }
}

fn show(arg: &Serialized) -> String {
    match arg {
        Serialized::I32(v) => format!("{}", v),
        Serialized::Boolean(v) => format!("{}", v),
        Serialized::String(v) => format!("{:?}", v),
        Serialized::Null => "null".to_string(),
        Serialized::Error(e) => format!("{}({})", e.class_name, e.message),
        Serialized::Exception { class, message } => format!("{}: {}", class, message),
        Serialized::Integer(d) => format!("{}", f64::from_bits(d.bits)),
        _ => "?".to_string(),
    }
}

impl JsBackend for Scripted {
    fn events(&self) -> History {
        unreachable!()
    }

    fn leaves(_before: Isolate<Self>, _after: Isolate<Self>) -> bool {
        unreachable!()
    }

    fn inject_bridge(&mut self, path: &str, bridge: NameMap<NativeFunctionCallback>) {
        self.log.push(format!("bridge {}", path));
        self.bridges.push(
            bridge.entries().iter().map(|(name, callback)| (name.clone(), *callback)).collect(),
        );
    }

    fn execute_script(isolate: &mut Isolate<Self>, name: &str, source_code: &str) -> Option<Value> {
        isolate.backend.log.push(format!("script {}: {}", name, source_code));
        isolate.backend.scripts.pop_front().unwrap_or(None)
    }

    fn load_module(isolate: &mut Isolate<Self>, id: ModuleId, name: &str, code: Option<String>) {
        isolate.backend.log.push(format!("load {} {} {:?}", id, name, code));
    }

    fn execute_module(isolate: &mut Isolate<Self>, id: ModuleId) -> bool {
        isolate.backend.log.push(format!("execute {}", id));
        true
    }

    fn grab_function(isolate: &mut Isolate<Self>, name: &str) -> Option<Function> {
        isolate.backend.log.push(format!("grab {}", name));
        isolate.backend.functions.iter().find(|(n, _)| n == name).map(|(_, id)| Function(*id))
    }

    fn invoke_function(
        isolate: &mut Isolate<Self>,
        function: &Function,
        args: Vec<Serialized>,
    ) -> Option<Deserialized> {
        let shown: Vec<String> = args.iter().map(show).collect();
        isolate.backend.log.push(format!("call {}({})", function.0, shown.join(", ")));
        if let Some(native) = isolate.backend.on_invoke {
            native(isolate);
        }
        isolate.backend.answers.pop_front().unwrap_or(None)
    }

    fn set_exception(&mut self, class: &str, message: &str) {
        self.log.push(format!("throw {}: {}", class, message));
    }

    fn get_memory_usage(&mut self) -> MemoryUsage {
        self.log.push("memory".to_string());
        MemoryUsage { physical_total: 4, heap_total: 3, heap_used: 2, external: 1 }
    }

    fn terminate(&mut self) {
        self.log.push("terminate".to_string());
    }
}

fn decl(name: &'static str, native: usize, is_async: bool) -> OpDecl {
    OpDecl {
        name,
        v8_fn_ptr: FunctionCallback::Native(native),
        enabled: true,
        is_async,
        is_unstable: false,
        is_v8: false,
        argc: 2,
    }
}

fn same(_: usize, op: OpDecl) -> OpDecl {
    op
}

fn fine(_: usize) -> Result<(), Error> {
    Ok(())
}

fn no_builtins() -> Extension {
    Extension::builder("core")
}

fn options(extensions: Vec<Extension>, extensions_with_js: Vec<Extension>) -> RuntimeOptions<Scripted> {
    RuntimeOptions {
        backend: scripted(),
        get_error_class_fn: Some(11),
        extensions,
        extensions_with_js,
    }
}

fn isolate_id() -> IsolateId {
    IsolateIds::new().next().unwrap()
}

fn started(
    options: RuntimeOptions<Scripted>,
    builtins: Extension,
) -> (JsRuntime<Scripted>, RealmSetup) {
    match JsRuntime::new(isolate_id(), options, builtins, &same, &fine) {
        Ok(made) => made,
        Err(error) => panic!("{}", error.to_string()),
    }
}

/// Ends a set-up in which there is no JavaScript to run.
fn finish(runtime: &mut JsRuntime<Scripted>, mut setup: RealmSetup) -> JsRealm {
    match setup.advance(runtime) {
        InitAction::Finished(Ok(realm)) => realm,
        _ => panic!("not finished"),
    }
}

fn create_realm(runtime: &mut JsRuntime<Scripted>) -> JsRealm {
    let setup = runtime.begin_realm();
    finish(runtime, setup)
}

fn runtime_with(ops: Vec<OpDecl>) -> JsRuntime<Scripted> {
    let ext = Extension::builder("test_ext").ops(ops);
    let (mut runtime, setup) = started(options(vec![ext], vec![]), no_builtins());
    finish(&mut runtime, setup);
    runtime.v8_isolate.backend.log.clear();
    runtime
}

fn with_cx<T>(f: impl FnOnce(&mut Context<'_>) -> T) -> T {
    let waker = futures::task::noop_waker();
    let mut cx = Context::from_waker(&waker);
    f(&mut cx)
}

fn completed(realm_idx: usize, promise_id: i32, op_id: usize, result: OpResult) -> CompletedOp {
    CompletedOp { realm_idx, promise_id, op_id, result }
}

fn value(text: &str) -> OpResult {
    OpResult::Value(Serialized::String(text.to_string()))
}

fn no_middleware(_: usize) -> bool {
    false
}

fn begin(runtime: &mut JsRuntime<Scripted>) {
    let begun = with_cx(|cx| runtime.begin_turn(cx));
    assert!(matches!(begun, Some(Ok(_))));
}

fn state(runtime: &JsRuntime<Scripted>) -> &deno_minus_v8::state::JsRuntimeState {
    runtime.v8_isolate.state.as_ref().unwrap()
}

fn ctx(runtime: &JsRuntime<Scripted>) -> OpCtx {
    runtime.v8_isolate.slots[0].op_ctxs[0]
}

#[test]
fn runtime_starts_with_its_ops() {
    let first = Extension::builder("first").ops(vec![decl("op_a", 1, false), decl("op_b", 2, true)]);
    let second = Extension::builder("second").ops(vec![decl("op_c", 3, false)]);
    let builtins = Extension::builder("core").ops(vec![decl("op_z", 9, false)]);
    let (runtime, _) = started(options(vec![first], vec![second]), builtins);
    let context = &runtime.v8_isolate.slots[0];
    let names: Vec<&str> = context.op_ctxs.iter().map(|op| op.decl.name).collect();
    assert_eq!(names, vec!["op_a", "op_b", "op_z", "op_c"]);
    let ids: Vec<(usize, usize)> = context.op_ctxs.iter().map(|op| (op.id, op.realm_idx)).collect();
    assert_eq!(ids, vec![(0, 0), (1, 0), (2, 0), (3, 0)]);
    let state = state(&runtime);
    assert_eq!(state.known_realms.len(), 1);
    assert_eq!(state.op_state.tracker.completed_async, vec![0, 0, 0, 0]);
    assert_eq!(state.op_state.get_error_class_fn, Some(11));
    assert_eq!(runtime.v8_isolate.backend.log, vec!["bridge Deno.core.ops"]);
    let bridge = &runtime.v8_isolate.backend.bridges[0];
    assert_eq!(
        bridge[1],
        (
            "op_b".to_string(),
            NativeFunctionCallback {
                callback: FunctionCallback::Native(2),
                user_data: UserData::Op { realm_idx: 0, id: 1 }
            }
        )
    );
    assert_eq!(bridge[4].0, "asyncOpsInfo");
    assert_eq!(bridge[4].1.callback, FunctionCallback::AsyncOpsInfo);
    assert_eq!(bridge[4].1.user_data, UserData::Ops { realm_idx: 0, count: 4 });
    assert_eq!(runtime.op_state().get_error_class_fn, Some(11));
}

#[test]
fn later_ops_take_names() {
    let runtime = runtime_with(vec![decl("op_a", 1, false), decl("op_a", 2, false)]);
    let bridge = &runtime.v8_isolate.backend.bridges[0];
    assert_eq!(bridge.len(), 2);
    assert_eq!(bridge[0].1.callback, FunctionCallback::Native(2));
    assert_eq!(bridge[0].1.user_data, UserData::Op { realm_idx: 0, id: 1 });
}

#[test]
fn disabled_ops_are_void() {
    let mut sync = decl("op_foo", 1, false);
    sync.enabled = false;
    let mut later = decl("op_bar", 2, true);
    later.enabled = false;
    let runtime = runtime_with(vec![sync, later, decl("op_on", 3, false)]);
    let ops = &runtime.v8_isolate.slots[0].op_ctxs;
    assert_eq!(ops[0].decl.v8_fn_ptr, FunctionCallback::VoidSync);
    assert_eq!(ops[1].decl.v8_fn_ptr, FunctionCallback::VoidAsync);
    assert_eq!(ops[2].decl.v8_fn_ptr, FunctionCallback::Native(3));
}

#[test]
fn middleware_disables_unstable_ops() {
    let mut unstable = decl("op_foo", 1, false);
    unstable.is_unstable = true;
    let mut ext = Extension::builder("test_ext").ops(vec![unstable, decl("op_bar", 2, false)]);
    ext.middleware_fn = Some(5);
    let mut other = Extension::builder("other");
    other.middleware_fn = Some(6);
    let middleware = |id: usize, op: OpDecl| -> OpDecl {
        let mut op = op;
        if id == 5 && op.is_unstable {
            op.enabled = false;
        }
        if id == 6 {
            op.argc = 7;
            op.name = "renamed";
        }
        op
    };
    let options = options(vec![ext, other], vec![]);
    let (runtime, _) = JsRuntime::new(isolate_id(), options, no_builtins(), &middleware, &fine)
        .ok()
        .unwrap();
    let ops = &runtime.v8_isolate.slots[0].op_ctxs;
    assert_eq!(ops[0].decl.name, "op_foo");
    assert_eq!(ops[0].decl.v8_fn_ptr, FunctionCallback::VoidSync);
    assert_eq!(ops[1].decl.name, "op_bar");
    assert_eq!(ops[1].decl.v8_fn_ptr, FunctionCallback::Native(2));
    assert_eq!(ops[1].decl.argc, 7);
    assert!(runtime.extensions[0].ops.is_none());
    assert!(runtime.extensions[0].middleware_fn.is_none());
}

#[test]
fn dependencies_come_first() {
    let base = || Extension::builder("base");
    let user = || Extension::builder("user").dependencies(vec!["base"]);
    assert!(check_dependencies(&vec![base(), user()], &vec![]));
    assert!(check_dependencies(&vec![base()], &vec![user()]));
    assert!(!check_dependencies(&vec![user(), base()], &vec![]));
    assert!(!check_dependencies(&vec![user()], &vec![base()]));
    assert!(!check_dependencies(&vec![], &vec![user()]));
    let own = Extension::builder("own").dependencies(vec!["own"]);
    assert!(!check_dependencies(&vec![own], &vec![]));
}

#[test]
fn failing_state_hook_is_reported() {
    let mut first = Extension::builder("first");
    first.opstate_fn = Some(1);
    first.event_loop_middleware = Some(70);
    let mut second = Extension::builder("second");
    second.opstate_fn = Some(2);
    second.event_loop_middleware = Some(80);
    let result = JsRuntime::new(
        isolate_id(),
        options(vec![first], vec![second]),
        no_builtins(),
        &same,
        &|id: usize| -> Result<(), Error> {
            if id == 2 {
                Err(custom_error("Hook", "failed"))
            } else {
                Ok(())
            }
        },
    );
    assert!(matches!(result, Err(error) if error.to_string() == "failed"));
}

#[test]
fn loop_middleware_is_collected_in_order() {
    let mut first = Extension::builder("first");
    first.event_loop_middleware = Some(70);
    let mut second = Extension::builder("second");
    second.event_loop_middleware = Some(80);
    let (runtime, _) = started(options(vec![first], vec![second]), no_builtins());
    assert_eq!(runtime.event_loop_middlewares, vec![70, 80]);
    let asked = std::cell::RefCell::new(vec![]);
    let turn = runtime.finish_turn(&|id: usize| -> bool {
        asked.borrow_mut().push(id);
        id == 70
    });
    assert_eq!(*asked.borrow(), vec![70, 80]);
    assert!(matches!(turn, Turn::Pending { wake: true }));
}

#[test]
fn callbacks_are_grabbed() {
    let (mut runtime, setup) = started(options(vec![], vec![]), no_builtins());
    let realm = finish(&mut runtime, setup);
    assert_eq!(realm.context().get_data().realm_idx, 0);
    assert_eq!(
        runtime.v8_isolate.backend.log[1..],
        ["grab Deno.core.opresolve", "grab Deno.core.buildCustomError"]
    );
    assert!(runtime.v8_isolate.slots[0].js_recv_cb.is_some());
    let (mut runtime, mut setup) = started(options(vec![], vec![]), no_builtins());
    runtime.v8_isolate.backend.functions.clear();
    assert!(matches!(setup.advance(&mut runtime), InitAction::NoCallbacks));
    assert!(runtime.v8_isolate.slots[0].js_recv_cb.is_none());
    assert_eq!(runtime.v8_isolate.backend.log[1..], ["grab Deno.core.opresolve"]);
}

#[test]
fn new_realms_share_ops() {
    let mut runtime = runtime_with(vec![decl("op_a", 1, false)]);
    let realm: JsRealm = create_realm(&mut runtime);
    assert_eq!(state(&runtime).known_realms.len(), 2);
    let context = realm.state(&runtime.v8_isolate);
    assert_eq!(context.op_ctxs[0].realm_idx, 1);
    assert_eq!(context.op_ctxs[0].id, 0);
    assert!(context.js_recv_cb.is_some());
    assert_eq!(
        runtime.v8_isolate.backend.log,
        vec!["bridge Deno.core.ops", "grab Deno.core.opresolve", "grab Deno.core.buildCustomError"]
    );
    let bridge = &runtime.v8_isolate.backend.bridges[1];
    assert_eq!(bridge[0].0, "op_a");
    assert_eq!(bridge[0].1.callback, runtime.v8_isolate.backend.bridges[0][0].1.callback);
    assert_eq!(bridge[0].1.user_data, UserData::Op { realm_idx: 1, id: 0 });
    assert_eq!(bridge[1].1.user_data, UserData::Ops { realm_idx: 1, count: 1 });
    assert_eq!(bridge[1].1.user_data.realm_idx(), 1);
    realm.global_object(&mut runtime.v8_isolate);
}

#[test]
fn new_realms_leave_others_alone() {
    let mut runtime = runtime_with(vec![decl("op_a", 1, false)]);
    {
        let mut scope = runtime.handle_scope();
        op_unref_op(&mut scope, 7);
    }
    let realm = create_realm(&mut runtime);
    let global = runtime.global_realm();
    assert!(global.state(&runtime.v8_isolate).unrefed_ops.contains(&7));
    assert!(global.state(&runtime.v8_isolate).js_recv_cb.is_some());
    assert_eq!(global.state(&runtime.v8_isolate).op_ctxs[0].realm_idx, 0);
    assert!(realm.state(&runtime.v8_isolate).unrefed_ops.is_empty());
    {
        let mut scope = realm.handle_scope(&mut runtime.v8_isolate);
        assert_eq!(scope.realm_idx, 1);
        op_unref_op(&mut scope, 8);
        assert!(JsRealm::state_from_scope(&scope).unrefed_ops.contains(&8));
    }
    assert!(!global.state(&runtime.v8_isolate).unrefed_ops.contains(&8));
}

#[test]
fn realms_belong_to_isolates() {
    let mut ids = IsolateIds::new();
    let mut make = || {
        let id = ids.next().unwrap();
        let (mut runtime, setup) =
            JsRuntime::new(id, options(vec![], vec![]), no_builtins(), &same, &fine).ok().unwrap();
        finish(&mut runtime, setup);
        runtime
    };
    let mut runtime = make();
    let mut other = make();
    let global = runtime.global_realm();
    let realm = create_realm(&mut runtime);
    assert!(global.belongs_to(&runtime.v8_isolate));
    assert!(realm.belongs_to(&runtime.v8_isolate));
    assert!(!global.belongs_to(&other.v8_isolate));
    assert!(other.global_realm().belongs_to(&other.v8_isolate));
    assert!(!JsRealm::new(realm.context().clone()).belongs_to(&other.v8_isolate));
    create_realm(&mut other);
    assert!(!realm.belongs_to(&other.v8_isolate));
}

#[test]
fn scripts_give_values() {
    let mut runtime = runtime_with(vec![]);
    runtime.v8_isolate.backend.scripts.push_back(Some(Value::Boolean { inner: true }));
    let handle = match runtime.execute_script("a.js", "true") {
        Ok(handle) => handle,
        Err(error) => panic!("{}", error.to_string()),
    };
    let local: Local<Value> = Local::new(&mut runtime.v8_isolate, handle);
    assert!(local.is_true());
    match runtime.execute_script("b.js", "throw 1") {
        Err(Error::Js(error)) => assert_eq!(error.exception_message, ""),
        _ => panic!("no error"),
    }
    assert_eq!(runtime.v8_isolate.backend.log, vec!["script a.js: true", "script b.js: throw 1"]);
}

#[test]
fn failing_scripts_are_described() {
    let mut runtime = runtime_with(vec![]);
    {
        let mut scope = runtime.handle_scope();
        assert!(op_set_format_exception_callback(&mut scope, function_value(9)).is_ok());
        let thrown = Value::Exception { class: "Error".to_string(), message: "deep".to_string() };
        op_dispatch_exception(&mut scope, SerdeValue::FromBackend(thrown));
    }
    runtime.v8_isolate.backend.log.clear();
    runtime.v8_isolate.backend.answers.push_back(Some(Deserialized::Str("so".to_string())));
    runtime.v8_isolate.backend.answers.push_back(Some(Deserialized::Absent));
    runtime.v8_isolate.backend.answers.push_back(Some(Deserialized::I8(3)));
    for message in ["so", "", "", ""] {
        match runtime.execute_script("a.js", "throw 1") {
            Err(Error::Js(error)) => assert_eq!(error.exception_message, message),
            _ => panic!("no error"),
        }
    }
    assert_eq!(
        runtime.v8_isolate.backend.log[..2],
        ["script a.js: throw 1", "call 9(Error: deep)"]
    );
    assert_eq!(runtime.v8_isolate.backend.log.len(), 8);
    let realm = create_realm(&mut runtime);
    runtime.v8_isolate.backend.log.clear();
    assert!(realm.execute_script(&mut runtime.v8_isolate, "b.js", "throw 2").is_err());
    assert_eq!(runtime.v8_isolate.backend.log, vec!["script b.js: throw 2"]);
}

#[test]
fn modules_are_numbered() {
    let mut runtime = runtime_with(vec![]);
    let side = runtime.load_side_module("file:///a.js", Some("code".to_string())).ok().unwrap();
    let main = runtime.load_main_module("file:///m.js", None).ok().unwrap();
    assert_eq!((side, main), (0, 1));
    match runtime.load_main_module("file:///n.js", None) {
        Ok(_) => panic!("two main modules"),
        Err(error) => assert_eq!(
            error.to_string(),
            "Trying to create \"main\" module (\"file:///n.js\"), when one already exists (\"file:///m.js\")"
        ),
    }
    assert_eq!(runtime.load_side_module("file:///b.js", None).ok().unwrap(), 2);
    assert_eq!(runtime.mod_evaluate(1), ModuleStart::Started);
    assert_eq!(runtime.mod_evaluate(3), ModuleStart::NotFound);
    assert_eq!(runtime.mod_evaluate(-1), ModuleStart::NotFound);
    assert_eq!(
        runtime.v8_isolate.backend.log,
        vec![
            "load 0 file:///a.js Some(\"code\")",
            "load 1 file:///m.js None",
            "load 2 file:///b.js None",
            "execute 1"
        ]
    );
    let modules = JsRuntime::module_map(&runtime.v8_isolate);
    assert!(modules.contains(2));
    assert!(!modules.contains(3));
}

#[test]
fn deferred_ops_wait_for_a_turn() {
    let mut runtime = runtime_with(vec![decl("op_a", 1, true)]);
    let op_ctx = ctx(&runtime);
    {
        let mut scope = runtime.handle_scope();
        queue_async_op::<Scripted, Ready<CompletedOp>>(
            &op_ctx,
            &mut scope,
            true,
            EagerPollResult::Ready(completed(0, 5, 0, value("x"))),
        );
    }
    assert!(state(&runtime).have_unpolled_ops);
    assert!(runtime.v8_isolate.backend.log.is_empty());
    assert!(runtime.event_loop_pending_state().is_pending());
    begin(&mut runtime);
    assert_eq!(runtime.v8_isolate.backend.log, vec!["call 100(5, \"x\")"]);
    assert_eq!(state(&runtime).op_state.tracker.completed_async, vec![1]);
    assert!(!state(&runtime).have_unpolled_ops);
    assert!(matches!(runtime.finish_turn(&no_middleware), Turn::Ready(Ok(()))));
}

#[test]
fn deferred_ops_come_in_order() {
    let mut runtime = runtime_with(vec![decl("op_a", 1, true)]);
    let op_ctx = ctx(&runtime);
    for (promise_id, text) in [(7, "a"), (5, "b"), (6, "a")] {
        let mut scope = runtime.handle_scope();
        queue_async_op::<Scripted, Ready<CompletedOp>>(
            &op_ctx,
            &mut scope,
            true,
            EagerPollResult::Ready(completed(0, promise_id, 0, value(text))),
        );
    }
    begin(&mut runtime);
    assert_eq!(
        runtime.v8_isolate.backend.log,
        vec!["call 100(7, \"a\", 5, \"b\", 6, \"a\")"]
    );
    assert_eq!(state(&runtime).op_state.tracker.completed_async, vec![3]);
    assert!(!runtime.event_loop_pending_state().is_pending());
}

#[test]
fn eager_ops_respond_at_once() {
    let mut runtime = runtime_with(vec![decl("op_a", 1, true)]);
    let op_ctx = ctx(&runtime);
    {
        let mut scope = runtime.handle_scope();
        queue_async_op::<Scripted, Ready<CompletedOp>>(
            &op_ctx,
            &mut scope,
            false,
            EagerPollResult::Ready(completed(0, 6, 0, value("y"))),
        );
    }
    assert_eq!(runtime.v8_isolate.backend.log, vec!["call 100(6, \"y\")"]);
    assert_eq!(state(&runtime).op_state.tracker.completed_async, vec![1]);
    assert!(!state(&runtime).have_unpolled_ops);
    assert!(!runtime.event_loop_pending_state().is_pending());
}

#[test]
fn pending_ops_keep_the_loop_going() {
    let mut runtime = runtime_with(vec![decl("op_a", 1, true)]);
    let op_ctx = ctx(&runtime);
    {
        let mut scope = runtime.handle_scope();
        queue_async_op::<Scripted, Pending<CompletedOp>>(
            &op_ctx,
            &mut scope,
            false,
            EagerPollResult::Pending(pending()),
        );
    }
    assert!(state(&runtime).have_unpolled_ops);
    begin(&mut runtime);
    assert!(runtime.v8_isolate.backend.log.is_empty());
    assert!(matches!(runtime.finish_turn(&no_middleware), Turn::Pending { wake: false }));
}

#[test]
fn unrefed_ops_let_the_loop_end() {
    let mut runtime = runtime_with(vec![decl("op_a", 1, true)]);
    let op_ctx = ctx(&runtime);
    queue_fast_async_op(&op_ctx, &mut runtime.v8_isolate, pending::<CompletedOp>());
    queue_fast_async_op(&op_ctx, &mut runtime.v8_isolate, pending::<CompletedOp>());
    begin(&mut runtime);
    {
        let mut scope = runtime.handle_scope();
        assert!(op_event_loop_has_more_work(&scope));
        op_unref_op(&mut scope, 1);
        assert!(op_event_loop_has_more_work(&scope));
        op_unref_op(&mut scope, 2);
        assert!(!op_event_loop_has_more_work(&scope));
    }
    assert!(matches!(runtime.finish_turn(&no_middleware), Turn::Ready(Ok(()))));
    {
        let mut scope = runtime.handle_scope();
        op_ref_op(&mut scope, 1);
        op_ref_op(&mut scope, 2);
    }
    assert!(runtime.v8_isolate.slots[0].unrefed_ops.is_empty());
    assert!(matches!(runtime.finish_turn(&no_middleware), Turn::Pending { wake: false }));
}

#[test]
fn unrefed_ops_of_all_realms_count() {
    let mut runtime = runtime_with(vec![decl("op_a", 1, true)]);
    let realm = create_realm(&mut runtime);
    let op_ctx = ctx(&runtime);
    queue_fast_async_op(&op_ctx, &mut runtime.v8_isolate, pending::<CompletedOp>());
    queue_fast_async_op(&op_ctx, &mut runtime.v8_isolate, pending::<CompletedOp>());
    {
        let mut scope = runtime.handle_scope();
        op_unref_op(&mut scope, 1);
    }
    assert!(runtime.event_loop_pending_state().has_pending_refed_ops);
    {
        let mut scope = realm.handle_scope(&mut runtime.v8_isolate);
        op_unref_op(&mut scope, 1);
    }
    assert!(!runtime.event_loop_pending_state().has_pending_refed_ops);
}

#[test]
fn finished_promises_are_forgotten() {
    let mut runtime = runtime_with(vec![decl("op_a", 1, true)]);
    let op_ctx = ctx(&runtime);
    {
        let mut scope = runtime.handle_scope();
        op_unref_op(&mut scope, 3);
        op_unref_op(&mut scope, 4);
    }
    queue_fast_async_op(
        &op_ctx,
        &mut runtime.v8_isolate,
        ready(completed(0, 3, 0, value("z"))),
    );
    begin(&mut runtime);
    let unrefed = &runtime.v8_isolate.slots[0].unrefed_ops;
    assert!(!unrefed.contains(&3));
    assert!(unrefed.contains(&4));
}

#[test]
fn responses_come_in_one_batch() {
    let mut runtime = runtime_with(vec![decl("op_a", 1, true), decl("op_b", 2, true)]);
    let done = vec![
        completed(0, 1, 0, value("a")),
        completed(7, 2, 1, OpResult::Error(OpError::new("RangeError", &range_error("far")))),
        completed(0, 3, 1, OpResult::Unserializable(Error::Message("odd".to_string()))),
    ];
    assert!(resolve_completed(&mut runtime.v8_isolate, done).is_ok());
    assert_eq!(
        runtime.v8_isolate.backend.log,
        vec!["call 100(1, \"a\", 2, RangeError(far), 3, TypeError(odd))"]
    );
    assert_eq!(state(&runtime).op_state.tracker.completed_async, vec![1, 2]);
}

#[test]
fn realms_get_their_own_batches() {
    let mut runtime = runtime_with(vec![decl("op_a", 1, true)]);
    create_realm(&mut runtime);
    runtime.v8_isolate.backend.functions[0].1 = 300;
    create_realm(&mut runtime);
    runtime.v8_isolate.backend.log.clear();
    let done = vec![
        completed(2, 1, 0, value("a")),
        completed(0, 2, 0, value("b")),
        completed(2, 3, 0, value("c")),
    ];
    assert!(resolve_completed(&mut runtime.v8_isolate, done).is_ok());
    assert_eq!(
        runtime.v8_isolate.backend.log,
        vec!["call 100(2, \"b\")", "call 300(1, \"a\", 3, \"c\")"]
    );
    assert_eq!(state(&runtime).op_state.tracker.completed_async, vec![3]);
}

#[test]
fn strange_ops_are_not_resolved() {
    let mut runtime = runtime_with(vec![decl("op_a", 1, true)]);
    let op_ctx = ctx(&runtime);
    queue_fast_async_op(
        &op_ctx,
        &mut runtime.v8_isolate,
        ready(completed(0, 3, 1, value("z"))),
    );
    assert!(with_cx(|cx| runtime.resolve_async_ops(cx)).is_none());
    assert!(runtime.v8_isolate.backend.log.is_empty());
    let _setup = runtime.begin_realm();
    queue_fast_async_op(
        &op_ctx,
        &mut runtime.v8_isolate,
        ready(completed(1, 3, 0, value("z"))),
    );
    assert!(with_cx(|cx| runtime.resolve_async_ops(cx)).is_none());
}

#[test]
fn idle_turns_send_nothing() {
    let mut runtime = runtime_with(vec![decl("op_a", 1, true)]);
    begin(&mut runtime);
    assert!(runtime.v8_isolate.backend.log.is_empty());
    assert!(matches!(runtime.finish_turn(&no_middleware), Turn::Ready(Ok(()))));
}

fn function_value(id: i32) -> SerdeValue {
    SerdeValue::FromBackend(Value::Function { id })
}

#[test]
fn ticks_run_only_when_scheduled() {
    let mut runtime = runtime_with(vec![]);
    {
        let mut scope = runtime.handle_scope();
        op_set_next_tick_callback(&mut scope, function_value(1)).ok().unwrap();
        op_set_next_tick_callback(&mut scope, function_value(2)).ok().unwrap();
        assert!(!op_has_tick_scheduled(&scope));
    }
    begin(&mut runtime);
    assert!(runtime.v8_isolate.backend.log.is_empty());
    {
        let mut scope = runtime.handle_scope();
        op_set_has_tick_scheduled(&mut scope, true);
        assert!(op_has_tick_scheduled(&scope));
    }
    begin(&mut runtime);
    assert_eq!(runtime.v8_isolate.backend.log, vec!["call 1()", "call 2()"]);
    assert!(matches!(runtime.finish_turn(&no_middleware), Turn::Pending { wake: true }));
    runtime.clear_tick();
    assert!(matches!(runtime.finish_turn(&no_middleware), Turn::Ready(Ok(()))));
}

#[test]
fn native_code_runs_inside_calls() {
    let mut runtime = runtime_with(vec![]);
    {
        let mut scope = runtime.handle_scope();
        op_set_next_tick_callback(&mut scope, function_value(1)).ok().unwrap();
        op_set_has_tick_scheduled(&mut scope, true);
    }
    runtime.v8_isolate.backend.on_invoke = Some(|isolate| {
        let mut scope = HandleScope::new(isolate);
        op_set_has_tick_scheduled(&mut scope, false);
    });
    begin(&mut runtime);
    assert!(!state(&runtime).has_tick_scheduled);
    assert!(matches!(runtime.finish_turn(&no_middleware), Turn::Ready(Ok(()))));
}

#[test]
fn macrotasks_run_until_they_are_done() {
    let mut runtime = runtime_with(vec![]);
    {
        let mut scope = runtime.handle_scope();
        op_set_macrotask_callback(&mut scope, function_value(1)).ok().unwrap();
        op_set_macrotask_callback(&mut scope, function_value(2)).ok().unwrap();
    }
    let answers = vec![
        Deserialized::Bool(false),
        Deserialized::I32(1),
        Deserialized::Bool(true),
        Deserialized::Bool(true),
    ];
    runtime.v8_isolate.backend.answers = answers.into_iter().map(Some).collect();
    let mut drain = match with_cx(|cx| runtime.begin_turn(cx)) {
        Some(Ok(drain)) => drain,
        _ => panic!("turn did not begin"),
    };
    for _ in 0..4 {
        assert!(matches!(drain.step(&mut runtime.v8_isolate), Ok(MacrotaskStep::More)));
    }
    assert!(matches!(drain.step(&mut runtime.v8_isolate), Ok(MacrotaskStep::Done)));
    assert_eq!(
        runtime.v8_isolate.backend.log,
        vec!["call 1()", "call 1()", "call 1()", "call 2()"]
    );
}

#[test]
fn unanswered_macrotasks_are_told() {
    let mut runtime = runtime_with(vec![]);
    {
        let mut scope = runtime.handle_scope();
        op_set_macrotask_callback(&mut scope, function_value(1)).ok().unwrap();
    }
    let mut drain = match with_cx(|cx| runtime.begin_turn(cx)) {
        Some(Ok(drain)) => drain,
        _ => panic!("turn did not begin"),
    };
    assert!(matches!(drain.step(&mut runtime.v8_isolate), Ok(MacrotaskStep::Unanswered)));
    runtime.v8_isolate.backend.answers.push_back(Some(Deserialized::Unit));
    assert!(matches!(drain.step(&mut runtime.v8_isolate), Ok(MacrotaskStep::Unanswered)));
}

#[test]
fn only_functions_are_callbacks() {
    let mut runtime = runtime_with(vec![]);
    let mut scope = runtime.handle_scope();
    let refused = op_set_macrotask_callback(&mut scope, SerdeValue::FromBackend(Value::Null));
    assert!(matches!(refused, Err(error) if error.to_string() == "cannot convert Value type"));
    let refused = op_set_next_tick_callback(&mut scope, SerdeValue::ToBackend(Serialized::Null));
    assert!(matches!(refused, Err(error)
        if error.to_string() == "converting a Value::ToBackend to v8 is unsupported"));
    let number = SerdeValue::FromBackend(Value::Integer { inner: Double::from_i32(31) });
    assert!(op_set_next_tick_callback(&mut scope, number).is_ok());
}

#[test]
fn callbacks_replace_earlier_ones() {
    let mut runtime = runtime_with(vec![]);
    let mut scope = runtime.handle_scope();
    let previous = op_set_promise_reject_callback(&mut scope, function_value(1)).ok().unwrap();
    assert!(previous.is_none());
    let previous = op_set_promise_reject_callback(&mut scope, function_value(2)).ok().unwrap();
    assert!(matches!(previous, Some(SerdeValue::ToBackend(Serialized::Function(1)))));
    let previous = op_set_format_exception_callback(&mut scope, function_value(3)).ok().unwrap();
    assert!(previous.is_none());
    let previous = op_set_format_exception_callback(&mut scope, function_value(4)).ok().unwrap();
    assert!(matches!(previous, Some(SerdeValue::ToBackend(Serialized::Function(3)))));
}

#[test]
fn text_is_encoded_and_decoded() {
    let mut runtime = runtime_with(vec![]);
    let mut scope = runtime.handle_scope();
    let text = SerdeValue::FromBackend(Value::String { inner: "\u{1d400}x".to_string() });
    let bytes = op_encode(&mut scope, text).ok().unwrap();
    assert_eq!(bytes, "\u{1d400}x".as_bytes());
    match op_decode(&mut scope, &bytes) {
        Ok(SerdeValue::ToBackend(Serialized::String(text))) => assert_eq!(text, "\u{1d400}x"),
        _ => panic!("not decoded"),
    }
    match op_decode(&mut scope, &[0xef, 0xbb, 0xbf, 0x61]) {
        Ok(SerdeValue::ToBackend(Serialized::String(text))) => assert_eq!(text, "a"),
        _ => panic!("not decoded"),
    }
    match op_decode(&mut scope, &[0xef, 0xbb, 0xbf, 0xef, 0xbb, 0xbf, 0x61]) {
        Ok(SerdeValue::ToBackend(Serialized::String(text))) => assert_eq!(text, "\u{feff}a"),
        _ => panic!("not decoded"),
    }
    match op_decode(&mut scope, &[0xff, 0x61, 0xe2, 0x82]) {
        Ok(SerdeValue::ToBackend(Serialized::String(text))) => {
            assert_eq!(text, "\u{fffd}a\u{fffd}")
        }
        _ => panic!("not decoded"),
    }
    match op_decode(&mut scope, &vec![0; 536_870_889]) {
        Err(error) => assert_eq!(error.to_string(), "string too long"),
        Ok(_) => panic!("decoded"),
    }
    match op_encode(&mut scope, SerdeValue::FromBackend(Value::Null)) {
        Err(error) => assert_eq!(error.to_string(), "Invalid argument"),
        Ok(_) => panic!("encoded"),
    }
}

#[test]
fn dispatched_exceptions_end_execution() {
    let mut runtime = runtime_with(vec![]);
    let thrown = |message: &str| Value::Exception {
        class: "Error".to_string(),
        message: message.to_string(),
    };
    let mut scope = runtime.handle_scope();
    op_dispatch_exception(&mut scope, SerdeValue::FromBackend(thrown("first")));
    op_dispatch_exception(&mut scope, SerdeValue::FromBackend(thrown("second")));
    let other = Local::from_raw(thrown("other")).unwrap();
    match &*select_exception(&mut scope, other, false) {
        Value::Exception { message, .. } => assert_eq!(message, "first"),
        _ => panic!("not an exception"),
    }
    assert_eq!(scope.isolate.backend.log, vec!["terminate", "terminate"]);
}

#[test]
fn terminated_executions_are_reported() {
    let mut runtime = runtime_with(vec![]);
    let mut scope = runtime.handle_scope();
    let nothing = Local::from_raw(Value::Undefined).unwrap();
    match &*select_exception(&mut scope, nothing, true) {
        Value::Exception { class, message } => {
            assert_eq!((class.as_str(), message.as_str()), ("Error", "execution terminated"))
        }
        _ => panic!("not an exception"),
    }
    let nothing = Local::from_raw(Value::Undefined).unwrap();
    assert!(select_exception(&mut scope, nothing, false).is_undefined());
}

#[test]
fn exceptions_become_errors() {
    let mut runtime = runtime_with(vec![]);
    let mut scope = runtime.handle_scope();
    let message = JsString::new(&mut scope, "boom").unwrap();
    let exception = Exception::error(&mut scope, message);
    let result: Result<(), Error> = exception_to_err_result(&mut scope, exception.clone(), true);
    assert!(matches!(result, Err(Error::Js(error))
        if error.exception_message == "Uncaught (in promise) "));
    let result: Result<(), Error> = exception_to_err_result(&mut scope, exception, false);
    assert!(matches!(result, Err(Error::Js(error)) if error.exception_message == ""));
}

#[test]
fn exceptions_are_described_by_the_callback() {
    let mut runtime = runtime_with(vec![]);
    runtime
        .v8_isolate
        .backend
        .answers
        .push_back(Some(Deserialized::Str("Uncaught Uncaught boom!".to_string())));
    let mut scope = runtime.handle_scope();
    assert!(op_set_format_exception_callback(&mut scope, function_value(12)).is_ok());
    let message = JsString::new(&mut scope, "boom").unwrap();
    let exception = Exception::type_error(&mut scope, message);
    let result: Result<(), Error> = exception_to_err_result(&mut scope, exception, true);
    assert!(matches!(result, Err(Error::Js(error))
        if error.exception_message == "Uncaught (in promise) boom!"));
    assert_eq!(scope.isolate.backend.log, vec!["call 12(TypeError: boom)"]);
}

#[test]
fn builtins_are_declared() {
    let decls = init_builtins_v8();
    assert_eq!(decls.len(), 31);
    assert_eq!(decls[0].name, "op_ref_op");
    assert_eq!(decls[15].name, "op_set_promise_hooks");
    assert_eq!(decls[15].argc, 4);
    assert_eq!(decls[30].name, "op_arraybuffer_was_detached");
    assert!(decls.iter().all(|op| op.enabled && op.is_v8 && !op.is_async));
    let ext = Extension::builder("core").ops(decls);
    let (mut runtime, _) = started(options(vec![], vec![]), ext);
    let scope = runtime.handle_scope();
    assert_eq!(op_op_names(&scope)[22], "op_dispatch_exception");
}

#[test]
fn some_ops_cannot_be_done() {
    let mut runtime = runtime_with(vec![]);
    let mut scope = runtime.handle_scope();
    let text = "The operation is not supported";
    assert!(matches!(op_run_microtasks(&mut scope), Err(e) if e.to_string() == text));
    assert!(matches!(op_queue_microtask(&mut scope, function_value(1)), Err(e) if e.to_string() == text));
    assert!(op_get_proxy_details(&mut scope, SerdeValue::FromBackend(Value::Object)).is_none());
    assert!(matches!(
        op_arraybuffer_was_detached(&mut scope, SerdeValue::FromBackend(Value::Object)),
        Ok(false)
    ));
    assert_eq!(op_memory_usage(&mut scope).heap_total, 3);
    assert_eq!(scope.isolate.backend.log, vec!["memory"]);
}

#[test]
fn type_errors_are_thrown() {
    let mut runtime = runtime_with(vec![]);
    let mut scope = runtime.handle_scope();
    throw_type_error(&mut scope, "no such thing");
    assert_eq!(scope.isolate.backend.log, vec!["throw TypeError: no such thing"]);
}

#[test]
fn async_ops_are_listed() {
    let mut runtime = runtime_with(vec![
        decl("op_a", 1, true),
        decl("op_b", 2, false),
        decl("op_c", 3, true),
    ]);
    let listed = AsyncOpsInfo.map_fn_to(FunctionCallbackInfo {
        isolate: &mut runtime.v8_isolate,
        data: UserData::Ops { realm_idx: 0, count: 3 },
        values: vec![],
    });
    match listed {
        Serialized::Names(names) => {
            assert_eq!(names.get("op_a"), Some(&2));
            assert_eq!(names.get("op_b"), None);
            assert_eq!(names.get("op_c"), Some(&2));
        }
        _ => panic!("not a list of names"),
    }
}

#[test]
fn arguments_and_results_are_handed_over() {
    let mut args = FunctionCallbackArguments {
        data: UserData::Op { realm_idx: 0, id: 0 },
        values: vec![Deserialized::Bool(true), Deserialized::Unit, Deserialized::Other(4)],
    };
    assert!(matches!(args.get(1), Deserialized::Unit));
    *args.get(1) = Deserialized::Absent;
    assert!(matches!(args.get(1), Deserialized::Absent));
    assert!(matches!(args.get(0), Deserialized::Bool(true)));
    assert!(matches!(args.get(2), Deserialized::Other(4)));
    let mut result = ReturnValue(None);
    result.set(Serialized::I32(3));
    assert!(matches!(result.0, Some(Serialized::I32(3))));
}

fn file(specifier: &str, code: &'static str) -> ExtensionFileSource {
    ExtensionFileSource { specifier: specifier.to_string(), code }
}

#[test]
fn javascript_of_extensions_is_run_in_order() {
    let mut first = Extension::builder("first").esm(vec![file("a", "1"), file("b", "2")]);
    first.js_files = vec![file("s", "3")];
    let mut second = Extension::builder("second").esm(vec![file("c", "4"), file("d", "5"), file("d", "6")]);
    second.esm_entry_point = Some("d");
    let extensions = vec![first, second];
    assert!(check_entry_points(&extensions));
    let steps: Vec<String> = extension_js(&extensions)
        .iter()
        .map(|step| match step {
            JsStep::Module(file) => format!("module {} {}", file.specifier, file.code),
            JsStep::Script(file) => format!("script {} {}", file.specifier, file.code),
        })
        .collect();
    assert_eq!(steps, vec!["module a 1", "module b 2", "script s 3", "module d 5"]);
    let mut missing = Extension::builder("missing").esm(vec![file("c", "4")]);
    missing.esm_entry_point = Some("x");
    assert!(!check_entry_points(&vec![missing]));
}

#[test]
fn modules_of_extensions_are_loaded_by_url() {
    let mut runtime = runtime_with(vec![]);
    assert_eq!(
        runtime.load_extension_module(&file("INTERNAL:core/a.js", "code")).ok().unwrap(),
        0
    );
    assert_eq!(runtime.v8_isolate.backend.log, vec!["load 0 internal:core/a.js Some(\"code\")"]);
    match runtime.load_extension_module(&file("no url", "code")) {
        Err(Error::Context { context, source }) => {
            assert_eq!(context, "Couldn't execute 'no url'");
            assert_eq!(source.to_string(), "relative URL without a base");
        }
        _ => panic!("loaded"),
    }
    let noted = couldnt_execute("x.js", range_error("deep"));
    assert_eq!(noted.to_string(), "Couldn't execute 'x.js'");
}

fn runtime_with_js(
    files: Vec<ExtensionFileSource>,
    scripts: Vec<ExtensionFileSource>,
) -> (JsRuntime<Scripted>, RealmSetup) {
    let mut ext = Extension::builder("own").esm(files);
    ext.js_files = scripts;
    let (mut runtime, setup) = started(options(vec![], vec![ext]), no_builtins());
    runtime.v8_isolate.backend.log.clear();
    (runtime, setup)
}

fn run_setup(runtime: &mut JsRuntime<Scripted>, setup: &mut RealmSetup) -> JsRealm {
    runtime.v8_isolate.backend.scripts.push_back(Some(Value::Undefined));
    let mut action = InitAction::Advance;
    loop {
        action = match action {
            InitAction::Advance => setup.advance(runtime),
            InitAction::RunTurn => setup.on_turn(runtime, Turn::Ready(Ok(()))),
            InitAction::AwaitModule(_) => setup.on_module(Ok(())),
            InitAction::Finished(Ok(realm)) => return realm,
            _ => panic!("not set up"),
        };
    }
}

#[test]
fn javascript_of_extensions_is_run_file_by_file() {
    let (mut runtime, mut setup) =
        runtime_with_js(vec![file("internal:a.js", "1")], vec![file("s.js", "2")]);
    runtime.v8_isolate.backend.scripts.push_back(Some(Value::Undefined));
    assert!(runtime.extensions_with_js.is_empty());
    assert!(setup.init.needs_module_id());
    assert!(matches!(setup.advance(&mut runtime), InitAction::RunTurn));
    assert_eq!(
        runtime.v8_isolate.backend.log,
        vec!["load 0 internal:a.js Some(\"1\")", "execute 0"]
    );
    runtime.v8_isolate.state.as_mut().unwrap().has_tick_scheduled = true;
    let action = setup.on_turn(&mut runtime, Turn::Pending { wake: true });
    assert!(matches!(action, InitAction::RunTurn));
    assert!(!state(&runtime).has_tick_scheduled);
    let action = setup.on_turn(&mut runtime, Turn::Ready(Ok(())));
    assert!(matches!(action, InitAction::AwaitModule(0)));
    assert!(matches!(setup.on_module(Ok(())), InitAction::Advance));
    assert!(matches!(setup.advance(&mut runtime), InitAction::Advance));
    assert_eq!(runtime.v8_isolate.backend.log[2], "script s.js: 2");
    assert!(runtime.v8_isolate.slots[0].js_recv_cb.is_none());
    assert!(matches!(setup.advance(&mut runtime), InitAction::Finished(Ok(_))));
    assert!(runtime.v8_isolate.slots[0].js_recv_cb.is_some());
    let names: Vec<&str> = runtime.extensions_with_js.iter().map(|e| e.name).collect();
    assert_eq!(names, vec!["core", "own"]);
}

#[test]
fn new_realms_run_the_javascript_again() {
    let (mut runtime, mut setup) =
        runtime_with_js(vec![file("internal:a.js", "1")], vec![file("s.js", "2")]);
    let global = run_setup(&mut runtime, &mut setup);
    assert_eq!(global.context().get_data().realm_idx, 0);
    runtime.v8_isolate.backend.log.clear();
    let mut setup = runtime.begin_realm();
    let realm = run_setup(&mut runtime, &mut setup);
    assert_eq!(
        runtime.v8_isolate.backend.log,
        vec![
            "bridge Deno.core.ops",
            "load 1 internal:a.js Some(\"1\")",
            "execute 1",
            "script s.js: 2",
            "grab Deno.core.opresolve",
            "grab Deno.core.buildCustomError",
        ]
    );
    assert_eq!(realm.context().get_data().realm_idx, 1);
    assert!(realm.state(&runtime.v8_isolate).js_recv_cb.is_some());
    assert_eq!(state(&runtime).known_realms.len(), 2);
    assert_eq!(runtime.extensions_with_js.len(), 2);
}

#[test]
fn failing_files_of_extensions_are_noted() {
    let (mut runtime, mut setup) = runtime_with_js(vec![file("internal:a.js", "1")], vec![]);
    setup.advance(&mut runtime);
    match setup.on_turn(&mut runtime, Turn::Ready(Err(range_error("deep")))) {
        InitAction::Finished(Err(Error::Context { context, source })) => {
            assert_eq!(context, "Couldn't execute 'internal:a.js'");
            assert_eq!(source.to_string(), "deep");
        }
        _ => panic!("not finished"),
    }
    setup.on_turn(&mut runtime, Turn::Ready(Ok(())));
    match setup.on_module(Err(range_error("end"))) {
        InitAction::Finished(Err(error)) => {
            assert_eq!(error.to_string(), "Couldn't execute 'internal:a.js'")
        }
        _ => panic!("not finished"),
    }
    let (mut runtime, mut setup) = runtime_with_js(vec![file("no url", "1")], vec![]);
    match setup.advance(&mut runtime) {
        InitAction::Finished(Err(error)) => {
            assert_eq!(error.to_string(), "Couldn't execute 'no url'")
        }
        _ => panic!("not finished"),
    }
    assert!(runtime.extensions_with_js.is_empty());
    let (mut runtime, mut setup) = runtime_with_js(vec![], vec![file("s.js", "1")]);
    assert!(matches!(
        setup.advance(&mut runtime),
        InitAction::Finished(Err(Error::Js(_)))
    ));
    assert!(!setup.init.needs_module_id());
}

#[test]
fn module_numbers_are_taken_once() {
    let mut modules = ModuleMap::default();
    assert_eq!(modules.next_module_id(), 0);
    assert_eq!(modules.next_module_id(), 1);
    assert!(modules.by_id.is_empty());
    assert_eq!(modules.load_side("file:///a.js").ok().unwrap(), 2);
    assert_eq!(modules.load_main("file:///b.js").ok().unwrap(), 3);
    assert!(modules.load_main("file:///c.js").is_err());
}

#[test]
fn isolates_have_numbers_of_their_own() {
    let mut ids = IsolateIds::new();
    let first = ids.next().unwrap();
    let second = ids.next().unwrap();
    assert_eq!((first.number(), second.number()), (0, 1));
}

#[test]
fn functions_are_called_with_values() {
    let mut runtime = runtime_with(vec![]);
    runtime.v8_isolate.backend.answers.push_back(Some(Deserialized::Str("back".to_string())));
    let mut scope = runtime.handle_scope();
    let this = deno_minus_v8::data::undefined(&mut scope);
    let args: Vec<Local<Value>> = vec![
        Local::from_raw(Value::Boolean { inner: true }).unwrap(),
        Local::from_raw(Value::Integer { inner: Double::from_i32(2) }).unwrap(),
    ];
    let answer = Function(40).call(&mut scope, this.clone(), &args).unwrap();
    assert!(matches!(&*answer, Value::String { inner } if inner == "back"));
    assert!(Function(41).call(&mut scope, this, &[]).is_none());
    assert_eq!(scope.isolate.backend.log, vec!["call 40(true, 2)", "call 41()"]);
}

use deno_minus_v8::backend::{JsBackend, TotallyLegitJSBackend};
use deno_minus_v8::error::{generic_error, Error};
use deno_minus_v8::extension::{check_dependencies, Extension};
use deno_minus_v8::extension_js::InitAction;
use deno_minus_v8::handle::HandleInternal;
use deno_minus_v8::isolate::{IsolateId, IsolateIds};
use deno_minus_v8::modules::two_mains_error;
use deno_minus_v8::names::NameMap;
use deno_minus_v8::ops::{FunctionCallback, OpDecl};
use deno_minus_v8::polyfills::{self, PolyfillOps, PolyfillSources};
use deno_minus_v8::realm_setup::RealmSetup;
use deno_minus_v8::runtime::{JsRuntime, RuntimeOptions};
use deno_minus_v8::snapshot::{
    build_snapshot, create_runtime_snapshot, runtime_files, RuntimeSources,
};
use deno_minus_v8::turn::Turn;
use deno_minus_v8::worker::{
    order_extensions, BootstrapOptions, ConcurrentStep, EvaluationStep, ExitCode, ExitCodes,
    InternalExtensions, MainWorker, ModuleEvaluation, PermissionOptions, Received, WorkerOptions,
};

fn decl(name: &'static str) -> OpDecl {
    OpDecl {
        name,
        v8_fn_ptr: FunctionCallback::Native(0),
        enabled: true,
        is_async: false,
        is_unstable: false,
        is_v8: false,
        argc: 1,
    }
}

fn internal() -> InternalExtensions {
    let e = |name: &'static str| Extension::builder(name);
    InternalExtensions {
        webidl: e("deno_webidl"),
        fetch: e("fetch"),
        websocket: e("websocket"),
        runtime: e("runtime"),
        spawn: e("spawn"),
        fs_events: e("fs_events"),
        fs: e("fs"),
        io: e("io"),
        stdio: e("stdio"),
        tls: e("tls"),
        net: e("net"),
        os: e("os"),
        permissions: e("permissions"),
        process: e("process"),
        signal: e("signal"),
        tty: e("tty"),
        http: e("http"),
        ops_http: e("ops_http"),
        js: e("js"),
    }
}

fn options() -> WorkerOptions<TotallyLegitJSBackend> {
    WorkerOptions {
        backend: TotallyLegitJSBackend::new(),
        bootstrap: BootstrapOptions {
            args: vec![],
            cpu_count: 1,
            debug_flag: false,
            enable_testing_features: false,
            location: None,
            no_color: true,
            is_tty: false,
            runtime_version: "x".to_string(),
            ts_version: "x".to_string(),
            unstable: true,
            user_agent: "agent".to_string(),
        },
        extensions: vec![Extension::builder("own")],
        unsafely_ignore_certificate_errors: Some(vec!["localhost".to_string()]),
        root_cert_store: Some(4),
        seed: None,
        format_js_error_fn: None,
        should_break_on_first_statement: true,
        get_error_class_fn: None,
        origin_storage_dir: None,
    }
}

fn sources() -> PolyfillSources {
    PolyfillSources {
        colors: "1",
        console: "2",
        url: "3",
        infra: "4",
        dom_exception: "5",
        mimesniff: "6",
        event: "7",
        abort_signal: "8",
        streams: "9",
        file: "10",
        location: "11",
    }
}

fn polyfill_ops() -> PolyfillOps {
    PolyfillOps {
        op_url_parse_search_params: decl("op_url_parse_search_params"),
        op_base64_decode: decl("op_base64_decode"),
        op_base64_encode: decl("op_base64_encode"),
    }
}

fn isolate_id() -> IsolateId {
    IsolateIds::new().next().unwrap()
}

fn make(
    internal: InternalExtensions,
    builtins: Extension,
    init_state: &impl Fn(usize) -> Result<(), Error>,
) -> Option<Result<(MainWorker<TotallyLegitJSBackend>, RealmSetup), Error>> {
    MainWorker::from_options(
        isolate_id(),
        options(),
        internal,
        &sources(),
        &polyfill_ops(),
        builtins,
        5,
        ExitCode { place: 0 },
        &|_: usize, op: OpDecl| -> OpDecl { op },
        init_state,
    )
}

fn fine(_: usize) -> Result<(), Error> {
    Ok(())
}

fn worker() -> MainWorker<TotallyLegitJSBackend> {
    let made = make(internal(), Extension::builder("core"), &fine);
    let (mut worker, mut setup) = made.unwrap().ok().unwrap();
    assert!(matches!(setup.advance(&mut worker.js_runtime), InitAction::Finished(Ok(_))));
    worker
}

#[test]
fn extensions_are_ordered() {
    let extensions = order_extensions(
        internal(),
        polyfills::init(&sources(), &polyfill_ops()),
        Extension::builder("perm"),
        vec![Extension::builder("own")],
    );
    let names: Vec<&str> = extensions.iter().map(|e| e.name).collect();
    assert_eq!(
        names,
        vec![
            "deno_webidl", "deno_console", "deno_url", "deno_web", "fetch", "websocket", "runtime",
            "spawn", "fs_events", "fs", "io", "stdio", "tls", "net", "os", "permissions", "process",
            "signal", "tty", "http", "ops_http", "js", "perm", "own",
        ]
    );
}

#[test]
fn worker_prepares_permissions() {
    let asked = std::cell::RefCell::new(vec![]);
    let made = make(internal(), Extension::builder("core"), &|id: usize| -> Result<(), Error> {
        asked.borrow_mut().push(id);
        Ok(())
    });
    let (mut worker, mut setup) = made.unwrap().ok().unwrap();
    assert_eq!(*asked.borrow(), vec![5]);
    assert!(worker.should_break_on_first_statement);
    assert_eq!(worker.js_runtime.extensions.len(), 24);
    assert!(worker.js_runtime.extensions_with_js.is_empty());
    assert!(matches!(setup.advance(&mut worker.js_runtime), InitAction::Finished(Ok(_))));
    assert_eq!(worker.js_runtime.extensions_with_js.len(), 1);
    let failed = make(internal(), Extension::builder("core"), &|_: usize| -> Result<(), Error> {
        Err(generic_error("denied"))
    });
    assert!(matches!(failed, Some(Err(error)) if error.to_string() == "denied"));
}

#[test]
fn worker_needs_its_dependencies() {
    let mut other = internal();
    other.webidl.name = "webidl";
    assert!(make(other, Extension::builder("core"), &fine).is_none());
    let mut late = internal();
    late.fetch.deps = vec!["os"];
    assert!(make(late, Extension::builder("core"), &fine).is_none());
    let mut early = internal();
    early.os.deps = vec!["fetch", "deno_web"];
    assert!(make(early, Extension::builder("core"), &fine).is_some());
    let mut builtins = Extension::builder("core");
    builtins.esm_entry_point = Some("internal:core.js");
    assert!(make(internal(), builtins, &fine).is_none());
}

#[test]
fn connections_get_their_options() {
    let connection = options().connection_options();
    assert_eq!(connection.user_agent, "agent");
    assert_eq!(connection.root_cert_store, Some(4));
    assert_eq!(
        connection.unsafely_ignore_certificate_errors,
        Some(vec!["localhost".to_string()])
    );
    assert!(connection.unstable);
}

#[test]
fn permissions_come_with_options() {
    let mut options = options();
    assert_eq!(
        options.permission_options(),
        PermissionOptions { unstable: true, enable_testing_features: false }
    );
    options.bootstrap.enable_testing_features = true;
    options.bootstrap.unstable = false;
    assert_eq!(
        options.permission_options(),
        PermissionOptions { unstable: false, enable_testing_features: true }
    );
}

#[test]
fn two_main_modules_are_an_error() {
    let error = two_mains_error("\"b\"", "\"a\"");
    assert_eq!(
        error.to_string(),
        "Trying to create \"main\" module (\"b\"), when one already exists (\"a\")"
    );
}

#[test]
fn names_keep_their_order() {
    let mut names: NameMap<i32> = NameMap::new();
    names.insert("b", 1);
    names.insert("a", 2);
    names.insert("b", 3);
    assert_eq!(*names.entries(), vec![("b".to_string(), 3), ("a".to_string(), 2)]);
}

#[test]
fn exit_code_is_shared() {
    let mut codes = ExitCodes::new();
    let mut code = codes.add();
    let mut other = codes.add();
    let mut worker = worker();
    worker.exit_code = code.clone();
    assert_eq!(worker.get_exit_code(&codes), 0);
    let mut child = code.clone();
    child.set(&mut codes, 3);
    assert_eq!(code.get(&codes), 3);
    assert_eq!(worker.get_exit_code(&codes), 3);
    code.set(&mut codes, -2);
    assert_eq!(child.get(&codes), -2);
    assert_eq!(worker.get_exit_code(&codes), -2);
    other.set(&mut codes, 7);
    assert_eq!(worker.get_exit_code(&codes), -2);
    assert_eq!(other.get(&codes), 7);
}

#[test]
fn only_the_future_ends_the_waiting() {
    assert_eq!(ConcurrentStep::on_future(true), ConcurrentStep::Return);
    assert_eq!(ConcurrentStep::on_future(false), ConcurrentStep::PollEventLoop);
    assert_eq!(ConcurrentStep::on_event_loop(&Turn::Ready(Ok(()))), ConcurrentStep::PollFuture);
    let failed = Turn::Ready(Err(generic_error("boom")));
    assert_eq!(ConcurrentStep::on_event_loop(&failed), ConcurrentStep::PollFuture);
    let pending = Turn::Pending { wake: true };
    assert_eq!(ConcurrentStep::on_event_loop(&pending), ConcurrentStep::Wait);
}

#[test]
fn worker_scripts_may_fail() {
    let mut worker = worker();
    assert!(matches!(worker.bootstrap("[boot]", "{}"), Err(Error::Js(_))));
    assert!(matches!(worker.dispatch_load_event("[load]"), Err(Error::Js(_))));
    assert!(matches!(worker.dispatch_unload_event("[unload]"), Err(Error::Js(_))));
    assert_eq!(worker.js_runtime.v8_isolate.id.number(), 0);
}

#[test]
fn worker_loads_one_main_module() {
    let mut worker = worker();
    assert_eq!(worker.preload_module("file:///a.js", false).ok().unwrap(), 0);
    assert_eq!(worker.preload_module("file:///b.js", true).ok().unwrap(), 1);
    assert!(worker.preload_module("file:///c.js", true).is_err());
    assert_eq!(worker.preload_module("file:///c.js", false).ok().unwrap(), 2);
}

#[test]
fn evaluation_ends_with_the_module() {
    let evaluation = ModuleEvaluation::new();
    assert!(matches!(
        evaluation.on_receiver(Received::Ended(Ok(()))),
        EvaluationStep::Finished(Ok(()))
    ));
    assert!(matches!(evaluation.on_receiver(Received::Canceled), EvaluationStep::NotProvided));
    assert!(matches!(evaluation.on_receiver(Received::Pending), EvaluationStep::PollEventLoop));
}

#[test]
fn evaluation_waits_after_the_event_loop() {
    let mut evaluation = ModuleEvaluation::new();
    assert!(matches!(
        evaluation.on_event_loop(Turn::Pending { wake: true }),
        EvaluationStep::Wait
    ));
    assert!(matches!(
        evaluation.on_event_loop(Turn::Ready(Err(generic_error("boom")))),
        EvaluationStep::Finished(Err(error)) if error.to_string() == "boom"
    ));
    assert!(!evaluation.event_loop_done);
    assert!(matches!(
        evaluation.on_event_loop(Turn::Ready(Ok(()))),
        EvaluationStep::PollReceiver
    ));
    assert!(matches!(evaluation.on_receiver(Received::Pending), EvaluationStep::Wait));
}

#[test]
fn polyfills_depend_on_each_other() {
    let extensions = polyfills::init(&sources(), &polyfill_ops());
    assert_eq!(extensions.len(), 3);
    assert_eq!(extensions[0].name, "deno_console");
    assert_eq!(extensions[0].esm_files[1].specifier, "02_console.js");
    assert_eq!(extensions[1].deps, vec!["deno_webidl"]);
    assert_eq!(extensions[1].ops.as_ref().unwrap()[0].name, "op_url_parse_search_params");
    assert_eq!(extensions[2].deps, vec!["deno_webidl", "deno_console", "deno_url"]);
    assert_eq!(extensions[2].esm_files.len(), 8);
    assert_eq!(extensions[2].esm_files[7].specifier, "12_location.js");
    assert_eq!(extensions[2].esm_files[7].code, "11");
    assert!(!check_dependencies(&extensions, &vec![]));
    let mut with_webidl = vec![Extension::builder("deno_webidl")];
    with_webidl.extend(extensions);
    assert!(check_dependencies(&with_webidl, &vec![]));
}

#[test]
fn snapshot_has_the_main_module() {
    let sources = RuntimeSources {
        build: "build",
        errors: "errors",
        version: "version",
        util: "util",
        permissions: "permissions",
        io: "io",
        buffer: "buffer",
        fs: "fs",
        os: "os",
        diagnostics: "diagnostics",
        files: "files",
        fs_events: "fs_events",
        http: "http",
        process: "process",
        read_file: "read_file",
        signals: "signals",
        spawn: "spawn",
        tty: "tty",
        write_file: "write_file",
        prompt: "prompt",
        deno_ns: "deno_ns",
        global_scope: "global_scope",
    };
    let extensions = build_snapshot(&sources, "main");
    assert_eq!(extensions.len(), 2);
    assert_eq!(extensions[0].name, "runtime");
    assert_eq!(extensions[0].deps.len(), 17);
    assert_eq!(extensions[0].deps[16], "deno_flash");
    let files = &extensions[0].esm_files;
    assert_eq!(files.len(), 22);
    assert_eq!(files[0].specifier, "js/01_build.js");
    assert_eq!((files[2].specifier.as_str(), files[2].code), ("js/01_version.ts", "version"));
    assert_eq!((files[19].specifier.as_str(), files[19].code), ("js/41_prompt.js", "prompt"));
    assert_eq!(files[21].specifier, "js/98_global_scope.js");
    assert_eq!(files[21].code, "global_scope");
    assert_eq!(runtime_files(&sources).len(), 22);
    assert_eq!(create_runtime_snapshot(&sources, None).len(), 1);
    assert_eq!(extensions[1].name, "runtime_main");
    assert_eq!(extensions[1].deps, vec!["runtime"]);
    assert_eq!(extensions[1].esm_files[0].specifier, "js/99_main.js");
    assert_eq!(extensions[1].esm_files[0].code, "main");
}

#[test]
fn default_options_have_no_extensions() {
    let options: RuntimeOptions<TotallyLegitJSBackend> = RuntimeOptions::default();
    assert!(options.extensions.is_empty());
    let (mut runtime, mut setup) = JsRuntime::new(
        isolate_id(),
        options,
        Extension::builder("core"),
        &|_: usize, op: OpDecl| -> OpDecl { op },
        &fine,
    )
    .ok()
    .unwrap();
    assert!(matches!(setup.advance(&mut runtime), InitAction::Finished(Ok(_))));
    let context = &runtime.v8_isolate.slots[0];
    assert_eq!(context.js_recv_cb.as_ref().unwrap().get_data().0, 0);
    assert_eq!(TotallyLegitJSBackend::new().get_memory_usage().heap_used, 0);
}

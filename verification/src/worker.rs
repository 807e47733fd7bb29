//! The worker that runs a program.
use crate::backend::{ran, JsBackend, Run};
use crate::data::Value;
use crate::error::Error;
use crate::extension::{
    check_dependencies, check_entry_points, dependencies_met, dependencies_met_from,
    entry_points_exist, is_named, Extension,
};
use crate::handle::Global;
use crate::isolate::{Isolate, IsolateId};
use crate::modules::{second_main_message, ModuleId};
use crate::ops::OpDecl;
use crate::polyfills::{are_polyfills, init, PolyfillOps, PolyfillSources};
use crate::realm::executed;
use crate::realm_setup::RealmSetup;
use crate::runtime::{failed_at, is_started, JsRuntime, RuntimeOptions};
use crate::turn::Turn;
use vstd::prelude::*;

verus! {

/// This worker is created and used by almost all
/// subcommands in Deno executable.
///
/// It provides ops available in the `Deno` namespace.
///
/// All `WebWorker`s created during program execution
/// are descendants of this worker.
pub struct MainWorker<B> {
    pub js_runtime: JsRuntime<B>,
    pub exit_code: ExitCode,
    pub should_break_on_first_statement: bool,
}

/// The codes that workers exit with, which they share with what runs in them.
#[derive(Debug)]
pub struct ExitCodes {
    pub codes: Vec<i32>,
}

/// The code that a worker exits with: its place among the [`ExitCodes`]. Clones stand for the
/// same code.
#[derive(Debug, PartialEq, Eq, Structural)]
pub struct ExitCode {
    pub place: usize,
}

impl Clone for ExitCode {
    fn clone(&self) -> (copy: Self)
        ensures
            copy == *self,
    {
        ExitCode { place: self.place }
    }
}

impl ExitCodes {
    pub fn new() -> (codes: Self)
        ensures
            codes.codes@ == Seq::<i32>::empty(),
    {
        ExitCodes { codes: Vec::new() }
    }

    /// A code of its own, which is zero until another is set.
    pub fn add(&mut self) -> (code: ExitCode)
        ensures
            code.place == old(self).codes@.len(),
            final(self).codes@ == old(self).codes@.push(0),
    {
        let place: usize = self.codes.len();
        self.codes.push(0);
        ExitCode { place }
    }
}

impl ExitCode {
    /// The code is one of these.
    pub open spec fn is_of(self, codes: ExitCodes) -> bool {
        self.place < codes.codes@.len()
    }

    pub fn get(&self, codes: &ExitCodes) -> (code: i32)
        requires
            self.is_of(*codes),
        ensures
            code == codes.codes@[self.place as int],
    {
        codes.codes[self.place]
    }

    pub fn set(&mut self, codes: &mut ExitCodes, code: i32)
        requires
            old(self).is_of(*old(codes)),
        ensures
            *final(self) == *old(self),
            sets_code(*old(codes), *final(codes), *old(self), code),
    {
        codes.codes.set(self.place, code);
    }
}

/// A code was set, and no other was changed.
pub open spec fn sets_code(
    before: ExitCodes,
    after: ExitCodes,
    exit_code: ExitCode,
    code: i32,
) -> bool {
    after.codes@ == before.codes@.update(exit_code.place as int, code)
}

/// A code that is set through one clone is what every clone gives, whenever the clones were made.
/// A worker whose code is one of them gives it as well. Codes of other workers stay as they are.
pub proof fn clones_share_the_code<B: JsBackend>(
    exit_code: ExitCode,
    clone: ExitCode,
    other: ExitCode,
    worker: MainWorker<B>,
    before: ExitCodes,
    after: ExitCodes,
    code: i32,
    given: i32,
    worker_code: i32,
    other_before: i32,
    other_after: i32,
)
    requires
        exit_code.is_of(before),
        other.is_of(before),
        other.place != exit_code.place,
        call_ensures(ExitCode::clone, (&exit_code,), clone),
        call_ensures(ExitCode::clone, (&exit_code,), worker.exit_code),
        sets_code(before, after, exit_code, code),
        call_ensures(ExitCode::get, (&clone, &after), given),
        call_ensures(MainWorker::<B>::get_exit_code, (&worker, &after), worker_code),
        call_ensures(ExitCode::get, (&other, &before), other_before),
        call_ensures(ExitCode::get, (&other, &after), other_after),
    ensures
        given == code,
        worker_code == code,
        other_after == other_before,
{
}

/// What JavaScript is told when it starts.
#[derive(Debug)]
pub struct BootstrapOptions {
    pub args: Vec<String>,
    pub cpu_count: usize,
    pub debug_flag: bool,
    pub enable_testing_features: bool,
    pub location: Option<String>,
    pub no_color: bool,
    pub is_tty: bool,
    pub runtime_version: String,
    pub ts_version: String,
    pub unstable: bool,
    pub user_agent: String,
}

/// What a worker is made of. The embedder's own values stand for themselves by a number each.
pub struct WorkerOptions<B> {
    pub backend: B,
    pub bootstrap: BootstrapOptions,
    pub extensions: Vec<Extension>,
    pub unsafely_ignore_certificate_errors: Option<Vec<String>>,
    pub root_cert_store: Option<usize>,
    pub seed: Option<u64>,
    pub format_js_error_fn: Option<usize>,
    pub should_break_on_first_statement: bool,
    pub get_error_class_fn: Option<usize>,
    pub origin_storage_dir: Option<String>,
}

/// The extensions of a worker that the embedder makes.
pub struct InternalExtensions {
    pub webidl: Extension,
    pub fetch: Extension,
    pub websocket: Extension,
    pub runtime: Extension,
    pub spawn: Extension,
    pub fs_events: Extension,
    pub fs: Extension,
    pub io: Extension,
    pub stdio: Extension,
    pub tls: Extension,
    pub net: Extension,
    pub os: Extension,
    pub permissions: Extension,
    pub process: Extension,
    pub signal: Extension,
    pub tty: Extension,
    pub http: Extension,
    pub ops_http: Extension,
    pub js: Extension,
}

/// What an extension that makes connections is made with.
#[derive(Debug)]
pub struct ConnectionOptions {
    pub user_agent: String,
    pub root_cert_store: Option<usize>,
    pub unsafely_ignore_certificate_errors: Option<Vec<String>>,
    pub unstable: bool,
}

fn copy_texts(texts: &Vec<String>) -> (copy: Vec<String>)
    ensures
        copy@ == texts@,
{
    let mut copy: Vec<String> = Vec::new();
    let mut i: usize = 0;
    while i < texts.len()
        invariant
            i <= texts@.len(),
            copy@ == texts@.take(i as int),
        decreases texts@.len() - i,
    {
        copy.push(texts[i].clone());
        i = i + 1;
        assert(texts@.take(i as int) =~= texts@.take(i - 1).push(texts@[i - 1]));
    }
    assert(texts@.take(i as int) == texts@);
    copy
}

impl<B> WorkerOptions<B> {
    /// What the extensions for `fetch`, for web sockets and for the network are made with.
    pub fn connection_options(&self) -> (options: ConnectionOptions)
        ensures
            options.user_agent@ == self.bootstrap.user_agent@,
            options.root_cert_store == self.root_cert_store,
            match self.unsafely_ignore_certificate_errors {
                Some(hosts) => options.unsafely_ignore_certificate_errors matches Some(copy)
                    && copy@ == hosts@,
                None => options.unsafely_ignore_certificate_errors is None,
            },
            options.unstable == self.bootstrap.unstable,
    {
        ConnectionOptions {
            user_agent: self.bootstrap.user_agent.clone(),
            root_cert_store: self.root_cert_store,
            unsafely_ignore_certificate_errors: match &self.unsafely_ignore_certificate_errors {
                Some(hosts) => Some(copy_texts(hosts)),
                None => None,
            },
            unstable: self.bootstrap.unstable,
        }
    }
}

/// What the extension with the permissions keeps for ops beside them.
#[derive(Clone, Copy, Debug, PartialEq, Eq, Structural)]
pub struct PermissionOptions {
    /// Ops that are unstable may be called.
    pub unstable: bool,
    /// Features that are there for tests may be used.
    pub enable_testing_features: bool,
}

impl<B> WorkerOptions<B> {
    /// What the extension with the permissions is made with.
    pub fn permission_options(&self) -> (options: PermissionOptions)
        ensures
            options.unstable == self.bootstrap.unstable,
            options.enable_testing_features == self.bootstrap.enable_testing_features,
    {
        PermissionOptions {
            unstable: self.bootstrap.unstable,
            enable_testing_features: self.bootstrap.enable_testing_features,
        }
    }
}

/// The extension that keeps what is permitted, which a hook of the embedder's sets.
pub open spec fn permissions_extension(hook: usize, extension: Extension) -> bool {
    &&& extension.name@ == ""@
    &&& extension.deps@.len() == 0
    &&& extension.js_files@.len() == 0
    &&& extension.esm_files@.len() == 0
    &&& extension.esm_entry_point is None
    &&& extension.ops is None
    &&& extension.middleware_fn is None
    &&& extension.opstate_fn == Some(hook)
    &&& extension.event_loop_middleware is None
}

/// All extensions of a worker, in the order in which they are registered: the one that the
/// polyfills depend on, the polyfills, those of the runtime, the one with the permissions, and
/// those of the embedder's own.
pub open spec fn worker_extensions(
    internal: InternalExtensions,
    polyfills: Seq<Extension>,
    permissions: Extension,
    own: Seq<Extension>,
) -> Seq<Extension> {
    seq![internal.webidl] + polyfills + seq![
        internal.fetch,
        internal.websocket,
        internal.runtime,
        internal.spawn,
        internal.fs_events,
        internal.fs,
        internal.io,
        internal.stdio,
        internal.tls,
        internal.net,
        internal.os,
        internal.permissions,
        internal.process,
        internal.signal,
        internal.tty,
        internal.http,
        internal.ops_http,
        internal.js,
        permissions,
    ] + own
}

fn permissions_with(hook: usize) -> (extension: Extension)
    ensures
        permissions_extension(hook, extension),
{
    Extension { opstate_fn: Some(hook), ..Extension::builder("") }
}

/// Puts the extensions of a worker in order.
pub fn order_extensions(
    internal: InternalExtensions,
    polyfills: Vec<Extension>,
    permissions: Extension,
    own: Vec<Extension>,
) -> (extensions: Vec<Extension>)
    ensures
        extensions@ == worker_extensions(internal, polyfills@, permissions, own@),
{
    let mut extensions = vec![internal.webidl];
    assert(extensions@ =~= seq![internal.webidl]);
    let mut polyfills = polyfills;
    extensions.append(&mut polyfills);
    let mut runtime_extensions = vec![
        internal.fetch,
        internal.websocket,
        internal.runtime,
        internal.spawn,
        internal.fs_events,
        internal.fs,
        internal.io,
        internal.stdio,
        internal.tls,
        internal.net,
        internal.os,
        internal.permissions,
        internal.process,
        internal.signal,
        internal.tty,
        internal.http,
        internal.ops_http,
        internal.js,
        permissions,
    ];
    assert(runtime_extensions@ =~= seq![
        internal.fetch,
        internal.websocket,
        internal.runtime,
        internal.spawn,
        internal.fs_events,
        internal.fs,
        internal.io,
        internal.stdio,
        internal.tls,
        internal.net,
        internal.os,
        internal.permissions,
        internal.process,
        internal.signal,
        internal.tty,
        internal.http,
        internal.ops_http,
        internal.js,
        permissions,
    ]);
    extensions.append(&mut runtime_extensions);
    let mut own = own;
    extensions.append(&mut own);
    extensions
}

/// A worker whose runtime was started with these extensions, or the error of one of them.
pub open spec fn is_made<
    B: JsBackend,
    M: Fn(usize, OpDecl) -> OpDecl,
    F: Fn(usize) -> Result<(), Error>,
>(
    made: Option<Result<(MainWorker<B>, RealmSetup), Error>>,
    isolate_id: IsolateId,
    options: WorkerOptions<B>,
    extensions: Seq<Extension>,
    builtins: Extension,
    exit_code: ExitCode,
    middleware: M,
    init_state: F,
) -> bool {
    let can_be_made = dependencies_met(extensions + seq![builtins]) && entry_points_exist(
        seq![builtins],
    );
    match made {
        Some(Ok((worker, setup))) => {
            &&& can_be_made
            &&& is_started(
                worker.js_runtime,
                setup,
                isolate_id,
                options.backend.events(),
                options.get_error_class_fn,
                extensions,
                seq![builtins],
                middleware,
                init_state,
            )
            &&& worker.exit_code == exit_code
            &&& worker.should_break_on_first_statement == options.should_break_on_first_statement
        },
        Some(Err(error)) => {
            &&& can_be_made
            &&& exists|at: int| #[trigger]
                failed_at(init_state, extensions + seq![builtins], at, error)
        },
        None => !can_be_made,
    }
}

/// The polyfills come after what they depend on: the dependencies of all extensions of a worker are
/// met where those of the extensions behind the polyfills are.
pub proof fn polyfills_have_dependencies(
    internal: InternalExtensions,
    polyfills: Seq<Extension>,
    permissions: Extension,
    own: Seq<Extension>,
    builtins: Extension,
    sources: PolyfillSources,
    ops: PolyfillOps,
)
    requires
        are_polyfills(polyfills, sources, ops),
        internal.webidl.name@ == "deno_webidl"@,
        internal.webidl.deps@.len() == 0,
        dependencies_met_from(
            worker_extensions(internal, polyfills, permissions, own) + seq![builtins],
            4,
        ),
    ensures
        dependencies_met(
            worker_extensions(internal, polyfills, permissions, own) + seq![builtins],
        ),
{
    let all = worker_extensions(internal, polyfills, permissions, own) + seq![builtins];
    assert(all[0] == internal.webidl);
    assert(all[1] == polyfills[0]);
    assert(all[2] == polyfills[1]);
    assert(all[3] == polyfills[2]);
    assert forall|i: int, k: int|
        0 <= i < all.len() && 0 <= k < all[i].deps@.len() implies is_named(
        all,
        i,
        (#[trigger] all[i].deps@[k])@,
    ) by {
        if i < 4 {
            assert(all[0].name@ == "deno_webidl"@);
            assert(all[1].name@ == "deno_console"@);
            assert(all[2].name@ == "deno_url"@);
        }
    }
}

impl<B: JsBackend> MainWorker<B> {
    /// Makes a worker. `permissions_hook` is the embedder's hook that sets what is permitted.
    /// Its JavaScript is yet to be set up, by what comes with it. Nothing comes back where an
    /// extension does not come after those that it depends on, or where the builtins lack their
    /// entry point.
    pub fn from_options<M: Fn(usize, OpDecl) -> OpDecl, F: Fn(usize) -> Result<(), Error>>(
        isolate_id: IsolateId,
        options: WorkerOptions<B>,
        internal: InternalExtensions,
        polyfill_sources: &PolyfillSources,
        polyfill_ops: &PolyfillOps,
        builtins: Extension,
        permissions_hook: usize,
        exit_code: ExitCode,
        middleware: &M,
        init_state: &F,
    ) -> (made: Option<Result<(Self, RealmSetup), Error>>)
        requires
            forall|id: usize, op: OpDecl| call_requires(*middleware, (id, op)),
            forall|id: usize| call_requires(*init_state, (id,)),
        ensures
            exists|polyfills: Seq<Extension>, permissions: Extension|
                {
                    let all = #[trigger] worker_extensions(
                        internal,
                        polyfills,
                        permissions,
                        options.extensions@,
                    );
                    &&& are_polyfills(polyfills, *polyfill_sources, *polyfill_ops)
                    &&& permissions_extension(permissions_hook, permissions)
                    &&& is_made(
                        made,
                        isolate_id,
                        options,
                        all,
                        builtins,
                        exit_code,
                        *middleware,
                        *init_state,
                    )
                    &&& internal.webidl.name@ == "deno_webidl"@ && internal.webidl.deps@.len() == 0
                        && dependencies_met_from(all + seq![builtins], 4) && entry_points_exist(
                        seq![builtins],
                    ) ==> made is Some
                },
    {
        let permissions = permissions_with(permissions_hook);
        let polyfills = init(polyfill_sources, polyfill_ops);
        let ghost kept = permissions;
        let ghost own = options.extensions@;
        proof {
            if internal.webidl.name@ == "deno_webidl"@ && internal.webidl.deps@.len() == 0
                && dependencies_met_from(
                worker_extensions(internal, polyfills@, kept, own) + seq![builtins],
                4,
            ) {
                polyfills_have_dependencies(
                    internal,
                    polyfills@,
                    kept,
                    own,
                    builtins,
                    *polyfill_sources,
                    *polyfill_ops,
                );
            }
        }
        let extensions = order_extensions(internal, polyfills, permissions, options.extensions);
        let mut with_js = vec![builtins];
        assert(with_js@ =~= seq![builtins]);
        assert(Seq::<Extension>::empty().insert(0, builtins) =~= seq![builtins]);
        if !check_dependencies(&extensions, &with_js) || !check_entry_points(&with_js) {
            return None;
        }
        let builtins = with_js.pop().unwrap();
        let made = JsRuntime::new(
            isolate_id,
            RuntimeOptions {
                backend: options.backend,
                get_error_class_fn: options.get_error_class_fn,
                extensions,
                extensions_with_js: Vec::new(),
            },
            builtins,
            middleware,
            init_state,
        );
        Some(
            match made {
                Ok((js_runtime, setup)) => Ok(
                    (
                        MainWorker {
                            js_runtime,
                            exit_code,
                            should_break_on_first_statement:
                                options.should_break_on_first_statement,
                        },
                        setup,
                    ),
                ),
                Err(error) => Err(error),
            },
        )
    }

    /// Starts the program's runtime with options in JSON.
    pub fn bootstrap(&mut self, script_name: &str, options_json: &str) -> (outcome: Result<
        (),
        Error,
    >)
        requires
            old(self).js_runtime.is_set_up(),
        ensures
            final(self).js_runtime.is_set_up(),
            ran_script(
                *old(self),
                *final(self),
                script_name@,
                "bootstrap.mainRuntime("@ + options_json@ + ")"@,
                outcome,
            ),
    {
        let mut script = "bootstrap.mainRuntime(".to_owned();
        script.append(options_json);
        script.append(")");
        self.execute_script(script_name, script.as_str())
    }

    /// See [`JsRuntime::execute_script`].
    pub fn execute_script(&mut self, script_name: &str, source_code: &str) -> (outcome: Result<
        (),
        Error,
    >)
        requires
            old(self).js_runtime.is_set_up(),
        ensures
            final(self).js_runtime.is_set_up(),
            ran_script(*old(self), *final(self), script_name@, source_code@, outcome),
    {
        let ghost before = *self;
        let outcome = self.js_runtime.execute_script(script_name, source_code);
        assert(executed(
            before.js_runtime.v8_isolate,
            self.js_runtime.v8_isolate,
            0,
            script_name@,
            source_code@,
            outcome,
        ));
        match outcome {
            Ok(_) => Ok(()),
            Err(error) => Err(error),
        }
    }

    /// Loads and instantiates specified JavaScript module
    /// as "main" or "side" module.
    pub fn preload_module(&mut self, module_specifier: &str, main: bool) -> (loaded: Result<
        ModuleId,
        Error,
    >)
        requires
            old(self).js_runtime.is_set_up(),
            old(self).js_runtime.v8_isolate.module_map->0.next_module_id < ModuleId::MAX,
        ensures
            final(self).js_runtime.is_set_up(),
            ({
                let modules = old(self).js_runtime.v8_isolate.module_map->0;
                match loaded {
                    Ok(id) => {
                        &&& main ==> !modules.has_main()
                        &&& id == modules.next_module_id
                        &&& modules.adds(
                            final(self).js_runtime.v8_isolate.module_map->0,
                            main,
                            module_specifier@,
                        )
                        &&& ran(
                            Isolate {
                                module_map: final(self).js_runtime.v8_isolate.module_map,
                                ..old(self).js_runtime.v8_isolate
                            },
                            final(self).js_runtime.v8_isolate,
                            Run::LoadModule { id, name: module_specifier@, code: None },
                        )
                    },
                    Err(error) => {
                        &&& main
                        &&& modules.has_main()
                        &&& error.is_custom(
                            "Error"@,
                            second_main_message(module_specifier@, modules.main_name()),
                        )
                        &&& final(self).js_runtime == old(self).js_runtime
                    },
                }
            }),
            *final(self) == (MainWorker {
                js_runtime: JsRuntime {
                    v8_isolate: final(self).js_runtime.v8_isolate,
                    ..old(self).js_runtime
                },
                ..*old(self)
            }),
    {
        if main {
            self.js_runtime.load_main_module(module_specifier, None)
        } else {
            self.js_runtime.load_side_module(module_specifier, None)
        }
    }

    /// Return exit code set by the executed code (either in main worker
    /// or one of child web workers).
    pub fn get_exit_code(&self, codes: &ExitCodes) -> (code: i32)
        requires
            self.exit_code.is_of(*codes),
        ensures
            code == codes.codes@[self.exit_code.place as int],
    {
        self.exit_code.get(codes)
    }

    /// Dispatches "load" event to the JavaScript runtime.
    ///
    /// Does not poll event loop, and thus not await any of the "load" event handlers.
    pub fn dispatch_load_event(&mut self, script_name: &str) -> (outcome: Result<(), Error>)
        requires
            old(self).js_runtime.is_set_up(),
        ensures
            final(self).js_runtime.is_set_up(),
            ran_script(
                *old(self),
                *final(self),
                script_name@,
                "dispatchEvent(new Event('load'))"@,
                outcome,
            ),
    {
        // Not using `globalThis` here, because user might delete it. Instead we're using global
        // `dispatchEvent` function which will used a saved reference to global scope.
        self.execute_script(script_name, "dispatchEvent(new Event('load'))")
    }

    /// Dispatches "unload" event to the JavaScript runtime.
    ///
    /// Does not poll event loop, and thus not await any of the "unload" event handlers.
    pub fn dispatch_unload_event(&mut self, script_name: &str) -> (outcome: Result<(), Error>)
        requires
            old(self).js_runtime.is_set_up(),
        ensures
            final(self).js_runtime.is_set_up(),
            ran_script(
                *old(self),
                *final(self),
                script_name@,
                "dispatchEvent(new Event('unload'))"@,
                outcome,
            ),
    {
        self.execute_script(script_name, "dispatchEvent(new Event('unload'))")
    }
}

/// A script was executed in the global realm, and its value was dropped.
pub open spec fn ran_script<B: JsBackend>(
    before: MainWorker<B>,
    after: MainWorker<B>,
    name: Seq<char>,
    source_code: Seq<char>,
    outcome: Result<(), Error>,
) -> bool {
    &&& exists|value: Result<Global<Value>, Error>| #[trigger]
        executed(
            before.js_runtime.v8_isolate,
            after.js_runtime.v8_isolate,
            0,
            name,
            source_code,
            value,
        ) && match value {
            Ok(_) => outcome is Ok,
            Err(error) => outcome == Err::<(), _>(error),
        }
    &&& after.js_runtime.v8_isolate.keeps(before.js_runtime.v8_isolate)
    &&& after == (MainWorker {
        js_runtime: JsRuntime { v8_isolate: after.js_runtime.v8_isolate, ..before.js_runtime },
        ..before
    })
}

/// What was heard of a module that is evaluated.
#[derive(Debug)]
pub enum Received {
    /// Nothing yet.
    Pending,
    /// How it ended.
    Ended(Result<(), Error>),
    /// Nothing, and nothing will be heard.
    Canceled,
}

/// What to do next about a module that is evaluated.
#[derive(Debug)]
pub enum EvaluationStep {
    /// The evaluation is over.
    Finished(Result<(), Error>),
    /// The evaluation is over, and how it ended is not known.
    NotProvided,
    /// Look again whether the module has ended.
    PollReceiver,
    /// Run a turn of the event loop.
    PollEventLoop,
    /// Wait to be woken.
    Wait,
}

/// The evaluation of a module, for which the event loop is run until it has nothing left to do.
pub struct ModuleEvaluation {
    pub event_loop_done: bool,
}

impl ModuleEvaluation {
    pub fn new() -> (evaluation: Self)
        ensures
            !evaluation.event_loop_done,
    {
        ModuleEvaluation { event_loop_done: false }
    }

    /// What to do after looking whether the module has ended. This is always looked at before the
    /// event loop is run, since not doing so leads to non-determinism for relatively simple
    /// programs.
    pub fn on_receiver(&self, received: Received) -> (step: EvaluationStep)
        ensures
            step == match received {
                Received::Ended(result) => EvaluationStep::Finished(result),
                Received::Canceled => EvaluationStep::NotProvided,
                Received::Pending => if self.event_loop_done {
                    EvaluationStep::Wait
                } else {
                    EvaluationStep::PollEventLoop
                },
            },
    {
        match received {
            Received::Ended(result) => EvaluationStep::Finished(result),
            Received::Canceled => EvaluationStep::NotProvided,
            Received::Pending => {
                if self.event_loop_done {
                    EvaluationStep::Wait
                } else {
                    EvaluationStep::PollEventLoop
                }
            },
        }
    }

    /// What to do after a turn of the event loop.
    pub fn on_event_loop(&mut self, turn: Turn) -> (step: EvaluationStep)
        ensures
            step == match turn {
                Turn::Ready(Err(error)) => EvaluationStep::Finished(Err(error)),
                Turn::Ready(Ok(_)) => EvaluationStep::PollReceiver,
                Turn::Pending { .. } => EvaluationStep::Wait,
            },
            final(self).event_loop_done == (old(self).event_loop_done || turn == Turn::Ready(
                Ok(()),
            )),
    {
        match turn {
            Turn::Ready(Err(error)) => EvaluationStep::Finished(Err(error)),
            Turn::Ready(Ok(unit)) => {
                assert(unit == ());
                self.event_loop_done = true;
                EvaluationStep::PollReceiver
            },
            Turn::Pending { .. } => EvaluationStep::Wait,
        }
    }
}

/// What to do next about a future that runs concurrently with the event loop.
#[derive(Clone, Copy, Debug, PartialEq, Eq, Structural)]
pub enum ConcurrentStep {
    /// The future has ended, and so has all.
    Return,
    /// Look whether the future has ended.
    PollFuture,
    /// Run a turn of the event loop.
    PollEventLoop,
    /// Wait to be woken.
    Wait,
}

impl ConcurrentStep {
    /// What to do after looking whether the future has ended, which comes before the event loop.
    pub fn on_future(ended: bool) -> (step: Self)
        ensures
            step == if ended {
                ConcurrentStep::Return
            } else {
                ConcurrentStep::PollEventLoop
            },
    {
        if ended {
            ConcurrentStep::Return
        } else {
            ConcurrentStep::PollEventLoop
        }
    }

    /// What to do after a turn of the event loop. Where that is over, well or with an error, it
    /// begins anew: only the future ends the waiting.
    pub fn on_event_loop(turn: &Turn) -> (step: Self)
        ensures
            step == match *turn {
                Turn::Ready(_) => ConcurrentStep::PollFuture,
                Turn::Pending { .. } => ConcurrentStep::Wait,
            },
    {
        match turn {
            Turn::Ready(_) => ConcurrentStep::PollFuture,
            Turn::Pending { .. } => ConcurrentStep::Wait,
        }
    }
}

} // verus!

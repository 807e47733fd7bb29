//! What a program is started with, and how it goes on.
use crate::backend::{BackendEvent, JsBackend, Run};
use crate::data::Value;
use crate::error::Error;
use crate::extension::{Extension, ExtensionFileSource};
use crate::handle::Global;
use crate::isolate::{IsolateId, IsolateIds, V8};
use crate::laws::runtimes::{has_main_module, is_load, lemma_script_events};
use crate::modules::ModuleId;
use crate::ops::OpDecl;
use crate::polyfills::{file, init, PolyfillOps, PolyfillSources};
use crate::realm_setup::RealmSetup;
use crate::snapshot::{build_snapshot, create_runtime_snapshot, runtime_files, RuntimeSources};
use crate::turn::Turn;
use crate::worker::{
    order_extensions, ConcurrentStep, ConnectionOptions, EvaluationStep, ExitCode, ExitCodes,
    InternalExtensions, MainWorker, ModuleEvaluation, PermissionOptions, Received, WorkerOptions,
};
use vstd::prelude::*;

verus! {

/// The extensions of a worker come in this order: the one that the polyfills depend on, the
/// polyfills, those of the runtime, the one with the permissions, and those of the embedder's own.
/// All of them are there.
pub proof fn workers_order_their_extensions(
    internal: InternalExtensions,
    polyfills: Vec<Extension>,
    permissions: Extension,
    own: Vec<Extension>,
    extensions: Vec<Extension>,
    i: int,
    k: int,
)
    requires
        call_ensures(order_extensions, (internal, polyfills, permissions, own), extensions),
        0 <= i < polyfills@.len(),
        0 <= k < own@.len(),
    ensures
        ({
            let after: int = polyfills@.len() as int + 1;
            &&& extensions@.len() == 20 + polyfills@.len() + own@.len()
            &&& extensions@[0] == internal.webidl
            &&& extensions@[1 + i] == polyfills@[i]
            &&& extensions@[after] == internal.fetch
            &&& extensions@[after + 1] == internal.websocket
            &&& extensions@[after + 2] == internal.runtime
            &&& extensions@[after + 3] == internal.spawn
            &&& extensions@[after + 4] == internal.fs_events
            &&& extensions@[after + 5] == internal.fs
            &&& extensions@[after + 6] == internal.io
            &&& extensions@[after + 7] == internal.stdio
            &&& extensions@[after + 8] == internal.tls
            &&& extensions@[after + 9] == internal.net
            &&& extensions@[after + 10] == internal.os
            &&& extensions@[after + 11] == internal.permissions
            &&& extensions@[after + 12] == internal.process
            &&& extensions@[after + 13] == internal.signal
            &&& extensions@[after + 14] == internal.tty
            &&& extensions@[after + 15] == internal.http
            &&& extensions@[after + 16] == internal.ops_http
            &&& extensions@[after + 17] == internal.js
            &&& extensions@[after + 18] == permissions
            &&& extensions@[after + 19 + k] == own@[k]
        }),
{
}

/// The worker's script was executed first, as it is.
pub open spec fn runs<B: JsBackend>(
    before: MainWorker<B>,
    after: MainWorker<B>,
    name: Seq<char>,
    source_code: Seq<char>,
    outcome: Result<(), Error>,
) -> bool {
    let earlier = before.js_runtime.v8_isolate.backend.events();
    let later = after.js_runtime.v8_isolate.backend.events();
    &&& later.len() > earlier.len()
    &&& later.take(earlier.len() as int) == earlier
    &&& later[earlier.len() as int] matches BackendEvent::Ran {
        run: Run::ExecuteScript { name: own_name, source_code: own_source, result },
        within: _,
    }
    &&& own_name == name
    &&& own_source == source_code
    &&& outcome is Ok <==> result is Some
    &&& outcome matches Err(error) ==> error is Js
    &&& after.exit_code == before.exit_code
    &&& after.js_runtime.extensions == before.js_runtime.extensions
}

proof fn lemma_runs<B: JsBackend>(
    before: MainWorker<B>,
    after: MainWorker<B>,
    name: Seq<char>,
    source_code: Seq<char>,
    outcome: Result<(), Error>,
)
    requires
        crate::worker::ran_script(before, after, name, source_code, outcome),
    ensures
        runs(before, after, name, source_code, outcome),
{
    let start = before.js_runtime.v8_isolate;
    let end = after.js_runtime.v8_isolate;
    let value = choose|value: Result<Global<Value>, Error>| #[trigger]
        crate::realm::executed(start, end, 0, name, source_code, value) && match value {
            Ok(_) => outcome is Ok,
            Err(error) => outcome == Err::<(), _>(error),
        };
    lemma_script_events(start, end, 0, name, source_code, value);
}

/// A worker executes the script that it is given, and succeeds exactly where the backend has a
/// result. It is started with its options in a call of the function for that, and tells JavaScript
/// of the events by their names.
pub proof fn workers_run_their_scripts<B: JsBackend>(
    worker: &mut MainWorker<B>,
    script_name: &str,
    text: &str,
    outcome: Result<(), Error>,
    started: &mut MainWorker<B>,
    boot: Result<(), Error>,
    loading: &mut MainWorker<B>,
    loaded: Result<(), Error>,
    unloading: &mut MainWorker<B>,
    unloaded: Result<(), Error>,
)
    requires
        call_ensures(MainWorker::<B>::execute_script, (worker, script_name, text), outcome),
        call_ensures(MainWorker::<B>::bootstrap, (started, script_name, text), boot),
        call_ensures(MainWorker::<B>::dispatch_load_event, (loading, script_name), loaded),
        call_ensures(MainWorker::<B>::dispatch_unload_event, (unloading, script_name), unloaded),
    ensures
        runs(*old(worker), *final(worker), script_name@, text@, outcome),
        runs(
            *old(started),
            *final(started),
            script_name@,
            "bootstrap.mainRuntime("@ + text@ + ")"@,
            boot,
        ),
        runs(
            *old(loading),
            *final(loading),
            script_name@,
            "dispatchEvent(new Event('load'))"@,
            loaded,
        ),
        runs(
            *old(unloading),
            *final(unloading),
            script_name@,
            "dispatchEvent(new Event('unload'))"@,
            unloaded,
        ),
{
    lemma_runs(*old(worker), *final(worker), script_name@, text@, outcome);
    lemma_runs(
        *old(started),
        *final(started),
        script_name@,
        "bootstrap.mainRuntime("@ + text@ + ")"@,
        boot,
    );
    lemma_runs(
        *old(loading),
        *final(loading),
        script_name@,
        "dispatchEvent(new Event('load'))"@,
        loaded,
    );
    lemma_runs(
        *old(unloading),
        *final(unloading),
        script_name@,
        "dispatchEvent(new Event('unload'))"@,
        unloaded,
    );
}

/// A worker is made of its options: nothing is made where a dependency or an entry point is missing,
/// and one that is made has the exit code that it is given and breaks where it is told.
pub proof fn workers_are_made_of_their_options<
    B: JsBackend,
    M: Fn(usize, OpDecl) -> OpDecl,
    F: Fn(usize) -> Result<(), Error>,
>(
    isolate_id: IsolateId,
    options: WorkerOptions<B>,
    internal: InternalExtensions,
    sources: PolyfillSources,
    ops: PolyfillOps,
    builtins: Extension,
    permissions_hook: usize,
    exit_code: ExitCode,
    middleware: M,
    init_state: F,
    made: Option<Result<(MainWorker<B>, RealmSetup), Error>>,
)
    requires
        call_ensures(
            MainWorker::<B>::from_options::<M, F>,
            (
                isolate_id,
                options,
                internal,
                &sources,
                &ops,
                builtins,
                permissions_hook,
                exit_code,
                &middleware,
                &init_state,
            ),
            made,
        ),
    ensures
        made matches Some(Ok((worker, setup))) ==> {
            &&& worker.exit_code == exit_code
            &&& worker.should_break_on_first_statement == options.should_break_on_first_statement
            &&& worker.js_runtime.v8_isolate.id == isolate_id
            &&& worker.js_runtime.v8_isolate.slots@.len() == 1
            &&& worker.js_runtime.extensions@.len() == 23 + options.extensions@.len()
            &&& worker.js_runtime.extensions@[0].name == internal.webidl.name
            &&& worker.js_runtime.extensions@[1].name@ == "deno_console"@
            &&& worker.js_runtime.extensions@[2].name@ == "deno_url"@
            &&& worker.js_runtime.extensions@[3].name@ == "deno_web"@
            &&& worker.js_runtime.extensions@[4].name == internal.fetch.name
            &&& worker.js_runtime.extensions@[5].name == internal.websocket.name
            &&& worker.js_runtime.extensions@[6].name == internal.runtime.name
            &&& worker.js_runtime.extensions@[7].name == internal.spawn.name
            &&& worker.js_runtime.extensions@[8].name == internal.fs_events.name
            &&& worker.js_runtime.extensions@[9].name == internal.fs.name
            &&& worker.js_runtime.extensions@[10].name == internal.io.name
            &&& worker.js_runtime.extensions@[11].name == internal.stdio.name
            &&& worker.js_runtime.extensions@[12].name == internal.tls.name
            &&& worker.js_runtime.extensions@[13].name == internal.net.name
            &&& worker.js_runtime.extensions@[14].name == internal.os.name
            &&& worker.js_runtime.extensions@[15].name == internal.permissions.name
            &&& worker.js_runtime.extensions@[16].name == internal.process.name
            &&& worker.js_runtime.extensions@[17].name == internal.signal.name
            &&& worker.js_runtime.extensions@[18].name == internal.tty.name
            &&& worker.js_runtime.extensions@[19].name == internal.http.name
            &&& worker.js_runtime.extensions@[20].name == internal.ops_http.name
            &&& worker.js_runtime.extensions@[21].name == internal.js.name
            &&& worker.js_runtime.extensions@[22].opstate_fn == Some(permissions_hook)
            &&& forall|k: int|
                0 <= k < options.extensions@.len() ==> worker.js_runtime.extensions@[23 + k].name
                    == (#[trigger] options.extensions@[k]).name
            &&& setup.init.extensions@.len() == 1
            &&& setup.init.extensions@[0].name == builtins.name
            &&& call_ensures(init_state, (permissions_hook,), Ok::<(), Error>(()))
        },
{
    let (polyfills, permissions) = choose|polyfills: Seq<Extension>, permissions: Extension|
        {
            let all = #[trigger] crate::worker::worker_extensions(
                internal,
                polyfills,
                permissions,
                options.extensions@,
            );
            &&& crate::polyfills::are_polyfills(polyfills, sources, ops)
            &&& crate::worker::permissions_extension(permissions_hook, permissions)
            &&& crate::worker::is_made(
                made,
                isolate_id,
                options,
                all,
                builtins,
                exit_code,
                middleware,
                init_state,
            )
        };
    let all = crate::worker::worker_extensions(
        internal,
        polyfills,
        permissions,
        options.extensions@,
    );
    if let Some(Ok((worker, setup))) = made {
        let whole = all + seq![builtins];
        assert(all[22] == permissions);
        assert(whole[22] == permissions);
        assert(worker.js_runtime.extensions@[0].name == all[0].name);
        assert(worker.js_runtime.extensions@[1].name == all[1].name);
        assert(worker.js_runtime.extensions@[2].name == all[2].name);
        assert(worker.js_runtime.extensions@[3].name == all[3].name);
        assert(worker.js_runtime.extensions@[4].name == all[4].name);
        assert(worker.js_runtime.extensions@[5].name == all[5].name);
        assert(worker.js_runtime.extensions@[6].name == all[6].name);
        assert(worker.js_runtime.extensions@[7].name == all[7].name);
        assert(worker.js_runtime.extensions@[8].name == all[8].name);
        assert(worker.js_runtime.extensions@[9].name == all[9].name);
        assert(worker.js_runtime.extensions@[10].name == all[10].name);
        assert(worker.js_runtime.extensions@[11].name == all[11].name);
        assert(worker.js_runtime.extensions@[12].name == all[12].name);
        assert(worker.js_runtime.extensions@[13].name == all[13].name);
        assert(worker.js_runtime.extensions@[14].name == all[14].name);
        assert(worker.js_runtime.extensions@[15].name == all[15].name);
        assert(worker.js_runtime.extensions@[16].name == all[16].name);
        assert(worker.js_runtime.extensions@[17].name == all[17].name);
        assert(worker.js_runtime.extensions@[18].name == all[18].name);
        assert(worker.js_runtime.extensions@[19].name == all[19].name);
        assert(worker.js_runtime.extensions@[20].name == all[20].name);
        assert(worker.js_runtime.extensions@[21].name == all[21].name);
        assert(worker.js_runtime.extensions@[22].opstate_fn == all[22].opstate_fn);
        assert forall|k: int| 0 <= k < options.extensions@.len() implies
            worker.js_runtime.extensions@[23 + k].name == (
        #[trigger] options.extensions@[k]).name by {
            assert(all[23 + k] == options.extensions@[k]);
            assert(worker.js_runtime.extensions@[23 + k].name == all[23 + k].name);
        }
        assert(all[1] == polyfills[0] && all[2] == polyfills[1] && all[3] == polyfills[2]);
        assert(setup.init.extensions@[0].name == seq![builtins][0].name);
    }
}

/// What extensions of a worker are made with is what the worker is made with.
pub proof fn options_are_handed_on<B>(
    options: WorkerOptions<B>,
    connection: ConnectionOptions,
    permission: PermissionOptions,
)
    requires
        call_ensures(WorkerOptions::<B>::connection_options, (&options,), connection),
        call_ensures(WorkerOptions::<B>::permission_options, (&options,), permission),
    ensures
        connection.user_agent@ == options.bootstrap.user_agent@,
        connection.root_cert_store == options.root_cert_store,
        connection.unstable == options.bootstrap.unstable,
        connection.unsafely_ignore_certificate_errors is Some
            <==> options.unsafely_ignore_certificate_errors is Some,
        connection.unsafely_ignore_certificate_errors is Some
            ==> connection.unsafely_ignore_certificate_errors->0@
            == options.unsafely_ignore_certificate_errors->0@,
        permission.unstable == options.bootstrap.unstable,
        permission.enable_testing_features == options.bootstrap.enable_testing_features,
{
}

/// A module that is evaluated is over when it has ended, as it has ended, whatever the event loop
/// does. While nothing is heard of it the event loop is run, until that has nothing left to do; an
/// error of the event loop ends it as well.
pub proof fn evaluations_end_with_the_module(
    evaluation: ModuleEvaluation,
    received: Received,
    step: EvaluationStep,
    later: &mut ModuleEvaluation,
    turn: Turn,
    turn_step: EvaluationStep,
    fresh: ModuleEvaluation,
)
    requires
        call_ensures(ModuleEvaluation::on_receiver, (&evaluation, received), step),
        call_ensures(ModuleEvaluation::on_event_loop, (later, turn), turn_step),
        call_ensures(ModuleEvaluation::new, (), fresh),
    ensures
        !fresh.event_loop_done,
        received matches Received::Ended(result) ==> step == EvaluationStep::Finished(result),
        received is Canceled ==> step is NotProvided,
        received is Pending && evaluation.event_loop_done ==> step is Wait,
        received is Pending && !evaluation.event_loop_done ==> step is PollEventLoop,
        turn matches Turn::Ready(Ok(_)) ==> turn_step is PollReceiver
            && final(later).event_loop_done,
        turn matches Turn::Ready(Err(error)) ==> turn_step == EvaluationStep::Finished(Err(error))
            && final(later).event_loop_done == old(later).event_loop_done,
        turn is Pending ==> turn_step is Wait && final(later).event_loop_done
            == old(later).event_loop_done,
{
    if let Turn::Ready(Ok(unit)) = turn {
        assert(unit == ());
    }
}

/// A future that runs beside the event loop is looked at first, and it alone ends the waiting: the
/// event loop is run anew whenever it is over, even with an error.
pub proof fn futures_end_the_waiting(
    ended: bool,
    step: ConcurrentStep,
    turn: Turn,
    turn_step: ConcurrentStep,
)
    requires
        call_ensures(ConcurrentStep::on_future, (ended,), step),
        call_ensures(ConcurrentStep::on_event_loop, (&turn,), turn_step),
    ensures
        ended <==> step == ConcurrentStep::Return,
        !ended ==> step == ConcurrentStep::PollEventLoop,
        turn is Ready ==> turn_step == ConcurrentStep::PollFuture,
        turn is Pending ==> turn_step == ConcurrentStep::Wait,
{
}

/// An exit code begins at zero, is what was set last through any of its clones, and is no other
/// worker's.
pub proof fn exit_codes_are_set_and_read(
    codes: &mut ExitCodes,
    added: ExitCode,
    other: ExitCode,
    set_code: &mut ExitCode,
    set_codes: &mut ExitCodes,
    code: i32,
    later: ExitCodes,
    clone: ExitCode,
    read: i32,
    before: ExitCodes,
    other_before: i32,
    other_after: i32,
)
    requires
        call_ensures(ExitCodes::add, (codes,), added),
        old(set_code).is_of(*old(set_codes)),
        call_ensures(ExitCode::set, (set_code, set_codes, code), ()),
        call_ensures(ExitCode::clone, (old(set_code),), clone),
        later == *final(set_codes),
        before == *old(set_codes),
        call_ensures(ExitCode::get, (&clone, &later), read),
        other.is_of(before),
        other != *old(set_code),
        call_ensures(ExitCode::get, (&other, &before), other_before),
        call_ensures(ExitCode::get, (&other, &later), other_after),
    ensures
        added.is_of(*final(codes)),
        !added.is_of(*old(codes)),
        final(codes).codes@[added.place as int] == 0,
        forall|i: int|
            0 <= i < old(codes).codes@.len() ==> final(codes).codes@[i] == old(codes).codes@[i],
        read == code,
        other_after == other_before,
{
}

/// The file has this specifier and this code.
pub open spec fn is_file(file: ExtensionFileSource, specifier: Seq<char>, code: Seq<char>) -> bool {
    file.specifier@ == specifier && file.code@ == code
}

/// The polyfills are a console, URLs and what web APIs share, each with its files, its ops and what
/// it depends on.
pub proof fn polyfills_are_these(
    sources: PolyfillSources,
    ops: PolyfillOps,
    extensions: Vec<Extension>,
)
    requires
        call_ensures(init, (&sources, &ops), extensions),
    ensures
        extensions@.len() == 3,
        ({
            let console = extensions@[0];
            &&& console.name@ == "deno_console"@
            &&& console.deps@.len() == 0
            &&& console.ops is None
            &&& console.esm_files@.len() == 2
            &&& is_file(console.esm_files@[0], "01_colors.js"@, sources.colors@)
            &&& is_file(console.esm_files@[1], "02_console.js"@, sources.console@)
        }),
        ({
            let url = extensions@[1];
            &&& url.name@ == "deno_url"@
            &&& url.deps@.len() == 1
            &&& url.deps@[0]@ == "deno_webidl"@
            &&& url.ops matches Some(own)
            &&& own@.len() == 1
            &&& own@[0] == ops.op_url_parse_search_params
            &&& url.esm_files@.len() == 1
            &&& is_file(url.esm_files@[0], "00_url.js"@, sources.url@)
        }),
        ({
            let web = extensions@[2];
            &&& web.name@ == "deno_web"@
            &&& web.deps@.len() == 3
            &&& web.deps@[0]@ == "deno_webidl"@
            &&& web.deps@[1]@ == "deno_console"@
            &&& web.deps@[2]@ == "deno_url"@
            &&& web.ops matches Some(own)
            &&& own@.len() == 2
            &&& own@[0] == ops.op_base64_decode
            &&& own@[1] == ops.op_base64_encode
            &&& web.esm_files@.len() == 8
            &&& is_file(web.esm_files@[0], "00_infra.js"@, sources.infra@)
            &&& is_file(web.esm_files@[1], "01_dom_exception.js"@, sources.dom_exception@)
            &&& is_file(web.esm_files@[2], "01_mimesniff.js"@, sources.mimesniff@)
            &&& is_file(web.esm_files@[3], "02_event.js"@, sources.event@)
            &&& is_file(web.esm_files@[4], "03_abort_signal.js"@, sources.abort_signal@)
            &&& is_file(web.esm_files@[5], "06_streams.js"@, sources.streams@)
            &&& is_file(web.esm_files@[6], "09_file.js"@, sources.file@)
            &&& is_file(web.esm_files@[7], "12_location.js"@, sources.location@)
        }),
        forall|i: int|
            0 <= i < 3 ==> (#[trigger] extensions@[i]).js_files@.len() == 0
                && extensions@[i].esm_entry_point is None && extensions@[i].middleware_fn is None
                && extensions@[i].opstate_fn is None && extensions@[i].event_loop_middleware
                is None,
{
}

/// These are the files of the runtime's own JavaScript.
pub open spec fn are_runtime_files(
    files: Seq<ExtensionFileSource>,
    sources: RuntimeSources,
) -> bool {
    &&& files.len() == 22
    &&& is_file(files[0], "js/01_build.js"@, sources.build@)
    &&& is_file(files[1], "js/01_errors.js"@, sources.errors@)
    &&& is_file(files[2], "js/01_version.ts"@, sources.version@)
    &&& is_file(files[3], "js/06_util.js"@, sources.util@)
    &&& is_file(files[4], "js/10_permissions.js"@, sources.permissions@)
    &&& is_file(files[5], "js/12_io.js"@, sources.io@)
    &&& is_file(files[6], "js/13_buffer.js"@, sources.buffer@)
    &&& is_file(files[7], "js/30_fs.js"@, sources.fs@)
    &&& is_file(files[8], "js/30_os.js"@, sources.os@)
    &&& is_file(files[9], "js/40_diagnostics.js"@, sources.diagnostics@)
    &&& is_file(files[10], "js/40_files.js"@, sources.files@)
    &&& is_file(files[11], "js/40_fs_events.js"@, sources.fs_events@)
    &&& is_file(files[12], "js/40_http.js"@, sources.http@)
    &&& is_file(files[13], "js/40_process.js"@, sources.process@)
    &&& is_file(files[14], "js/40_read_file.js"@, sources.read_file@)
    &&& is_file(files[15], "js/40_signals.js"@, sources.signals@)
    &&& is_file(files[16], "js/40_spawn.js"@, sources.spawn@)
    &&& is_file(files[17], "js/40_tty.js"@, sources.tty@)
    &&& is_file(files[18], "js/40_write_file.js"@, sources.write_file@)
    &&& is_file(files[19], "js/41_prompt.js"@, sources.prompt@)
    &&& is_file(files[20], "js/90_deno_ns.js"@, sources.deno_ns@)
    &&& is_file(files[21], "js/98_global_scope.js"@, sources.global_scope@)
}

/// This is the extension with the runtime's own JavaScript.
pub open spec fn is_runtime(extension: Extension, sources: RuntimeSources) -> bool {
    let deps = extension.deps@;
    &&& extension.name@ == "runtime"@
    &&& are_runtime_files(extension.esm_files@, sources)
    &&& extension.esm_entry_point is None
    &&& extension.js_files@.len() == 0
    &&& extension.ops is None
    &&& deps.len() == 17
    &&& deps[0]@ == "deno_webidl"@
    &&& deps[1]@ == "deno_console"@
    &&& deps[2]@ == "deno_url"@
    &&& deps[3]@ == "deno_tls"@
    &&& deps[4]@ == "deno_web"@
    &&& deps[5]@ == "deno_fetch"@
    &&& deps[6]@ == "deno_cache"@
    &&& deps[7]@ == "deno_websocket"@
    &&& deps[8]@ == "deno_webstorage"@
    &&& deps[9]@ == "deno_crypto"@
    &&& deps[10]@ == "deno_webgpu"@
    &&& deps[11]@ == "deno_broadcast_channel"@
    &&& deps[12]@ == "deno_ffi"@
    &&& deps[13]@ == "deno_net"@
    &&& deps[14]@ == "deno_napi"@
    &&& deps[15]@ == "deno_http"@
    &&& deps[16]@ == "deno_flash"@
}

/// A snapshot is made of the runtime's extension, and of one more where it is given. The main module
/// comes last, in an extension that depends on the runtime's.
pub proof fn snapshots_are_made_of_these(
    sources: RuntimeSources,
    files: Vec<ExtensionFileSource>,
    additional: Option<Extension>,
    extensions: Vec<Extension>,
    main_code: &'static str,
    built: Vec<Extension>,
)
    requires
        call_ensures(runtime_files, (&sources,), files),
        call_ensures(create_runtime_snapshot, (&sources, additional), extensions),
        call_ensures(build_snapshot, (&sources, main_code), built),
    ensures
        are_runtime_files(files@, sources),
        is_runtime(extensions@[0], sources),
        additional is None ==> extensions@.len() == 1,
        additional matches Some(more) ==> extensions@.len() == 2 && extensions@[1] == more,
        built@.len() == 2,
        is_runtime(built@[0], sources),
        built@[1].name@ == "runtime_main"@,
        built@[1].deps@.len() == 1,
        built@[1].deps@[0]@ == "runtime"@,
        built@[1].esm_files@.len() == 1,
        is_file(built@[1].esm_files@[0], "js/99_main.js"@, main_code@),
{
}

/// A module is loaded as main or side module, as it is told: handed to the backend once, without
/// code, under the next number. A second main module changes nothing.
pub proof fn workers_load_modules<B: JsBackend>(
    worker: &mut MainWorker<B>,
    specifier: &str,
    main: bool,
    loaded: Result<ModuleId, Error>,
)
    requires
        old(worker).js_runtime.is_set_up(),
        call_ensures(MainWorker::<B>::preload_module, (worker, specifier, main), loaded),
    ensures
        !main ==> loaded is Ok,
        main && !has_main_module(old(worker).js_runtime.v8_isolate.module_map->0) ==> loaded is Ok,
        main && has_main_module(old(worker).js_runtime.v8_isolate.module_map->0) ==> loaded is Err,
        loaded is Err ==> final(worker).js_runtime == old(worker).js_runtime,
        loaded matches Ok(id) ==> {
            let earlier = old(worker).js_runtime.v8_isolate.backend.events();
            let later = final(worker).js_runtime.v8_isolate.backend.events();
            &&& id == old(worker).js_runtime.v8_isolate.module_map->0.next_module_id
            &&& later.len() == earlier.len() + 1
            &&& is_load(later.last(), id, specifier@, None)
            &&& final(worker).js_runtime.v8_isolate.module_map->0.by_id@[id].main == main
            &&& final(worker).js_runtime.v8_isolate.module_map->0.by_id@[id].name@ == specifier@
        },
{
    let modules = old(worker).js_runtime.v8_isolate.module_map->0;
    if has_main_module(modules) {
        let id = choose|id: ModuleId| #[trigger]
            modules.by_id@.contains_key(id) && modules.by_id@[id].main;
        assert(modules.is_main(id));
    } else if modules.has_main() {
        let id = choose|id: ModuleId| modules.is_main(id);
        assert(modules.by_id@.contains_key(id) && modules.by_id@[id].main);
    }
}

/// The version that is told is always the same.
pub proof fn version_is_told(version: &'static str)
    requires
        call_ensures(V8::get_version, (), version),
    ensures
        version@ == "10.4.20.69+deno_minus_v8_shim"@,
{
}

/// A file has the specifier and the code that it is made with, and so has its copy. Isolates of a
/// program get numbers that were not given out before.
pub proof fn files_and_isolates_are_told_apart(
    specifier: &'static str,
    code: &'static str,
    made: ExtensionFileSource,
    copy: ExtensionFileSource,
    ids: IsolateIds,
    giving: &mut IsolateIds,
    id: Option<IsolateId>,
)
    requires
        call_ensures(file, (specifier, code), made),
        call_ensures(ExtensionFileSource::clone, (&made,), copy),
        call_ensures(IsolateIds::new, (), ids),
        call_ensures(IsolateIds::next, (giving,), id),
    ensures
        is_file(made, specifier@, code@),
        copy == made,
        ids.given() == 0,
        id matches Some(id) ==> id.number() >= old(giving).given() && id.number()
            < final(giving).given(),
        id is None ==> old(giving).given() == u64::MAX,
{
}

} // verus!

//! The extensions that the runtime's own JavaScript comes in.
use crate::extension::{Extension, ExtensionFileSource};
use crate::polyfills::{are_files, file, is_plain};
use vstd::prelude::*;

verus! {

/// The extensions that the runtime's JavaScript depends on.
pub open spec fn runtime_dependencies() -> Seq<&'static str> {
    seq![
        "deno_webidl",
        "deno_console",
        "deno_url",
        "deno_tls",
        "deno_web",
        "deno_fetch",
        "deno_cache",
        "deno_websocket",
        "deno_webstorage",
        "deno_crypto",
        "deno_webgpu",
        "deno_broadcast_channel",
        "deno_ffi",
        "deno_net",
        "deno_napi",
        "deno_http",
        "deno_flash",
    ]
}

/// The sources of the runtime's JavaScript files.
pub struct RuntimeSources {
    pub build: &'static str,
    pub errors: &'static str,
    pub version: &'static str,
    pub util: &'static str,
    pub permissions: &'static str,
    pub io: &'static str,
    pub buffer: &'static str,
    pub fs: &'static str,
    pub os: &'static str,
    pub diagnostics: &'static str,
    pub files: &'static str,
    pub fs_events: &'static str,
    pub http: &'static str,
    pub process: &'static str,
    pub read_file: &'static str,
    pub signals: &'static str,
    pub spawn: &'static str,
    pub tty: &'static str,
    pub write_file: &'static str,
    pub prompt: &'static str,
    pub deno_ns: &'static str,
    pub global_scope: &'static str,
}

impl RuntimeSources {
    /// The files by specifier and source, in the order in which they are evaluated.
    pub open spec fn files(self) -> Seq<(&'static str, &'static str)> {
        seq![
            ("js/01_build.js", self.build),
            ("js/01_errors.js", self.errors),
            ("js/01_version.ts", self.version),
            ("js/06_util.js", self.util),
            ("js/10_permissions.js", self.permissions),
            ("js/12_io.js", self.io),
            ("js/13_buffer.js", self.buffer),
            ("js/30_fs.js", self.fs),
            ("js/30_os.js", self.os),
            ("js/40_diagnostics.js", self.diagnostics),
            ("js/40_files.js", self.files),
            ("js/40_fs_events.js", self.fs_events),
            ("js/40_http.js", self.http),
            ("js/40_process.js", self.process),
            ("js/40_read_file.js", self.read_file),
            ("js/40_signals.js", self.signals),
            ("js/40_spawn.js", self.spawn),
            ("js/40_tty.js", self.tty),
            ("js/40_write_file.js", self.write_file),
            ("js/41_prompt.js", self.prompt),
            ("js/90_deno_ns.js", self.deno_ns),
            ("js/98_global_scope.js", self.global_scope),
        ]
    }
}

/// The runtime's JavaScript files, in the order in which they are evaluated.
pub fn runtime_files(sources: &RuntimeSources) -> (files: Vec<ExtensionFileSource>)
    ensures
        are_files(files@, sources.files()),
{
    vec![
        file("js/01_build.js", sources.build),
        file("js/01_errors.js", sources.errors),
        file("js/01_version.ts", sources.version),
        file("js/06_util.js", sources.util),
        file("js/10_permissions.js", sources.permissions),
        file("js/12_io.js", sources.io),
        file("js/13_buffer.js", sources.buffer),
        file("js/30_fs.js", sources.fs),
        file("js/30_os.js", sources.os),
        file("js/40_diagnostics.js", sources.diagnostics),
        file("js/40_files.js", sources.files),
        file("js/40_fs_events.js", sources.fs_events),
        file("js/40_http.js", sources.http),
        file("js/40_process.js", sources.process),
        file("js/40_read_file.js", sources.read_file),
        file("js/40_signals.js", sources.signals),
        file("js/40_spawn.js", sources.spawn),
        file("js/40_tty.js", sources.tty),
        file("js/40_write_file.js", sources.write_file),
        file("js/41_prompt.js", sources.prompt),
        file("js/90_deno_ns.js", sources.deno_ns),
        file("js/98_global_scope.js", sources.global_scope),
    ]
}

/// The extension with the runtime's JavaScript files.
pub open spec fn is_runtime_extension(extension: Extension, sources: RuntimeSources) -> bool {
    &&& extension.name == "runtime"
    &&& extension.deps@ == runtime_dependencies()
    &&& are_files(extension.esm_files@, sources.files())
    &&& extension.ops is None
    &&& extension.js_files@.len() == 0
    &&& extension.esm_entry_point is None
    &&& extension.middleware_fn is None
    &&& extension.opstate_fn is None
    &&& extension.event_loop_middleware is None
}

/// The runtime's extension, and one more where there is one.
pub fn create_runtime_snapshot(
    sources: &RuntimeSources,
    maybe_additional_extension: Option<Extension>,
) -> (extensions_with_js: Vec<Extension>)
    ensures
        is_runtime_extension(extensions_with_js@[0], *sources),
        match maybe_additional_extension {
            Some(additional) => extensions_with_js@.len() == 2 && extensions_with_js@[1]
                == additional,
            None => extensions_with_js@.len() == 1,
        },
{
    let dependencies = vec![
        "deno_webidl",
        "deno_console",
        "deno_url",
        "deno_tls",
        "deno_web",
        "deno_fetch",
        "deno_cache",
        "deno_websocket",
        "deno_webstorage",
        "deno_crypto",
        "deno_webgpu",
        "deno_broadcast_channel",
        "deno_ffi",
        "deno_net",
        "deno_napi",
        "deno_http",
        "deno_flash",
    ];
    assert(dependencies@ =~= runtime_dependencies());
    let runtime_extension = Extension::builder("runtime").dependencies(dependencies).esm(
        runtime_files(sources),
    );
    let mut extensions_with_js = vec![runtime_extension];
    if let Some(additional_extension) = maybe_additional_extension {
        extensions_with_js.push(additional_extension);
    }
    extensions_with_js
}

/// The runtime's extension, and the one with its main module.
pub fn build_snapshot(sources: &RuntimeSources, main_code: &'static str) -> (extensions: Vec<
    Extension,
>)
    ensures
        extensions@.len() == 2,
        is_runtime_extension(extensions@[0], *sources),
        is_plain(
            extensions@[1],
            "runtime_main",
            seq!["runtime"],
            seq![("js/99_main.js", main_code)],
            None,
        ),
{
    let deps = vec!["runtime"];
    let main = Extension::builder("runtime_main").dependencies(deps).esm(
        vec![file("js/99_main.js", main_code)],
    );
    assert(main.deps@ =~= seq!["runtime"]);
    create_runtime_snapshot(sources, Some(main))
}

} // verus!

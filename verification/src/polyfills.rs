//! Extensions that take the place of ones that only work on V8.
use crate::extension::{Extension, ExtensionFileSource};
use crate::ops::OpDecl;
use vstd::prelude::*;

verus! {

/// The sources of the polyfills' JavaScript files.
pub struct PolyfillSources {
    pub colors: &'static str,
    pub console: &'static str,
    pub url: &'static str,
    pub infra: &'static str,
    pub dom_exception: &'static str,
    pub mimesniff: &'static str,
    pub event: &'static str,
    pub abort_signal: &'static str,
    pub streams: &'static str,
    pub file: &'static str,
    pub location: &'static str,
}

/// The ops that the polyfills need.
pub struct PolyfillOps {
    pub op_url_parse_search_params: OpDecl,
    pub op_base64_decode: OpDecl,
    pub op_base64_encode: OpDecl,
}

/// A module of an extension.
pub fn file(specifier: &'static str, code: &'static str) -> (file: ExtensionFileSource)
    ensures
        file.specifier@ == specifier@,
        file.code == code,
{
    ExtensionFileSource { specifier: specifier.to_owned(), code }
}

/// The files are these, by specifier and source.
pub open spec fn are_files(
    files: Seq<ExtensionFileSource>,
    sources: Seq<(&'static str, &'static str)>,
) -> bool {
    &&& files.len() == sources.len()
    &&& forall|i: int|
        0 <= i < files.len() ==> (#[trigger] files[i]).specifier@ == sources[i].0@ && files[i].code
            == sources[i].1
}

/// An extension that has a name, dependencies, modules and ops, and nothing else.
pub open spec fn is_plain(
    extension: Extension,
    name: &'static str,
    deps: Seq<&'static str>,
    modules: Seq<(&'static str, &'static str)>,
    ops: Option<Seq<OpDecl>>,
) -> bool {
    &&& extension.name == name
    &&& extension.deps@ == deps
    &&& are_files(extension.esm_files@, modules)
    &&& match ops {
        Some(ops) => extension.ops matches Some(own) && own@ == ops,
        None => extension.ops is None,
    }
    &&& extension.js_files@.len() == 0
    &&& extension.esm_entry_point is None
    &&& extension.middleware_fn is None
    &&& extension.opstate_fn is None
    &&& extension.event_loop_middleware is None
}

/// These are the polyfills: a console, URLs, and what web APIs share.
pub open spec fn are_polyfills(
    extensions: Seq<Extension>,
    sources: PolyfillSources,
    ops: PolyfillOps,
) -> bool {
    &&& extensions.len() == 3
    &&& is_plain(
        extensions[0],
        "deno_console",
        seq![],
        seq![("01_colors.js", sources.colors), ("02_console.js", sources.console)],
        None,
    )
    &&& is_plain(
        extensions[1],
        "deno_url",
        seq!["deno_webidl"],
        seq![("00_url.js", sources.url)],
        Some(seq![ops.op_url_parse_search_params]),
    )
    &&& is_plain(
        extensions[2],
        "deno_web",
        seq!["deno_webidl", "deno_console", "deno_url"],
        seq![
            ("00_infra.js", sources.infra),
            ("01_dom_exception.js", sources.dom_exception),
            ("01_mimesniff.js", sources.mimesniff),
            ("02_event.js", sources.event),
            ("03_abort_signal.js", sources.abort_signal),
            ("06_streams.js", sources.streams),
            ("09_file.js", sources.file),
            ("12_location.js", sources.location),
        ],
        Some(seq![ops.op_base64_decode, ops.op_base64_encode]),
    )
}

pub fn init(sources: &PolyfillSources, ops: &PolyfillOps) -> (extensions: Vec<Extension>)
    ensures
        are_polyfills(extensions@, *sources, *ops),
{
    let console = Extension::builder("deno_console").esm(
        vec![file("01_colors.js", sources.colors), file("02_console.js", sources.console)],
    );
    let url_deps = vec!["deno_webidl"];
    let url_ops = vec![ops.op_url_parse_search_params];
    let url = Extension::builder("deno_url").dependencies(url_deps).esm(
        vec![file("00_url.js", sources.url)],
    ).ops(url_ops);
    let web_deps = vec!["deno_webidl", "deno_console", "deno_url"];
    let web_ops = vec![ops.op_base64_decode, ops.op_base64_encode];
    let web = Extension::builder("deno_web").dependencies(web_deps).esm(
        vec![
            file("00_infra.js", sources.infra),
            file("01_dom_exception.js", sources.dom_exception),
            file("01_mimesniff.js", sources.mimesniff),
            file("02_event.js", sources.event),
            file("03_abort_signal.js", sources.abort_signal),
            file("06_streams.js", sources.streams),
            file("09_file.js", sources.file),
            file("12_location.js", sources.location),
        ],
    ).ops(web_ops);
    proof {
        assert(url.deps@ =~= seq!["deno_webidl"]);
        assert(url_ops@ =~= seq![ops.op_url_parse_search_params]);
        assert(web.deps@ =~= seq!["deno_webidl", "deno_console", "deno_url"]);
        assert(web_ops@ =~= seq![ops.op_base64_decode, ops.op_base64_encode]);
    }
    vec![console, url, web]
}

} // verus!

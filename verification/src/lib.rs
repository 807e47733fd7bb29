//! The parts of the Deno runtime that stand between native code and a JavaScript
//! backend other than V8, with the contracts that they keep.

pub mod backend;
pub mod bindings;
pub mod data;
pub mod double;
pub mod error;
pub mod event_loop;
pub mod extension;
pub mod extension_js;
pub mod function;
pub mod handle;
pub mod isolate;
pub mod laws;
pub mod modules;
pub mod names;
pub mod ops;
pub mod ops_builtin_v8;
pub mod pending;
pub mod polyfills;
pub mod realm;
pub mod realm_setup;
pub mod runtime;
pub mod scope;
pub mod serde;
pub mod snapshot;
pub mod state;
pub mod text;
pub mod turn;
pub mod worker;
pub mod wrappers;

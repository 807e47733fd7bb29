//! What native code keeps for a context and for a runtime.
use crate::data::{Function, Value};
use crate::handle::{Global, Weak};
use crate::isolate::Context;
use crate::ops::{OpCtx, OpState};
use crate::pending::PendingOps;
use std::collections::{HashSet, VecDeque};
use vstd::prelude::*;

verus! {

/// What native code keeps for a context.
pub struct ContextState {
    pub js_recv_cb: Option<Global<Function>>,
    pub js_build_custom_error_cb: Option<Global<Function>>,
    pub js_promise_reject_cb: Option<Global<Function>>,
    pub js_format_exception_cb: Option<Global<Function>>,
    /// The promises of pending ops that do not keep the event loop going.
    pub unrefed_ops: HashSet<i32>,
    pub op_ctxs: Vec<OpCtx>,
}

impl ContextState {
    /// The state of a context in which nothing was set up but its ops.
    pub open spec fn is_fresh(self, op_ctxs: Seq<OpCtx>) -> bool {
        &&& self.js_recv_cb is None
        &&& self.js_build_custom_error_cb is None
        &&& self.js_promise_reject_cb is None
        &&& self.js_format_exception_cb is None
        &&& self.unrefed_ops@ == Set::<i32>::empty()
        &&& self.op_ctxs@ == op_ctxs
    }

    /// What native code that JavaScript calls leaves as it was `before`.
    pub open spec fn keeps(self, before: ContextState) -> bool {
        &&& self.js_recv_cb == before.js_recv_cb
        &&& self.js_build_custom_error_cb == before.js_build_custom_error_cb
        &&& self.op_ctxs == before.op_ctxs
    }

    pub fn new(op_ctxs: Vec<OpCtx>) -> (state: Self)
        ensures
            state.is_fresh(op_ctxs@),
    {
        ContextState {
            js_recv_cb: None,
            js_build_custom_error_cb: None,
            js_promise_reject_cb: None,
            js_format_exception_cb: None,
            unrefed_ops: HashSet::new(),
            op_ctxs,
        }
    }
}

/// A reference to an execution context of JavaScript.
pub struct JsRealm(pub Global<Context>);

/// Internal state for JsRuntime which is stored in one of the isolate's embedder slots.
pub struct JsRuntimeState {
    pub global_realm: Option<JsRealm>,
    pub known_realms: Vec<Weak<Context>>,
    pub js_macrotask_cbs: Vec<Global<Function>>,
    pub js_nexttick_cbs: Vec<Global<Function>>,
    pub has_tick_scheduled: bool,
    pub pending_ops: PendingOps,
    pub have_unpolled_ops: bool,
    pub op_state: OpState,
    /// The errors that were passed to `op_dispatch_exception`, the latest first.
    pub dispatched_exceptions: VecDeque<Global<Value>>,
}

impl JsRuntimeState {
    /// What native code that JavaScript calls leaves as it was `before`.
    pub open spec fn keeps(self, before: JsRuntimeState) -> bool {
        &&& self.global_realm == before.global_realm
        &&& self.known_realms == before.known_realms
        &&& self.op_state.tracker.completed_async@.len()
            == before.op_state.tracker.completed_async@.len()
    }
}

} // verus!

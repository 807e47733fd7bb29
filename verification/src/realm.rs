//! Execution contexts of JavaScript.
use crate::backend::{ran, JsBackend, Run};
use crate::data::{undefined, Object, Value};
use crate::error::Error;
use crate::event_loop::{exception_to_err_result, is_reported};
use crate::handle::{Global, HandleInternal, Local};
use crate::isolate::{Context, Isolate};
use crate::ops::RealmIdx;
use crate::scope::{HandleScope, TryCatch};
use crate::state::{ContextState, JsRealm};
use vstd::prelude::*;

verus! {

impl Clone for JsRealm {
    fn clone(&self) -> (copy: Self)
        ensures
            copy == *self,
    {
        JsRealm(self.0.clone())
    }
}

impl JsRealm {
    pub fn new(context: Global<Context>) -> (realm: Self)
        ensures
            realm.0 == context,
    {
        JsRealm(context)
    }

    pub fn context(&self) -> (context: &Global<Context>)
        ensures
            *context == self.0,
    {
        &self.0
    }

    /// The realm is one of this isolate.
    pub open spec fn is_of<B>(self, isolate: Isolate<B>) -> bool {
        self.0.value().is_of(isolate)
    }

    /// The place of the realm among those of its isolate.
    pub open spec fn idx(self) -> RealmIdx {
        self.0.value().realm_idx
    }

    /// Whether the realm is one of this isolate.
    pub fn belongs_to<B>(&self, isolate: &Isolate<B>) -> (yes: bool)
        ensures
            yes == self.is_of(*isolate),
    {
        let context = self.0.get_data();
        context.isolate_id == isolate.id.number() && context.realm_idx < isolate.slots.len()
    }

    /// What native code keeps for the realm.
    pub fn state<'a, B>(&self, isolate: &'a Isolate<B>) -> (state: &'a ContextState)
        requires
            self.is_of(*isolate),
        ensures
            *state == isolate.slots@[self.idx() as int],
    {
        &isolate.slots[self.0.get_data().realm_idx]
    }

    /// What native code keeps for the realm that a scope is in.
    pub fn state_from_scope<'a, B>(scope: &'a HandleScope<'_, B>) -> (state: &'a ContextState)
        requires
            scope.realm_idx < scope.isolate.slots@.len(),
        ensures
            *state == old(scope.isolate).slots@[scope.realm_idx as int],
    {
        &scope.isolate.slots[scope.realm_idx]
    }

    /// A scope in the realm.
    pub fn handle_scope<'s, B>(&self, isolate: &'s mut Isolate<B>) -> (scope: HandleScope<'s, B>)
        requires
            self.is_of(*old(isolate)),
        ensures
            *scope.isolate == *old(isolate),
            *final(scope.isolate) == *final(isolate),
            scope.realm_idx == self.idx(),
    {
        HandleScope::with_context(isolate, &self.0)
    }

    pub fn global_object<'s, B>(&self, isolate: &'s mut Isolate<B>) -> (object: Local<'s, Object>)
        requires
            self.is_of(*old(isolate)),
        ensures
            object.value() == self.0.value().global.value(),
            *final(isolate) == *old(isolate),
    {
        let mut scope = self.handle_scope(isolate);
        self.0.get_data().global(&mut scope)
    }

    /// Executes traditional JavaScript code (traditional = not ES modules) in the
    /// realm's context.
    ///
    /// `name` can be a filepath or any other string, eg.
    ///
    ///   - "/some/file/path.js"
    ///   - "<anon>"
    ///   - "[native code]"
    ///
    /// The same `name` value can be used for multiple executions.
    ///
    /// The error is a [`crate::error::JsError`], and comes where the backend has no result.
    pub fn execute_script<B: JsBackend>(
        &self,
        isolate: &mut Isolate<B>,
        name: &str,
        source_code: &str,
    ) -> (outcome: Result<Global<Value>, Error>)
        requires
            old(isolate).state is Some,
            self.is_of(*old(isolate)),
        ensures
            executed(*old(isolate), *final(isolate), self.idx(), name@, source_code@, outcome),
            final(isolate).keeps(*old(isolate)),
    {
        let ghost before = *isolate;
        let outcome = {
            let mut scope = self.handle_scope(isolate);
            let mut tc_scope = TryCatch::new(&mut scope);
            match run_script(&mut *tc_scope.inner, name, source_code) {
                Some(value) => Ok(value),
                None => {
                    let exception = match tc_scope.exception() {
                        Some(exception) => exception,
                        None => undefined(&mut *tc_scope.inner),
                    };
                    report(&mut *tc_scope.inner, exception, Ghost(before), name, source_code)
                },
            }
        };
        match outcome {
            Ok(value) => Ok(Global::from_raw(isolate, value).unwrap()),
            Err(error) => Err(error),
        }
    }
}

/// The backend was told to execute a script, and its result is there. Where there is none, the
/// error is what is reported of it.
pub open spec fn executed<B: JsBackend>(
    before: Isolate<B>,
    after: Isolate<B>,
    realm_idx: RealmIdx,
    name: Seq<char>,
    source_code: Seq<char>,
    outcome: Result<Global<Value>, Error>,
) -> bool {
    match outcome {
        Ok(handle) => ran(
            before,
            after,
            Run::ExecuteScript { name, source_code, result: Some(handle.value()) },
        ),
        Err(error) => failed_script(before, after, realm_idx, name, source_code, error),
    }
}

/// The backend had no result of a script, and the error is what is reported of it.
pub open spec fn failed_script<B: JsBackend>(
    before: Isolate<B>,
    after: Isolate<B>,
    realm_idx: RealmIdx,
    name: Seq<char>,
    source_code: Seq<char>,
    error: Error,
) -> bool {
    exists|middle: Isolate<B>| #[trigger]
        ran(before, middle, Run::ExecuteScript { name, source_code, result: None })
            && is_reported(middle, after, realm_idx, Value::Undefined, false, error)
}

/// The error of a script that the backend had no result of.
fn report<'s, B: JsBackend>(
    scope: &mut HandleScope<'s, B>,
    exception: Local<'s, Value>,
    before: Ghost<Isolate<B>>,
    name: &str,
    source_code: &str,
) -> (outcome: Result<Value, Error>)
    requires
        old(scope).isolate.state is Some,
        old(scope).realm_idx < old(scope).isolate.slots@.len(),
        exception.value() == Value::Undefined,
        ran(
            before@,
            *old(scope).isolate,
            Run::ExecuteScript { name: name@, source_code: source_code@, result: None },
        ),
    ensures
        outcome matches Err(error) && failed_script(
            before@,
            *final(scope).isolate,
            old(scope).realm_idx,
            name@,
            source_code@,
            error,
        ),
        final(scope).isolate.keeps(before@),
        *final(final(scope).isolate) == *final(old(scope).isolate),
{
    let ghost middle = *scope.isolate;
    let outcome = exception_to_err_result(scope, exception, false);
    proof {
        scope.isolate.lemma_keeps_through(middle, before@);
    }
    outcome
}

fn run_script<B: JsBackend>(scope: &mut HandleScope<'_, B>, name: &str, source_code: &str) -> (result:
    Option<Value>)
    ensures
        ran(
            *old(scope).isolate,
            *final(scope).isolate,
            Run::ExecuteScript { name: name@, source_code: source_code@, result },
        ),
        *final(final(scope).isolate) == *final(old(scope).isolate),
        final(scope).realm_idx == old(scope).realm_idx,
{
    B::execute_script(&mut *scope.isolate, name, source_code)
}

} // verus!

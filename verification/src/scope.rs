//! Scopes in which local handles are good.
use crate::backend::{BackendEvent, JsBackend};
use crate::data::{undefined, Value};
use crate::handle::{Handle, HandleInternal, Local};
use crate::isolate::{Context, Isolate};
use crate::ops::RealmIdx;
use vstd::prelude::*;

verus! {

pub struct HandleScope<'s, B> {
    pub isolate: &'s mut Isolate<B>,
    /// The realm that the scope is in.
    pub realm_idx: RealmIdx,
}

impl<'s, B> HandleScope<'s, B> {
    /// A scope in the global realm.
    pub fn new(isolate: &'s mut Isolate<B>) -> (scope: Self)
        ensures
            *scope.isolate == *old(isolate),
            *final(scope.isolate) == *final(isolate),
            scope.realm_idx == 0,
    {
        HandleScope { isolate, realm_idx: 0 }
    }

    /// A scope in the realm of a context of the isolate.
    pub fn with_context<H: Handle<Data = Context>>(
        isolate: &'s mut Isolate<B>,
        context: &H,
    ) -> (scope: Self)
        requires
            context.value().is_of(*old(isolate)),
        ensures
            *scope.isolate == *old(isolate),
            *final(scope.isolate) == *final(isolate),
            scope.realm_idx == context.value().realm_idx,
    {
        HandleScope { isolate, realm_idx: context.get_data().realm_idx }
    }
}

impl<'s, B: JsBackend> HandleScope<'s, B> {
    /// Leaves an exception for the backend to throw.
    pub fn throw_exception(&mut self, exception: Local<'_, Value>) -> (result: Local<'s, Value>)
        requires
            exception.value() is Exception,
        ensures
            result.value() == Value::Undefined,
            final(self).isolate.backend.events() == old(self).isolate.backend.events().push(
                BackendEvent::SetException {
                    class: exception.value()->class@,
                    message: exception.value()->message@,
                },
            ),
            final(self).isolate.same_but_backend(*old(self).isolate),
            *final(final(self).isolate) == *final(old(self).isolate),
            final(self).realm_idx == old(self).realm_idx,
    {
        match &**exception.get_data() {
            Value::Exception { class, message } => {
                self.isolate.backend.set_exception(class.as_str(), message.as_str());
            },
            _ => {},
        }
        undefined(self)
    }
}

/// A scope that takes note of an exception.
pub struct TryCatch<'s, P> {
    pub inner: &'s mut P,
    pub exception: Option<Local<'s, Value>>,
}

impl<'s, 'p, B> TryCatch<'s, HandleScope<'p, B>> {
    pub fn new(scope: &'s mut HandleScope<'p, B>) -> (try_catch: Self)
        ensures
            try_catch.caught() is None,
            *try_catch.inner == *old(scope),
            *final(try_catch.inner) == *final(scope),
    {
        TryCatch { inner: scope, exception: None }
    }
}

impl<'s, P> TryCatch<'s, P> {
    /// The exception that was noted.
    pub open spec fn caught(self) -> Option<Value> {
        match self.exception {
            Some(exception) => Some(exception.value()),
            None => None,
        }
    }

    pub fn has_caught(&self) -> (yes: bool)
        ensures
            yes == (self.caught() is Some),
    {
        self.exception.is_some()
    }

    /// Termination cannot be observed yet.
    pub fn has_terminated(&self) -> (yes: bool)
        ensures
            !yes,
    {
        false
    }

    pub fn exception<'p>(&self) -> (exception: Option<Local<'p, Value>>)
        ensures
            match exception {
                Some(exception) => self.caught() == Some(exception.value()),
                None => self.caught() is None,
            },
    {
        match &self.exception {
            Some(exception) => Local::from_raw((**exception.get_data()).clone()),
            None => None,
        }
    }
}

} // verus!

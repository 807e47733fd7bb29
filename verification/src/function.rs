//! How the backend calls native functions.
use crate::isolate::Isolate;
use crate::ops::UserData;
use crate::scope::HandleScope;
use crate::serde::{Deserialized, Serialized, SerializedView};
use vstd::prelude::*;

verus! {

/// What the backend calls a native function with.
pub struct FunctionCallbackInfo<'s, B> {
    pub isolate: &'s mut Isolate<B>,
    pub data: UserData,
    pub values: Vec<Deserialized>,
}

/// What a native function is called with.
pub struct FunctionCallbackArguments {
    pub data: UserData,
    /// The arguments as they describe themselves. One whose contents are read by the embedder, such
    /// as a sequence, is a [`Deserialized::Other`].
    pub values: Vec<Deserialized>,
}

impl FunctionCallbackArguments {
    pub fn get(&mut self, i: i32) -> (value: &mut Deserialized)
        requires
            0 <= i < old(self).values.len(),
        ensures
            *value == old(self).values@[i as int],
            final(self).values@ == old(self).values@.update(i as int, *final(value)),
            final(self).data == old(self).data,
    {
        &mut self.values[i as usize]
    }
}

/// What a native function gives back, if it gives anything.
pub struct ReturnValue(pub Option<Serialized>);

impl ReturnValue {
    pub fn set(&mut self, value: Serialized)
        ensures
            final(self).0 == Some(value),
    {
        self.0 = Some(value);
    }
}

/// What the backend gets of what a native function gave back: nothing counts as `null`.
pub open spec fn returned(value: Option<Serialized>) -> SerializedView {
    match value {
        Some(value) => value@,
        None => SerializedView::Null,
    }
}

/// A native function that the backend can call.
pub trait MapFnTo<B>: Sized {
    /// What the function asks of the isolate that it is called in. It is called in the realm that
    /// it is exposed to.
    spec fn is_callable(&self, isolate: Isolate<B>, args: FunctionCallbackArguments) -> bool;

    /// What a call may give back, and what it may make of the isolate.
    spec fn answers(
        &self,
        before: Isolate<B>,
        args: FunctionCallbackArguments,
        after: Isolate<B>,
        value: Option<Serialized>,
    ) -> bool;

    fn invoke(
        &self,
        scope: &mut HandleScope<'_, B>,
        args: FunctionCallbackArguments,
        return_value: &mut ReturnValue,
    )
        requires
            self.is_callable(*old(scope).isolate, args),
            old(scope).realm_idx == args.data.realm(),
            old(return_value).0 is None,
        ensures
            self.answers(*old(scope).isolate, args, *final(scope).isolate, final(return_value).0),
            *final(final(scope).isolate) == *final(old(scope).isolate),
            final(scope).realm_idx == old(scope).realm_idx,
    ;

    /// Answers a call of the backend's.
    fn map_fn_to(&self, info: FunctionCallbackInfo<'_, B>) -> (value: Serialized)
        requires
            self.is_callable(
                *info.isolate,
                (FunctionCallbackArguments { data: info.data, values: info.values }),
            ),
        ensures
            exists|given: Option<Serialized>| #[trigger]
                self.answers(
                    *old(info.isolate),
                    FunctionCallbackArguments { data: info.data, values: info.values },
                    *final(info.isolate),
                    given,
                ) && value@ == returned(given),
    {
        let mut return_value = ReturnValue(None);
        let mut scope = HandleScope { isolate: info.isolate, realm_idx: info.data.realm_idx() };
        self.invoke(
            &mut scope,
            FunctionCallbackArguments { data: info.data, values: info.values },
            &mut return_value,
        );
        match return_value.0 {
            Some(value) => value,
            None => Serialized::Null,
        }
    }
}

} // verus!

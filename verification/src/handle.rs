//! Handles on values that JavaScript and native code share.
use crate::isolate::Isolate;
use std::marker::PhantomData;
use std::ops::Deref;
use std::sync::Arc;
use vstd::prelude::*;
use vstd::std_specs::cmp::{PartialEqSpec, PartialEqSpecImpl};

verus! {

/// A handle that outlives the scope it was made in.
#[derive(Hash)]
pub struct Global<T> {
    data: Arc<T>,
}

/// A handle that need not keep its value from being collected; here it is a [`Global`].
pub type Weak<T> = Global<T>;

/// A handle that is good for as long as a scope is open.
#[derive(Hash)]
pub struct Local<'s, T> {
    data: Arc<T>,
    phantom: PhantomData<&'s ()>,
}

/// What every handle has: shared ownership of a value.
pub trait HandleInternal: Sized {
    type DataInternal;

    /// The value that the handle stands for.
    spec fn value(&self) -> Self::DataInternal;

    fn get_data(&self) -> (data: &Arc<Self::DataInternal>)
        ensures
            **data == self.value(),
    ;
}

/// A handle of either kind.
pub trait Handle: HandleInternal<DataInternal = Self::Data> {
    type Data;

    /// The value that the handle stands for.
    fn open<B>(&self, isolate: &mut Isolate<B>) -> (data: &Self::Data)
        ensures
            *data == self.value(),
            *final(isolate) == *old(isolate),
    ;
}

impl<T> HandleInternal for Global<T> {
    type DataInternal = T;

    closed spec fn value(&self) -> T {
        *self.data
    }

    fn get_data(&self) -> (data: &Arc<T>) {
        &self.data
    }
}

impl<T> Handle for Global<T> {
    type Data = T;

    fn open<B>(&self, _isolate: &mut Isolate<B>) -> (data: &T) {
        &self.data
    }
}

impl<'s, T> HandleInternal for Local<'s, T> {
    type DataInternal = T;

    closed spec fn value(&self) -> T {
        *self.data
    }

    fn get_data(&self) -> (data: &Arc<T>) {
        &self.data
    }
}

impl<'s, T> Handle for Local<'s, T> {
    type Data = T;

    fn open<B>(&self, _isolate: &mut Isolate<B>) -> (data: &T) {
        &self.data
    }
}

impl<T> Global<T> {
    /// A global handle on the value of another handle.
    pub fn new<B, H: Handle<Data = T>>(isolate: &mut Isolate<B>, data: H) -> (handle: Self)
        ensures
            handle.value() == data.value(),
            *final(isolate) == *old(isolate),
    {
        Global { data: data.get_data().clone() }
    }

    /// A global handle on a new value.
    pub fn from_raw<B>(isolate: &mut Isolate<B>, data: T) -> (handle: Option<Self>)
        ensures
            handle is Some,
            handle->0.value() == data,
            *final(isolate) == *old(isolate),
    {
        Some(Global { data: Arc::new(data) })
    }
}

impl<'s, T> Local<'s, T> {
    /// A local handle on the value of another handle.
    pub fn new<B, H: Handle<Data = T>>(isolate: &mut Isolate<B>, data: H) -> (handle: Self)
        ensures
            handle.value() == data.value(),
            *final(isolate) == *old(isolate),
    {
        Local { data: data.get_data().clone(), phantom: PhantomData }
    }

    /// A local handle on a new value.
    pub fn from_raw(data: T) -> (handle: Option<Self>)
        ensures
            handle is Some,
            handle->0.value() == data,
    {
        Some(Local { data: Arc::new(data), phantom: PhantomData })
    }
}

impl<T> Clone for Global<T> {
    fn clone(&self) -> (copy: Self)
        ensures
            copy == *self,
    {
        Global { data: self.data.clone() }
    }
}

impl<'s, T> Clone for Local<'s, T> {
    fn clone(&self) -> (copy: Self)
        ensures
            copy == *self,
    {
        Local { data: self.data.clone(), phantom: PhantomData }
    }
}

impl<'s, T> Deref for Local<'s, T> {
    type Target = T;

    fn deref(&self) -> (data: &T)
        ensures
            *data == self.value(),
    {
        &self.data
    }
}

impl<T: PartialEq<Rhs::Data>, Rhs: Handle> PartialEq<Rhs> for Global<T> {
    fn eq(&self, other: &Rhs) -> (equal: bool) {
        *self.data == **other.get_data()
    }
}

impl<T: PartialEq<Rhs::Data>, Rhs: Handle> PartialEqSpecImpl<Rhs> for Global<T> {
    open spec fn obeys_eq_spec() -> bool {
        <T as PartialEqSpec<Rhs::Data>>::obeys_eq_spec()
    }

    open spec fn eq_spec(&self, other: &Rhs) -> bool {
        PartialEqSpec::eq_spec(&self.value(), &other.value())
    }
}

impl<T: Eq> Eq for Global<T> {

}

impl<'s, T: Eq> Eq for Local<'s, T> {

}

impl<'s, T: PartialEq<Rhs::Data>, Rhs: Handle> PartialEq<Rhs> for Local<'s, T> {
    fn eq(&self, other: &Rhs) -> (equal: bool) {
        *self.data == **other.get_data()
    }
}

impl<'s, T: PartialEq<Rhs::Data>, Rhs: Handle> PartialEqSpecImpl<Rhs> for Local<'s, T> {
    open spec fn obeys_eq_spec() -> bool {
        <T as PartialEqSpec<Rhs::Data>>::obeys_eq_spec()
    }

    open spec fn eq_spec(&self, other: &Rhs) -> bool {
        PartialEqSpec::eq_spec(&self.value(), &other.value())
    }
}

/// Handles of one kind on the same value are the same.
pub proof fn lemma_handle_is_value<T>(a: Global<T>, b: Global<T>)
    requires
        a.value() == b.value(),
    ensures
        a == b,
{
}

} // verus!

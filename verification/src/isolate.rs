//! An instance of the engine with what native code keeps in it.
use crate::backend::{BackendEvent, JsBackend};
use crate::data::Object;
use crate::handle::{Global, HandleInternal, Local};
use crate::modules::ModuleMap;
use crate::ops::RealmIdx;
use crate::scope::HandleScope;
use crate::state::{ContextState, JsRuntimeState};
use std::collections::HashMap;
use vstd::prelude::*;

verus! {

pub struct V8;

impl V8 {
    pub fn get_version() -> (version: &'static str)
        ensures
            version@ == "10.4.20.69+deno_minus_v8_shim"@,
    {
        "10.4.20.69+deno_minus_v8_shim"
    }
}

/// What tells an isolate from others. It cannot be copied: only [`IsolateIds`] gives one out.
#[derive(Debug)]
pub struct IsolateId {
    number: u64,
}

impl IsolateId {
    pub closed spec fn spec_number(&self) -> u64 {
        self.number
    }

    #[verifier::when_used_as_spec(spec_number)]
    pub fn number(&self) -> (number: u64)
        ensures
            number == self.number(),
    {
        self.number
    }
}

/// Gives each isolate of a program a number of its own. A program has one of these.
#[derive(Debug)]
pub struct IsolateIds {
    next: u64,
}

impl IsolateIds {
    /// How many were given out.
    pub closed spec fn given(self) -> nat {
        self.next as nat
    }

    pub fn new() -> (ids: Self)
        ensures
            ids.given() == 0,
    {
        IsolateIds { next: 0 }
    }

    /// One that was not given out before, or none where all were.
    pub fn next(&mut self) -> (id: Option<IsolateId>)
        ensures
            gives(*old(self), *final(self), id),
    {
        if self.next == u64::MAX {
            return None;
        }
        let id = IsolateId { number: self.next };
        self.next = self.next + 1;
        Some(id)
    }
}

/// They are given out by counting, until the numbers end.
pub open spec fn gives(before: IsolateIds, after: IsolateIds, id: Option<IsolateId>) -> bool {
    match id {
        Some(id) => id.number() == before.given() && after.given() == before.given() + 1,
        None => before.given() == u64::MAX && after == before,
    }
}

/// A context that was made in one isolate is not that of a realm of another, as long as both were
/// numbered by the same [`IsolateIds`].
pub proof fn foreign_contexts_are_refused<A, B>(
    before: IsolateIds,
    between: IsolateIds,
    later: IsolateIds,
    after: IsolateIds,
    isolate: Isolate<A>,
    other: Isolate<B>,
    context: Context,
)
    requires
        gives(before, between, Some(isolate.id)),
        between.given() <= later.given(),
        gives(later, after, Some(other.id)),
    ensures
        context.is_of(isolate) ==> !context.is_of(other),
        context.is_of(other) ==> !context.is_of(isolate),
{
}

/// What JavaScript of a realm is run in.
pub struct Context {
    pub global: Global<Object>,
    /// The isolate that the context was made in.
    pub isolate_id: u64,
    /// The realm of the context, among those of the isolate.
    pub realm_idx: RealmIdx,
}

impl Context {
    /// The context is that of a realm of this isolate.
    pub open spec fn is_of<B>(self, isolate: Isolate<B>) -> bool {
        self.isolate_id == isolate.id.number() && self.realm_idx < isolate.slots@.len()
    }

    /// The context is that of the realm that this isolate gets next.
    pub open spec fn is_next_of<B>(self, isolate: Isolate<B>) -> bool {
        &&& self.global.value() == (Object {  })
        &&& self.isolate_id == isolate.id.number()
        &&& self.realm_idx == isolate.slots@.len()
    }

    /// Makes the context of the next realm. The realm is there once the context's state is kept,
    /// by [`Context::set_slot`].
    pub fn new<'s, B>(scope: &mut HandleScope<'s, B>) -> (handle: Local<'s, Context>)
        ensures
            handle.value().is_next_of(*old(scope).isolate),
            *final(scope).isolate == *old(scope).isolate,
            *final(final(scope).isolate) == *final(old(scope).isolate),
            final(scope).realm_idx == old(scope).realm_idx,
    {
        let global = Global::from_raw(&mut *scope.isolate, Object {  }).unwrap();
        let isolate_id: u64 = scope.isolate.id.number();
        let realm_idx: RealmIdx = scope.isolate.slots.len();
        Local::from_raw(Context { global, isolate_id, realm_idx }).unwrap()
    }

    pub fn global<'s, B>(&self, scope: &mut HandleScope<'s, B>) -> (handle: Local<'s, Object>)
        ensures
            handle.value() == self.global.value(),
            *final(scope).isolate == *old(scope).isolate,
            *final(final(scope).isolate) == *final(old(scope).isolate),
            final(scope).realm_idx == old(scope).realm_idx,
    {
        Local::new(&mut *scope.isolate, self.global.clone())
    }

    /// Keeps the state of the context.
    pub fn set_slot<B>(&self, isolate: &mut Isolate<B>, value: ContextState)
        requires
            self.isolate_id == old(isolate).id.number(),
            self.realm_idx <= old(isolate).slots@.len(),
        ensures
            final(isolate).slots@ == if self.realm_idx < old(isolate).slots@.len() {
                old(isolate).slots@.update(self.realm_idx as int, value)
            } else {
                old(isolate).slots@.push(value)
            },
            *final(isolate) == (Isolate { slots: final(isolate).slots, ..*old(isolate) }),
    {
        isolate.set_slot(self.realm_idx, value);
    }
}

pub struct Isolate<B> {
    pub id: IsolateId,
    pub backend: B,
    /// The states of the contexts, by their realms.
    pub slots: Vec<ContextState>,
    /// What the embedder keeps, as addresses by index.
    pub data: HashMap<u32, usize>,
    /// The state of the runtime that owns the isolate.
    pub state: Option<JsRuntimeState>,
    /// The modules of the runtime that owns the isolate.
    pub module_map: Option<ModuleMap>,
}

impl<B> Isolate<B> {
    /// Nothing but the backend may differ.
    pub open spec fn same_but_backend(self, other: Isolate<B>) -> bool {
        &&& self.id == other.id
        &&& self.slots == other.slots
        &&& self.data == other.data
        &&& self.state == other.state
        &&& self.module_map == other.module_map
    }

    /// What native code that JavaScript calls leaves as it was `before`.
    pub open spec fn keeps(self, before: Isolate<B>) -> bool {
        &&& self.id == before.id
        &&& match before.state {
            Some(before) => self.state matches Some(state) && state.keeps(before),
            None => self.state is None,
        }
        &&& self.slots@.len() == before.slots@.len()
        &&& forall|r: int|
            0 <= r < before.slots@.len() ==> (#[trigger] self.slots@[r]).keeps(before.slots@[r])
        &&& self.module_map == before.module_map
    }

    /// `after` differs from this in nothing but the state of a realm's context.
    pub open spec fn changes_slot(
        self,
        after: Isolate<B>,
        realm_idx: RealmIdx,
        value: ContextState,
    ) -> bool {
        &&& realm_idx < self.slots@.len()
        &&& after.slots@ == self.slots@.update(realm_idx as int, value)
        &&& after == (Isolate { slots: after.slots, ..self })
    }

    /// What is left as it was in two steps is left as it was in both together.
    pub proof fn lemma_keeps_through(self, between: Isolate<B>, before: Isolate<B>)
        requires
            self.keeps(between),
            between.keeps(before),
        ensures
            self.keeps(before),
    {
        assert forall|r: int| 0 <= r < before.slots@.len() implies (
        #[trigger] self.slots@[r]).keeps(before.slots@[r]) by {
            assert(between.slots@[r].keeps(before.slots@[r]));
        }
    }

    pub fn new(id: IsolateId, backend: B) -> (isolate: Self)
        ensures
            isolate.id == id,
            isolate.backend == backend,
            isolate.slots@.len() == 0,
            isolate.data@ == Map::<u32, usize>::empty(),
            isolate.state is None,
            isolate.module_map is None,
    {
        Isolate {
            id,
            backend,
            slots: Vec::new(),
            data: HashMap::new(),
            state: None,
            module_map: None,
        }
    }

    /// The context that the isolate is in, which is that of the global realm.
    pub fn get_current_context(&mut self) -> (handle: Local<'_, Context>)
        ensures
            handle.value().global.value() == (Object {  }),
            handle.value().isolate_id == old(self).id.number(),
            handle.value().realm_idx == 0,
            *final(self) == *old(self),
    {
        let global = Global::from_raw(self, Object {  }).unwrap();
        Local::from_raw(Context { global, isolate_id: self.id.number(), realm_idx: 0 }).unwrap()
    }

    /// The state of a realm's context.
    pub fn get_slot(&self, realm_idx: RealmIdx) -> (slot: Option<&ContextState>)
        ensures
            match slot {
                Some(slot) => realm_idx < self.slots@.len() && *slot
                    == self.slots@[realm_idx as int],
                None => realm_idx >= self.slots@.len(),
            },
    {
        if realm_idx < self.slots.len() {
            Some(&self.slots[realm_idx])
        } else {
            None
        }
    }

    /// Keeps the state of a realm's context, in place of the one that the realm has.
    pub fn set_slot(&mut self, realm_idx: RealmIdx, value: ContextState)
        requires
            realm_idx <= old(self).slots@.len(),
        ensures
            final(self).slots@ == if realm_idx < old(self).slots@.len() {
                old(self).slots@.update(realm_idx as int, value)
            } else {
                old(self).slots@.push(value)
            },
            *final(self) == (Isolate { slots: final(self).slots, ..*old(self) }),
    {
        if realm_idx < self.slots.len() {
            self.slots.set(realm_idx, value);
        } else {
            self.slots.push(value);
        }
    }

    pub fn set_data(&mut self, index: u32, value: usize)
        ensures
            final(self).data@ == old(self).data@.insert(index, value),
            *final(self) == (Isolate { data: final(self).data, ..*old(self) }),
    {
        self.data.insert(index, value);
    }

    pub fn get_data(&self, index: u32) -> (value: usize)
        requires
            self.data@.contains_key(index),
        ensures
            value == self.data@[index],
    {
        match self.data.get(&index) {
            Some(value) => *value,
            None => 0,
        }
    }

    /// Termination cannot be observed yet.
    pub fn is_execution_terminating(&self) -> (yes: bool)
        ensures
            !yes,
    {
        false
    }
}

impl<B: JsBackend> Isolate<B> {
    pub fn terminate_execution(&mut self) -> (done: bool)
        ensures
            done,
            final(self).backend.events() == old(self).backend.events().push(
                BackendEvent::Terminate,
            ),
            final(self).same_but_backend(*old(self)),
    {
        self.backend.terminate();
        true
    }
}

} // verus!

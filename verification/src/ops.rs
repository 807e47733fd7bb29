//! Native operations that JavaScript can call.
use crate::error::Error;
use crate::serde::{Serialized, SerializedView};
use vstd::prelude::*;

verus! {

pub type OpId = usize;

pub type RealmIdx = usize;

pub type PromiseId = i32;

/// A native function that JavaScript can call.
#[derive(Clone, Copy, Debug, PartialEq, Eq, Structural)]
pub enum FunctionCallback {
    /// One of the embedder's, by its place in the embedder's table.
    Native(usize),
    /// An op of the runtime itself, by its place among the builtin ops.
    Builtin(usize),
    /// Does nothing; stands in for a disabled op.
    VoidSync,
    /// Does nothing and resolves; stands in for a disabled async op.
    VoidAsync,
    /// Lists the async ops.
    AsyncOpsInfo,
}

/// What a native function is called with beside its arguments.
#[derive(Clone, Copy, Debug, PartialEq, Eq, Structural)]
pub enum UserData {
    /// The op context at this place among those of a realm.
    Op { realm_idx: RealmIdx, id: OpId },
    /// So many op contexts of a realm, from the first on.
    Ops { realm_idx: RealmIdx, count: usize },
}

impl UserData {
    /// The realm that the native function is exposed to.
    pub open spec fn realm(self) -> RealmIdx {
        match self {
            UserData::Op { realm_idx, id: _ } => realm_idx,
            UserData::Ops { realm_idx, count: _ } => realm_idx,
        }
    }

    /// The realm that the native function is exposed to.
    pub fn realm_idx(&self) -> (realm_idx: RealmIdx)
        ensures
            realm_idx == self.realm(),
    {
        match self {
            UserData::Op { realm_idx, id: _ } => *realm_idx,
            UserData::Ops { realm_idx, count: _ } => *realm_idx,
        }
    }
}

/// What is known of an op before it is called.
#[derive(Clone, Copy, Debug)]
pub struct OpDecl {
    pub name: &'static str,
    pub v8_fn_ptr: FunctionCallback,
    pub enabled: bool,
    pub is_async: bool,
    pub is_unstable: bool,
    pub is_v8: bool,
    pub argc: u8,
}

/// An op as it is registered in a realm.
#[derive(Clone, Copy, Debug)]
pub struct OpCtx {
    pub id: OpId,
    pub decl: OpDecl,
    pub realm_idx: RealmIdx,
}

/// An error that an op ended with, as JavaScript gets it.
#[derive(Debug)]
pub struct OpError {
    pub class_name: &'static str,
    pub message: String,
}

impl OpError {
    pub open spec fn is_error(self, class_name: Seq<char>, message: Seq<char>) -> bool {
        self.class_name@ == class_name && self.message@ == message
    }

    pub fn new(class_name: &'static str, error: &Error) -> (op_error: OpError)
        ensures
            op_error.is_error(class_name@, error.text()),
    {
        OpError { class_name, message: error.to_string() }
    }
}

/// What an op ended with.
pub enum OpResult {
    Value(Serialized),
    /// The op succeeded, with a value that cannot be serialized.
    Unserializable(Error),
    Error(OpError),
}

impl OpResult {
    /// What JavaScript gets of the result, or the error that came up in serializing it.
    pub open spec fn payload(self) -> Result<SerializedView, Error> {
        match self {
            OpResult::Value(value) => Ok(value@),
            OpResult::Unserializable(error) => Err(error),
            OpResult::Error(op_error) => Ok(
                SerializedView::Error {
                    class_name: op_error.class_name@,
                    message: op_error.message@,
                },
            ),
        }
    }

    /// What JavaScript gets of the result in any case: a result that cannot be serialized is a
    /// `TypeError`.
    pub open spec fn response(self) -> SerializedView {
        match self.payload() {
            Ok(value) => value,
            Err(error) => SerializedView::Error {
                class_name: "TypeError"@,
                message: error.text(),
            },
        }
    }

    pub fn to_v8(self) -> (serialized: Result<Serialized, Error>)
        ensures
            match serialized {
                Ok(value) => self.payload() == Ok::<_, Error>(value@),
                Err(error) => self.payload() == Err::<SerializedView, _>(error),
            },
    {
        match self {
            OpResult::Value(value) => Ok(value),
            OpResult::Unserializable(error) => Err(error),
            OpResult::Error(op_error) => Ok(Serialized::Error(op_error)),
        }
    }

    /// What is sent to JavaScript, where a value that cannot be serialized becomes a `TypeError`.
    pub fn into_response(self) -> (value: Serialized)
        ensures
            value@ == self.response(),
    {
        match self.to_v8() {
            Ok(value) => value,
            Err(error) => Serialized::Error(OpError::new("TypeError", &error)),
        }
    }
}

/// An async op that is done.
pub struct CompletedOp {
    pub realm_idx: RealmIdx,
    pub promise_id: PromiseId,
    pub op_id: OpId,
    pub result: OpResult,
}

/// Counts what became of each op.
pub struct OpsTracker {
    /// How many calls of each async op are done; a count that is full stays as it is.
    pub completed_async: Vec<u64>,
}

/// One call more, unless the count is full.
pub open spec fn counted(count: u64) -> u64 {
    if count < u64::MAX {
        (count + 1) as u64
    } else {
        count
    }
}

impl OpsTracker {
    pub fn new(ops_count: usize) -> (tracker: Self)
        ensures
            tracker.completed_async@ == Seq::new(ops_count as nat, |i: int| 0u64),
    {
        let mut completed_async: Vec<u64> = Vec::new();
        let mut i: usize = 0;
        while i < ops_count
            invariant
                i <= ops_count,
                completed_async@ == Seq::new(i as nat, |k: int| 0u64),
            decreases ops_count - i,
        {
            completed_async.push(0);
            i = i + 1;
        }
        OpsTracker { completed_async }
    }

    pub fn track_async_completed(&mut self, id: OpId)
        requires
            id < old(self).completed_async.len(),
        ensures
            final(self).completed_async@ == old(self).completed_async@.update(
                id as int,
                counted(old(self).completed_async@[id as int]),
            ),
    {
        let count: u64 = self.completed_async[id];
        if count < u64::MAX {
            self.completed_async.set(id, count + 1);
        }
    }
}

/// What ops share with one another.
pub struct OpState {
    pub tracker: OpsTracker,
    /// The embedder's function that names the class of an error, by its place in the embedder's
    /// table, where there is one.
    pub get_error_class_fn: Option<usize>,
}

impl OpState {
    pub fn new(ops_count: usize) -> (state: Self)
        ensures
            state.tracker.completed_async@ == Seq::new(ops_count as nat, |i: int| 0u64),
            state.get_error_class_fn is None,
    {
        OpState {
            tracker: OpsTracker::new(ops_count),
            get_error_class_fn: None,
        }
    }
}

} // verus!

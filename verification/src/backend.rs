//! The JavaScript engine that serves as a replacement for V8.
use crate::data::{Function, Value};
use crate::isolate::Isolate;
use crate::modules::ModuleId;
use crate::names::NameMap;
use crate::ops::{FunctionCallback, UserData};
use crate::serde::{Deserialized, Serialized, SerializedView};
use vstd::prelude::*;

verus! {

#[derive(Clone, Copy, Debug, PartialEq, Eq, Structural)]
pub struct MemoryUsage {
    pub physical_total: usize,
    pub heap_total: usize,
    pub heap_used: usize,
    pub external: usize,
}

/// A native function that should be exposed to JS.
#[derive(Clone, Copy, Debug, PartialEq, Eq, Structural)]
pub struct NativeFunctionCallback {
    pub callback: FunctionCallback,
    pub user_data: UserData,
}

/// Something that a backend was asked to run, with its answer.
#[allow(inconsistent_fields)]
pub enum Run {
    ExecuteScript { name: Seq<char>, source_code: Seq<char>, result: Option<Value> },
    LoadModule { id: ModuleId, name: Seq<char>, code: Option<Seq<char>> },
    ExecuteModule { id: ModuleId, started: bool },
    GrabFunction { name: Seq<char>, function: Option<Function> },
    InvokeFunction { call: Call, result: Option<Deserialized> },
}

/// Something that was asked of a backend, with its answer.
#[allow(inconsistent_fields)]
pub enum BackendEvent {
    InjectBridge { path: Seq<char>, bridge: Map<Seq<char>, NativeFunctionCallback> },
    /// JavaScript was run. It can call native code, which asks things of the backend in its turn:
    /// those are kept `within`.
    Ran { run: Run, within: Seq<BackendEvent> },
    SetException { class: Seq<char>, message: Seq<char> },
    GetMemoryUsage { usage: MemoryUsage },
    Terminate,
}

/// A call of a JavaScript function on an undefined `this`.
pub struct Call {
    pub function: Function,
    pub args: Seq<SerializedView>,
}

/// A backend was asked this, and nothing else but what came up within it.
pub open spec fn noted(before: Seq<BackendEvent>, after: Seq<BackendEvent>, run: Run) -> bool {
    after == before.push(BackendEvent::Ran { run, within: after.last()->within })
}

/// JavaScript was run by this one thing that the backend was asked, and nothing else happened.
pub open spec fn ran<B: JsBackend>(before: Isolate<B>, after: Isolate<B>, run: Run) -> bool {
    &&& noted(before.backend.events(), after.backend.events(), run)
    &&& B::leaves(before, after)
    &&& after.keeps(before)
}

/// What the backend answered to the call that came last.
pub open spec fn last_answer<B: JsBackend>(isolate: Isolate<B>) -> Option<Deserialized> {
    isolate.backend.events().last()->run->InvokeFunction_result
}

/// This one call was made, and nothing else happened.
pub open spec fn called<B: JsBackend>(before: Isolate<B>, after: Isolate<B>, call: Call) -> bool {
    ran(before, after, Run::InvokeFunction { call, result: last_answer(after) })
}

/// The isolate before the first of these calls, after it, after the second, and so on.
pub open spec fn is_course<B: JsBackend>(course: Seq<Isolate<B>>, calls: Seq<Call>) -> bool {
    &&& course.len() == calls.len() + 1
    &&& forall|i: int|
        #![trigger calls[i]]
        0 <= i < calls.len() ==> called(course[i], course[i + 1], calls[i])
}

/// These calls were made, each once and over before the next, and nothing else happened.
pub open spec fn called_in_turn<B: JsBackend>(
    before: Isolate<B>,
    after: Isolate<B>,
    calls: Seq<Call>,
) -> bool {
    exists|course: Seq<Isolate<B>>| #[trigger]
        is_course(course, calls) && course.first() == before && course.last() == after
}

pub proof fn lemma_no_calls<B: JsBackend>(isolate: Isolate<B>)
    ensures
        called_in_turn(isolate, isolate, Seq::empty()),
{
    assert(is_course(seq![isolate], Seq::empty()));
}

pub proof fn lemma_called_after<B: JsBackend>(
    before: Isolate<B>,
    middle: Isolate<B>,
    after: Isolate<B>,
    calls: Seq<Call>,
    call: Call,
)
    requires
        called_in_turn(before, middle, calls),
        called(middle, after, call),
    ensures
        called_in_turn(before, after, calls.push(call)),
{
    let course = choose|course: Seq<Isolate<B>>| #[trigger]
        is_course(course, calls) && course.first() == before && course.last() == middle;
    let longer = course.push(after);
    let all = calls.push(call);
    assert forall|i: int| #![trigger all[i]] 0 <= i < all.len() implies called(
        longer[i],
        longer[i + 1],
        all[i],
    ) by {
        if i < calls.len() {
            assert(all[i] == calls[i]);
        }
    }
    assert(is_course(longer, all));
}

/// The event is this call, with what came up within it.
pub open spec fn is_call(event: BackendEvent, call: Call) -> bool {
    event matches BackendEvent::Ran { run: Run::InvokeFunction { call: made, result: _ }, within: _ }
        && made == call
}

/// What a backend was asked is never taken back, and calls that are made in turn are all that it
/// was asked besides, each once.
pub proof fn calls_keep_history<B: JsBackend>(
    before: Isolate<B>,
    after: Isolate<B>,
    calls: Seq<Call>,
)
    requires
        called_in_turn(before, after, calls),
    ensures
        ({
            let events = before.backend.events();
            let later = after.backend.events();
            &&& later.len() == events.len() + calls.len()
            &&& later.take(events.len() as int) == events
            &&& forall|i: int|
                0 <= i < calls.len() ==> is_call(later[events.len() + i], #[trigger] calls[i])
        }),
{
    let course = choose|course: Seq<Isolate<B>>| #[trigger]
        is_course(course, calls) && course.first() == before && course.last() == after;
    lemma_course_notes(course, calls, calls.len());
    assert forall|i: int| 0 <= i < calls.len() implies is_call(
        after.backend.events()[before.backend.events().len() + i],
        #[trigger] calls[i],
    ) by {
        assert(is_call(
            course[calls.len() as int].backend.events()[course[0].backend.events().len() + i],
            calls[i],
        ));
    }
}

proof fn lemma_course_notes<B: JsBackend>(course: Seq<Isolate<B>>, calls: Seq<Call>, count: nat)
    requires
        is_course(course, calls),
        count <= calls.len(),
    ensures
        ({
            let events = course[0].backend.events();
            let later = course[count as int].backend.events();
            &&& later.len() == events.len() + count
            &&& later.take(events.len() as int) == events
            &&& forall|i: int|
                0 <= i < count ==> is_call(later[events.len() + i], #[trigger] calls[i])
        }),
    decreases count,
{
    let events = course[0].backend.events();
    if count > 0 {
        lemma_course_notes(course, calls, (count - 1) as nat);
        let middle = course[count - 1].backend.events();
        let later = course[count as int].backend.events();
        assert(called(course[count - 1], course[count as int], calls[count - 1]));
        assert(later.take(events.len() as int) == middle.take(events.len() as int));
        assert forall|i: int| 0 <= i < count implies is_call(
            later[events.len() + i],
            #[trigger] calls[i],
        ) by {
            if i < count - 1 {
                assert(later[events.len() + i] == middle[events.len() + i]);
            }
        }
    } else {
        assert(events.take(events.len() as int) == events);
    }
}

pub open spec fn serialized_views(args: Seq<Serialized>) -> Seq<SerializedView> {
    args.map_values(|arg: Serialized| arg@)
}

/// All that was asked of a backend, the latest last.
pub type History = Seq<BackendEvent>;

/// A JS backend that serves as a replacement for V8.
///
/// What runs JavaScript is handed the whole isolate, since JavaScript can call native code. That
/// code changes what [`JsBackend::leaves`] says, and never what [`Isolate::keeps`] names, as the
/// builtin ops do.
pub trait JsBackend: Sized {
    /// All that was asked of the backend so far. Contracts speak of this, and no code calls it.
    spec fn events(&self) -> History;

    /// What native code that is called from JavaScript can make of an isolate while JavaScript is
    /// run once. Contracts speak of this, and no code calls it.
    spec fn leaves(before: Isolate<Self>, after: Isolate<Self>) -> bool;

    /// Inject a native bridge object into the runtime with the given methods.
    fn inject_bridge(&mut self, path: &str, bridge: NameMap<NativeFunctionCallback>)
        requires
            bridge.wf(),
        ensures
            final(self).events() == old(self).events().push(
                BackendEvent::InjectBridge { path: path@, bridge: bridge@ },
            ),
    ;

    /// Execute some JS in the same context as Deno.
    fn execute_script(isolate: &mut Isolate<Self>, name: &str, source_code: &str) -> (result:
        Option<Value>)
        ensures
            noted(
                old(isolate).backend.events(),
                final(isolate).backend.events(),
                Run::ExecuteScript { name: name@, source_code: source_code@, result },
            ),
            Self::leaves(*old(isolate), *final(isolate)),
            final(isolate).keeps(*old(isolate)),
    ;

    /// Register an ESM module to be run later.
    fn load_module(isolate: &mut Isolate<Self>, id: ModuleId, name: &str, code: Option<String>)
        ensures
            noted(
                old(isolate).backend.events(),
                final(isolate).backend.events(),
                Run::LoadModule {
                    id,
                    name: name@,
                    code: match code {
                        Some(code) => Some(code@),
                        None => None,
                    },
                },
            ),
            Self::leaves(*old(isolate), *final(isolate)),
            final(isolate).keeps(*old(isolate)),
    ;

    /// Run a previously-registered ESM module. How it ends is told to the embedder later.
    fn execute_module(isolate: &mut Isolate<Self>, id: ModuleId) -> (started: bool)
        ensures
            noted(
                old(isolate).backend.events(),
                final(isolate).backend.events(),
                Run::ExecuteModule { id, started },
            ),
            Self::leaves(*old(isolate), *final(isolate)),
            final(isolate).keeps(*old(isolate)),
    ;

    /// Grabs a JS function that might be invoked repeatedly by native code.
    fn grab_function(isolate: &mut Isolate<Self>, name: &str) -> (function: Option<Function>)
        ensures
            noted(
                old(isolate).backend.events(),
                final(isolate).backend.events(),
                Run::GrabFunction { name: name@, function },
            ),
            Self::leaves(*old(isolate), *final(isolate)),
            final(isolate).keeps(*old(isolate)),
    ;

    /// Invokes a JS function acquired with `grab_function` on an undefined `this`.
    fn invoke_function(
        isolate: &mut Isolate<Self>,
        function: &Function,
        args: Vec<Serialized>,
    ) -> (result: Option<Deserialized>)
        ensures
            noted(
                old(isolate).backend.events(),
                final(isolate).backend.events(),
                Run::InvokeFunction {
                    call: (Call { function: *function, args: serialized_views(args@) }),
                    result,
                },
            ),
            Self::leaves(*old(isolate), *final(isolate)),
            final(isolate).keeps(*old(isolate)),
    ;

    /// Set an exception object to throw when control is returned to the backend.
    fn set_exception(&mut self, class: &str, message: &str)
        ensures
            final(self).events() == old(self).events().push(
                BackendEvent::SetException { class: class@, message: message@ },
            ),
    ;

    /// Get memory usage information about the backend.
    fn get_memory_usage(&mut self) -> (usage: MemoryUsage)
        ensures
            final(self).events() == old(self).events().push(
                BackendEvent::GetMemoryUsage { usage },
            ),
    ;

    /// Requests that the backend terminates.
    fn terminate(&mut self)
        ensures
            final(self).events() == old(self).events().push(BackendEvent::Terminate),
    ;
}

/// A backend that does nothing of what it is asked.
pub struct TotallyLegitJSBackend {
    events: Ghost<Seq<BackendEvent>>,
}

impl TotallyLegitJSBackend {
    pub fn new() -> (backend: Self)
        ensures
            backend.events() == Seq::<BackendEvent>::empty(),
    {
        TotallyLegitJSBackend { events: Ghost(Seq::empty()) }
    }

    fn note(&mut self, run: Ghost<Run>)
        ensures
            noted(old(self).events(), final(self).events(), run@),
    {
        self.events = Ghost(
            self.events@.push(BackendEvent::Ran { run: run@, within: Seq::empty() }),
        );
    }
}

impl JsBackend for TotallyLegitJSBackend {
    closed spec fn events(&self) -> History {
        self.events@
    }

    open spec fn leaves(before: Isolate<Self>, after: Isolate<Self>) -> bool {
        after.same_but_backend(before)
    }

    fn inject_bridge(&mut self, path: &str, bridge: NameMap<NativeFunctionCallback>) {
        self.events = Ghost(
            self.events@.push(BackendEvent::InjectBridge { path: path@, bridge: bridge@ }),
        );
    }

    fn execute_script(isolate: &mut Isolate<Self>, name: &str, source_code: &str) -> (result:
        Option<Value>)
        ensures
            result is None,
    {
        isolate.backend.note(
            Ghost(
                Run::ExecuteScript {
                    name: name@,
                    source_code: source_code@,
                    result: None,
                },
            ),
        );
        None
    }

    fn load_module(isolate: &mut Isolate<Self>, id: ModuleId, name: &str, code: Option<String>) {
        isolate.backend.note(
            Ghost(
                Run::LoadModule {
                    id,
                    name: name@,
                    code: match code {
                        Some(code) => Some(code@),
                        None => None,
                    },
                },
            ),
        );
    }

    fn execute_module(isolate: &mut Isolate<Self>, id: ModuleId) -> (started: bool)
        ensures
            !started,
    {
        isolate.backend.note(Ghost(Run::ExecuteModule { id, started: false }));
        false
    }

    fn grab_function(isolate: &mut Isolate<Self>, name: &str) -> (function: Option<Function>)
        ensures
            function == Some(Function(0)),
    {
        isolate.backend.note(
            Ghost(Run::GrabFunction { name: name@, function: Some(Function(0)) }),
        );
        Some(Function(0))
    }

    fn invoke_function(
        isolate: &mut Isolate<Self>,
        function: &Function,
        args: Vec<Serialized>,
    ) -> (result: Option<Deserialized>)
        ensures
            result is None,
    {
        isolate.backend.note(
            Ghost(
                Run::InvokeFunction {
                    call: Call { function: *function, args: serialized_views(args@) },
                    result: None,
                },
            ),
        );
        None
    }

    fn set_exception(&mut self, class: &str, message: &str) {
        self.events = Ghost(
            self.events@.push(BackendEvent::SetException { class: class@, message: message@ }),
        );
    }

    fn get_memory_usage(&mut self) -> (usage: MemoryUsage)
        ensures
            usage == (MemoryUsage { physical_total: 0, heap_total: 0, heap_used: 0, external: 0 }),
    {
        let usage = MemoryUsage { physical_total: 0, heap_total: 0, heap_used: 0, external: 0 };
        self.events = Ghost(self.events@.push(BackendEvent::GetMemoryUsage { usage }));
        usage
    }

    fn terminate(&mut self) {
        self.events = Ghost(self.events@.push(BackendEvent::Terminate));
    }
}

} // verus!

//! Setting up a realm, from its new context to the functions that native code calls in it.
use crate::backend::JsBackend;
use crate::data::Function;
use crate::error::{parsed_url, Error};
use crate::extension::{all_steps, entry_points_exist, Extension, JsStep};
use crate::extension_js::{
    advanced, evaluation_begun, module_ended, turned, without_tick, ExtensionJsInit, InitAction,
    InitPhase,
};
use crate::isolate::Isolate;
use crate::modules::ModuleId;
use crate::runtime::{adds_realm, grabbed, grabs_cbs, grabs_second, sets_cbs, JsRuntime};
use crate::state::JsRealm;
use crate::turn::Turn;
use vstd::prelude::*;

verus! {

/// A realm that is not set up yet.
pub struct NewRealm {
    realm: JsRealm,
}

impl NewRealm {
    pub closed spec fn realm(self) -> JsRealm {
        self.realm
    }
}

/// The set-up of a realm: the JavaScript of the extensions is run in it, and the functions that
/// native code calls are grabbed after that. The realm comes out when all is done.
pub struct RealmSetup {
    pub new_realm: NewRealm,
    pub init: ExtensionJsInit,
}

impl RealmSetup {
    /// The realm that is set up.
    pub open spec fn realm(self) -> JsRealm {
        self.new_realm.realm()
    }

    /// Nothing was run in the realm yet of the JavaScript of these extensions.
    pub open spec fn is_begun(self, realm: JsRealm, extensions: Seq<Extension>) -> bool {
        &&& self.realm() == realm
        &&& self.init.wf()
        &&& self.init.extensions@ == extensions
        &&& self.init.done == 0
        &&& self.init.phase == InitPhase::Next
    }

    /// Takes the extensions of a runtime, to run their JavaScript in a realm of it.
    pub(crate) fn begin<B>(runtime: &mut JsRuntime<B>, realm: JsRealm) -> (setup: Self)
        requires
            entry_points_exist(old(runtime).extensions_with_js@),
        ensures
            setup.is_begun(realm, old(runtime).extensions_with_js@),
            setup.init.extensions == old(runtime).extensions_with_js,
            final(runtime).extensions_with_js@ == Seq::<Extension>::empty(),
            *final(runtime) == (JsRuntime {
                extensions_with_js: final(runtime).extensions_with_js,
                ..*old(runtime)
            }),
    {
        RealmSetup { new_realm: NewRealm { realm }, init: ExtensionJsInit::begin(runtime) }
    }

    /// Goes on with the next file. When all files are done the runtime gets its extensions back,
    /// and core.js' functions are grabbed.
    pub fn advance<B: JsBackend>(&mut self, runtime: &mut JsRuntime<B>) -> (action: InitAction)
        requires
            old(self).init.wf(),
            old(self).init.phase == InitPhase::Next,
            old(runtime).is_set_up(),
            old(self).realm().is_of(old(runtime).v8_isolate),
            old(self).init.next_is_module() ==> old(
                runtime,
            ).v8_isolate.module_map->0.next_module_id < ModuleId::MAX,
        ensures
            final(runtime).is_set_up(),
            final(self).realm() == old(self).realm(),
            final(self).realm().is_of(final(runtime).v8_isolate),
            old(self).init.done < old(self).init.steps@.len() ==> final(self).init.wf(),
            goes_on(*old(self), *final(self), *old(runtime), *final(runtime), action),
    {
        if self.init.done < self.init.steps.len() {
            return self.init.advance(runtime, &self.new_realm.realm);
        }
        self.init.finish(runtime);
        let ghost middle = *runtime;
        let found = runtime.init_cbs(&self.new_realm.realm);
        assert(grabs_cbs(middle.v8_isolate, runtime.v8_isolate, self.realm().idx(), found));
        if found {
            InitAction::Finished(Ok(self.new_realm.realm.clone()))
        } else {
            InitAction::NoCallbacks
        }
    }

    /// Goes on after a turn of the event loop. No tick is left scheduled, since ticks of some code
    /// would keep the event loop going for ever.
    pub fn on_turn<B: JsBackend>(&mut self, runtime: &mut JsRuntime<B>, turn: Turn) -> (action:
        InitAction)
        requires
            old(self).init.wf(),
            old(self).init.phase is Turning,
            old(runtime).is_set_up(),
        ensures
            final(self).realm() == old(self).realm(),
            final(self).init.wf(),
            turned(old(self).init, final(self).init, turn, action),
            final(runtime).is_set_up(),
            *final(runtime) == without_tick(*old(runtime)),
    {
        self.init.on_turn(runtime, turn)
    }

    /// Goes on after a module has ended.
    pub fn on_module(&mut self, result: Result<(), Error>) -> (action: InitAction)
        requires
            old(self).init.wf(),
            old(self).init.phase is Ending,
        ensures
            final(self).realm() == old(self).realm(),
            final(self).init.wf(),
            module_ended(old(self).init, final(self).init, result, action),
    {
        self.init.on_module(result)
    }
}

/// The next file was begun with, or, where all were done, the functions that native code calls
/// were grabbed.
pub open spec fn goes_on<B: JsBackend>(
    before: RealmSetup,
    after: RealmSetup,
    runtime_before: JsRuntime<B>,
    runtime_after: JsRuntime<B>,
    action: InitAction,
) -> bool {
    let idx = before.realm().idx();
    if before.init.done < before.init.steps@.len() {
        &&& advanced(before.init, after.init, runtime_before, runtime_after, idx, action)
        &&& runtime_after == (JsRuntime { v8_isolate: runtime_after.v8_isolate, ..runtime_before })
    } else {
        &&& exists|found: bool| #[trigger]
            grabs_cbs(runtime_before.v8_isolate, runtime_after.v8_isolate, idx, found) && action
                == if found {
                InitAction::Finished(Ok(before.realm()))
            } else {
                InitAction::NoCallbacks
            }
        &&& runtime_after == (JsRuntime {
            v8_isolate: runtime_after.v8_isolate,
            extensions_with_js: before.init.extensions,
            ..runtime_before
        })
    }
}

impl<B: JsBackend> JsRuntime<B> {
    /// Begins to create a new realm in this JS execution context, pre-initialized with all of the
    /// extensions with JavaScript. The realm comes out of the set-up when that is over.
    pub fn begin_realm(&mut self) -> (setup: RealmSetup)
        requires
            old(self).is_set_up(),
            entry_points_exist(old(self).extensions_with_js@),
        ensures
            final(self).is_set_up(),
            adds_realm(old(self).v8_isolate, final(self).v8_isolate, setup.realm()),
            setup.is_begun(setup.realm(), old(self).extensions_with_js@),
            setup.init.extensions == old(self).extensions_with_js,
            final(self).extensions_with_js@ == Seq::<Extension>::empty(),
            *final(self) == (JsRuntime {
                v8_isolate: final(self).v8_isolate,
                extensions_with_js: final(self).extensions_with_js,
                ..*old(self)
            }),
    {
        let realm = self.add_realm();
        RealmSetup::begin(self, realm)
    }
}

/// A step of a set-up: the runtime as it was before it and after it, or what came of a turn of the
/// event loop or of a module.
pub enum SetupMove<B> {
    Advanced { before: JsRuntime<B>, after: JsRuntime<B> },
    Turned { turn: Turn },
    Ended { result: Result<(), Error> },
}

/// What one step makes of a set-up.
pub open spec fn moved<B: JsBackend>(
    before: RealmSetup,
    after: RealmSetup,
    step: SetupMove<B>,
    action: InitAction,
) -> bool {
    &&& after.realm() == before.realm()
    &&& match step {
        SetupMove::Advanced { before: runtime_before, after: runtime_after } => {
            &&& before.init.phase == InitPhase::Next
            &&& goes_on(before, after, runtime_before, runtime_after, action)
        },
        SetupMove::Turned { turn } => {
            &&& before.init.phase is Turning
            &&& turned(before.init, after.init, turn, action)
        },
        SetupMove::Ended { result } => {
            &&& before.init.phase is Ending
            &&& module_ended(before.init, after.init, result, action)
        },
    }
}

/// The set-up is not over with this.
pub open spec fn is_going_on(action: InitAction) -> bool {
    action is Advance || action is RunTurn || action is AwaitModule
}

/// A whole set-up, step by step, at the end of which a realm came out.
pub open spec fn is_setup<B: JsBackend>(
    setups: Seq<RealmSetup>,
    moves: Seq<SetupMove<B>>,
    actions: Seq<InitAction>,
    realm: JsRealm,
) -> bool {
    &&& moves.len() > 0
    &&& setups.len() == moves.len() + 1
    &&& actions.len() == moves.len()
    &&& setups[0].is_begun(setups[0].realm(), setups[0].init.extensions@)
    &&& forall|i: int|
        0 <= i < moves.len() ==> moved(setups[i], setups[i + 1], #[trigger] moves[i], actions[i])
    &&& forall|i: int| 0 <= i < actions.len() - 1 ==> is_going_on(#[trigger] actions[i])
    &&& actions.last() == InitAction::Finished(Ok(realm))
}

/// The module that is file `k` ended well with this step.
pub open spec fn ends_module<B: JsBackend>(
    setups: Seq<RealmSetup>,
    moves: Seq<SetupMove<B>>,
    k: int,
    end: int,
) -> bool {
    &&& 0 <= end < moves.len() - 1
    &&& setups[end].init.done == k
    &&& moves[end] matches SetupMove::Ended { result } && result is Ok
}

/// The steps with which the files were begun, file by file, one after another. No file was begun
/// by any other step, and each that is a module ended well after that.
pub open spec fn begins_files<B: JsBackend>(
    setups: Seq<RealmSetup>,
    moves: Seq<SetupMove<B>>,
    begun: Seq<int>,
) -> bool {
    &&& begun.len() == setups[0].init.steps@.len()
    &&& forall|k: int|
        0 <= k < begun.len() ==> {
            &&& 0 <= #[trigger] begun[k] < moves.len() - 1
            &&& moves[begun[k]] is Advanced
            &&& setups[begun[k]].init.done == k
            &&& setups[begun[k]].init.steps@ == setups[0].init.steps@
            &&& setups[0].init.steps@[k] is Module ==> exists|end: int|
                begun[k] < end && #[trigger] ends_module(setups, moves, k, end)
        }
    &&& forall|j: int, k: int| 0 <= j < k < begun.len() ==> begun[j] < begun[k]
    &&& forall|i: int|
        0 <= i < moves.len() - 1 && (#[trigger] moves[i]) is Advanced ==> {
            &&& setups[i].init.done < begun.len()
            &&& begun[setups[i].init.done as int] == i
        }
}

/// How far a set-up has come.
spec fn progress(setup: RealmSetup) -> int {
    3 * setup.init.done + match setup.init.phase {
        InitPhase::Next => 0int,
        InitPhase::Turning(_) => 1int,
        InitPhase::Ending(_) => 2int,
    }
}

/// A step that is not the last leaves the files as they are and goes back nowhere.
proof fn lemma_moves_on<B: JsBackend>(
    before: RealmSetup,
    after: RealmSetup,
    step: SetupMove<B>,
    action: InitAction,
)
    requires
        before.init.wf(),
        moved(before, after, step, action),
        is_going_on(action),
    ensures
        after.init.wf(),
        after.init.steps == before.init.steps,
        after.init.extensions == before.init.extensions,
        after.realm() == before.realm(),
        progress(before) <= progress(after),
        step is Advanced ==> progress(before) < progress(after) && before.init.done
            < before.init.steps@.len(),
        forall|k: int|
            progress(before) <= #[trigger] (3 * k) < progress(after) ==> step is Advanced
                && before.init.done == k,
        forall|k: int|
            progress(before) <= #[trigger] (3 * k) + 2 < progress(after) ==> {
                &&& before.init.done == k
                &&& before.init.steps@[k] is Module ==> (step matches SetupMove::Ended { result }
                    && result is Ok)
            },
{
}

proof fn lemma_reaches<B: JsBackend>(
    setups: Seq<RealmSetup>,
    moves: Seq<SetupMove<B>>,
    actions: Seq<InitAction>,
    realm: JsRealm,
    i: int,
    j: int,
)
    requires
        is_setup(setups, moves, actions, realm),
        0 <= i <= j < moves.len(),
    ensures
        setups[j].init.wf(),
        setups[j].init.steps == setups[0].init.steps,
        setups[j].init.extensions == setups[0].init.extensions,
        setups[j].realm() == setups[0].realm(),
        progress(setups[i]) <= progress(setups[j]),
        i < j && moves[i] is Advanced ==> progress(setups[i]) < progress(setups[j]),
    decreases j,
{
    if j > 0 {
        if i < j {
            lemma_reaches(setups, moves, actions, realm, i, j - 1);
        } else {
            lemma_reaches(setups, moves, actions, realm, j - 1, j - 1);
        }
        assert(moved(setups[j - 1], setups[j], moves[j - 1], actions[j - 1]));
        assert(is_going_on(actions[j - 1]));
        lemma_moves_on(setups[j - 1], setups[j], moves[j - 1], actions[j - 1]);
    }
}

proof fn lemma_begins_file<B: JsBackend>(
    setups: Seq<RealmSetup>,
    moves: Seq<SetupMove<B>>,
    actions: Seq<InitAction>,
    realm: JsRealm,
    k: int,
    j: int,
) -> (i: int)
    requires
        is_setup(setups, moves, actions, realm),
        0 <= j < moves.len(),
        0 <= k,
        3 * k < progress(setups[j]),
    ensures
        0 <= i < j,
        moves[i] is Advanced,
        setups[i].init.done == k,
    decreases j,
{
    lemma_reaches(setups, moves, actions, realm, j - 1, j - 1);
    if 3 * k < progress(setups[j - 1]) {
        lemma_begins_file(setups, moves, actions, realm, k, j - 1)
    } else {
        assert(moved(setups[j - 1], setups[j], moves[j - 1], actions[j - 1]));
        assert(is_going_on(actions[j - 1]));
        lemma_moves_on(setups[j - 1], setups[j], moves[j - 1], actions[j - 1]);
        j - 1
    }
}

proof fn lemma_ends_file<B: JsBackend>(
    setups: Seq<RealmSetup>,
    moves: Seq<SetupMove<B>>,
    actions: Seq<InitAction>,
    realm: JsRealm,
    k: int,
    j: int,
) -> (end: int)
    requires
        is_setup(setups, moves, actions, realm),
        0 <= j < moves.len(),
        0 <= k < setups[0].init.steps@.len(),
        setups[0].init.steps@[k] is Module,
        3 * k + 2 < progress(setups[j]),
    ensures
        ends_module(setups, moves, k, end),
        setups[end].init.phase is Ending,
    decreases j,
{
    lemma_reaches(setups, moves, actions, realm, j - 1, j - 1);
    if 3 * k + 2 < progress(setups[j - 1]) {
        lemma_ends_file(setups, moves, actions, realm, k, j - 1)
    } else {
        assert(moved(setups[j - 1], setups[j], moves[j - 1], actions[j - 1]));
        assert(is_going_on(actions[j - 1]));
        lemma_moves_on(setups[j - 1], setups[j], moves[j - 1], actions[j - 1]);
        j - 1
    }
}

/// A realm that comes out of a set-up is ready: the JavaScript of every extension was run in it,
/// each file once and in order, and the functions that native code calls are there. The runtime has
/// its extensions back.
pub proof fn realms_come_out_set_up<B: JsBackend>(
    setups: Seq<RealmSetup>,
    moves: Seq<SetupMove<B>>,
    actions: Seq<InitAction>,
    realm: JsRealm,
)
    requires
        is_setup(setups, moves, actions, realm),
    ensures
        realm == setups[0].realm(),
        setups[0].init.steps@ == all_steps(setups[0].init.extensions@),
        exists|begun: Seq<int>| #[trigger] begins_files(setups, moves, begun),
        moves.last() matches SetupMove::Advanced { before, after } && {
            let slot = after.v8_isolate.slots@[realm.idx() as int];
            &&& slot.js_recv_cb is Some
            &&& slot.js_build_custom_error_cb is Some
            &&& after.extensions_with_js == setups[0].init.extensions
        },
{
    let last = moves.len() - 1;
    lemma_reaches(setups, moves, actions, realm, last, last);
    assert(moved(setups[last], setups[last + 1], moves[last], actions[last]));
    let count = setups[0].init.steps@.len();
    assert(setups[last].init.done == count);
    let begun = Seq::new(
        count,
        |k: int|
            choose|i: int|
                0 <= i < last && (#[trigger] moves[i]) is Advanced && setups[i].init.done == k,
    );
    assert forall|k: int| 0 <= k < count implies {
        &&& 0 <= #[trigger] begun[k] < last
        &&& moves[begun[k]] is Advanced
        &&& setups[begun[k]].init.done == k
        &&& setups[begun[k]].init.steps@ == setups[0].init.steps@
        &&& setups[0].init.steps@[k] is Module ==> exists|end: int|
            begun[k] < end && #[trigger] ends_module(setups, moves, k, end)
    } by {
        let i = lemma_begins_file(setups, moves, actions, realm, k, last);
        assert(moves[i] is Advanced);
        let at = begun[k];
        lemma_reaches(setups, moves, actions, realm, at, at);
        assert(moved(setups[at], setups[at + 1], moves[at], actions[at]));
        if setups[0].init.steps@[k] is Module {
            let end = lemma_ends_file(setups, moves, actions, realm, k, last);
            if end <= at {
                lemma_reaches(setups, moves, actions, realm, end, at);
            }
            assert(at < end && ends_module(setups, moves, k, end));
        }
    }
    assert forall|j: int, k: int| 0 <= j < k < count implies begun[j] < begun[k] by {
        assert(moved(
            setups[begun[j]],
            setups[begun[j] + 1],
            moves[begun[j]],
            actions[begun[j]],
        ));
        assert(moved(
            setups[begun[k]],
            setups[begun[k] + 1],
            moves[begun[k]],
            actions[begun[k]],
        ));
        if begun[k] <= begun[j] {
            lemma_reaches(setups, moves, actions, realm, begun[k], begun[j]);
        }
    }
    assert forall|i: int| 0 <= i < last && (#[trigger] moves[i]) is Advanced implies {
        &&& setups[i].init.done < begun.len()
        &&& begun[setups[i].init.done as int] == i
    } by {
        lemma_reaches(setups, moves, actions, realm, i, last);
        assert(moved(setups[i], setups[i + 1], moves[i], actions[i]));
        let k = setups[i].init.done as int;
        let at = begun[k];
        assert(moved(setups[at], setups[at + 1], moves[at], actions[at]));
        if at < i {
            lemma_reaches(setups, moves, actions, realm, at, i);
        } else if i < at {
            lemma_reaches(setups, moves, actions, realm, i, at);
        }
    }
    assert(begins_files(setups, moves, begun));
}

/// The realms are the same, with the same ops.
pub open spec fn leaves_realms<B>(before: Isolate<B>, after: Isolate<B>) -> bool {
    &&& after.id == before.id
    &&& before.state matches Some(state_before)
    &&& after.state matches Some(state_after)
    &&& state_after.global_realm == state_before.global_realm
    &&& state_after.known_realms == state_before.known_realms
    &&& after.slots@.len() == before.slots@.len()
    &&& forall|r: int|
        0 <= r < before.slots@.len() ==> (#[trigger] after.slots@[r]).op_ctxs
            == before.slots@[r].op_ctxs
}

/// The isolates of a set-up, before its first step and after each. Between the steps, as in the
/// turns of the event loop, the realms are left as they are.
pub open spec fn are_isolates<B: JsBackend>(
    isolates: Seq<Isolate<B>>,
    moves: Seq<SetupMove<B>>,
) -> bool {
    &&& isolates.len() == moves.len() + 1
    &&& forall|i: int|
        0 <= i < moves.len() ==> match #[trigger] moves[i] {
            SetupMove::Advanced { before, after } => {
                &&& leaves_realms(isolates[i], before.v8_isolate)
                &&& isolates[i + 1] == after.v8_isolate
            },
            _ => leaves_realms(isolates[i], isolates[i + 1]),
        }
}

/// What JavaScript brings about leaves the realms as they are.
pub proof fn kept_isolates_leave_realms<B>(before: Isolate<B>, after: Isolate<B>)
    requires
        before.state is Some,
        after.keeps(before),
    ensures
        leaves_realms(before, after),
{
    assert forall|r: int| 0 <= r < before.slots@.len() implies (
    #[trigger] after.slots@[r]).op_ctxs == before.slots@[r].op_ctxs by {
        assert(after.slots@[r].keeps(before.slots@[r]));
    }
}

proof fn lemma_leaves_through<B>(before: Isolate<B>, between: Isolate<B>, after: Isolate<B>)
    requires
        leaves_realms(before, between),
        leaves_realms(between, after),
    ensures
        leaves_realms(before, after),
{
    assert forall|r: int| 0 <= r < before.slots@.len() implies (
    #[trigger] after.slots@[r]).op_ctxs == before.slots@[r].op_ctxs by {
        assert(between.slots@[r].op_ctxs == before.slots@[r].op_ctxs);
    }
}

proof fn lemma_step_leaves_realms<B: JsBackend>(
    before: RealmSetup,
    after: RealmSetup,
    runtime_before: JsRuntime<B>,
    runtime_after: JsRuntime<B>,
    action: InitAction,
)
    requires
        runtime_before.v8_isolate.state is Some,
        goes_on(before, after, runtime_before, runtime_after, action),
        is_going_on(action) || action matches InitAction::Finished(Ok(_)),
    ensures
        leaves_realms(runtime_before.v8_isolate, runtime_after.v8_isolate),
{
    let start = runtime_before.v8_isolate;
    let end = runtime_after.v8_isolate;
    let idx = before.realm().idx();
    if before.init.done < before.init.steps@.len() {
        match before.init.steps@[before.init.done as int] {
            JsStep::Module(file) => {
                let href = parsed_url(file.specifier@)->Ok_0.0;
                let id = start.module_map->0.next_module_id;
                let (middle, started) = choose|middle: JsRuntime<B>, started: bool| #[trigger]
                    evaluation_begun(
                        runtime_before,
                        runtime_after,
                        middle,
                        href,
                        file.code@,
                        id,
                        started,
                    );
                let loading = Isolate { module_map: middle.v8_isolate.module_map, ..start };
                kept_isolates_leave_realms(loading, middle.v8_isolate);
                kept_isolates_leave_realms(middle.v8_isolate, end);
                lemma_leaves_through(start, middle.v8_isolate, end);
            },
            JsStep::Script(file) => {
                kept_isolates_leave_realms(start, end);
            },
        }
    } else {
        let (middle, opresolve) = choose|middle: Isolate<B>, opresolve: Option<Function>| #[trigger]
            grabbed(start, middle, "Deno.core.opresolve"@, opresolve) && match opresolve {
                Some(opresolve) => grabs_second(middle, end, idx, opresolve, true),
                None => false,
            };
        kept_isolates_leave_realms(start, middle);
        let opresolve = opresolve->0;
        let (ready, build_custom_error) = choose|
            ready: Isolate<B>,
            build_custom_error: Option<Function>,
        | #[trigger]
            grabbed(middle, ready, "Deno.core.buildCustomError"@, build_custom_error)
                && match build_custom_error {
                Some(build_custom_error) => sets_cbs(
                    ready,
                    end,
                    idx,
                    opresolve,
                    build_custom_error,
                ),
                None => false,
            };
        kept_isolates_leave_realms(middle, ready);
        assert(leaves_realms(ready, end));
        lemma_leaves_through(start, middle, ready);
        lemma_leaves_through(start, ready, end);
    }
}

proof fn lemma_setup_leaves_realms<B: JsBackend>(
    setups: Seq<RealmSetup>,
    moves: Seq<SetupMove<B>>,
    actions: Seq<InitAction>,
    realm: JsRealm,
    isolates: Seq<Isolate<B>>,
    i: int,
)
    requires
        is_setup(setups, moves, actions, realm),
        are_isolates(isolates, moves),
        isolates[0].state is Some,
        0 <= i <= moves.len(),
    ensures
        leaves_realms(isolates[0], isolates[i]),
    decreases i,
{
    if i > 0 {
        lemma_setup_leaves_realms(setups, moves, actions, realm, isolates, i - 1);
        assert(moved(setups[i - 1], setups[i], moves[i - 1], actions[i - 1]));
        if i < moves.len() {
            assert(is_going_on(actions[i - 1]));
        }
        if let SetupMove::Advanced { before, after } = moves[i - 1] {
            lemma_step_leaves_realms(setups[i - 1], setups[i], before, after, actions[i - 1]);
            lemma_leaves_through(isolates[i - 1], before.v8_isolate, after.v8_isolate);
        }
        lemma_leaves_through(isolates[0], isolates[i - 1], isolates[i]);
    }
}

/// A realm that was created joins the others, which stay as they are: it is the last of them, and
/// it has the ops of the global realm, under the same numbers and in the same order.
pub proof fn created_realms_join_the_others<B: JsBackend>(
    before: Isolate<B>,
    setups: Seq<RealmSetup>,
    moves: Seq<SetupMove<B>>,
    actions: Seq<InitAction>,
    realm: JsRealm,
    isolates: Seq<Isolate<B>>,
)
    requires
        is_setup(setups, moves, actions, realm),
        are_isolates(isolates, moves),
        adds_realm(before, isolates[0], setups[0].realm()),
        before.slots@.len() == before.state->0.known_realms@.len(),
        before.slots@.len() > 0,
    ensures
        ({
            let count = before.state->0.known_realms@.len();
            let after = isolates.last();
            let op_ctxs = before.slots@[0].op_ctxs@;
            let own = after.slots@[count as int].op_ctxs@;
            &&& realm.idx() == count
            &&& after.state->0.known_realms@ == before.state->0.known_realms@.push(realm.0)
            &&& after.state->0.global_realm == before.state->0.global_realm
            &&& after.slots@.len() == count + 1
            &&& forall|r: int|
                0 <= r < count ==> (#[trigger] after.slots@[r]).op_ctxs == before.slots@[r].op_ctxs
            &&& own.len() == op_ctxs.len()
            &&& forall|i: int|
                0 <= i < op_ctxs.len() ==> {
                    &&& (#[trigger] own[i]).id == op_ctxs[i].id
                    &&& own[i].decl == op_ctxs[i].decl
                    &&& own[i].realm_idx == count
                }
        }),
{
    let begun = isolates[0];
    let count = before.state->0.known_realms@.len();
    lemma_setup_leaves_realms(setups, moves, actions, realm, isolates, moves.len() as int);
    realms_come_out_set_up(setups, moves, actions, realm);
    assert forall|r: int| 0 <= r < count implies (
    #[trigger] isolates.last().slots@[r]).op_ctxs == before.slots@[r].op_ctxs by {
        assert(begun.slots@[r] == begun.slots@.drop_last()[r]);
    }
    assert(begun.slots@[count as int] == begun.slots@.last());
    assert(count == before.state->0.known_realms.len());
    assert(realm.idx() == count);
    assert(isolates.last().slots@[count as int].op_ctxs == begun.slots@[count as int].op_ctxs);
}

} // verus!

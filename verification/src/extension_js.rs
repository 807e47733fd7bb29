//! Running the JavaScript of extensions when a realm is set up.
use crate::backend::{ran, JsBackend, Run};
use crate::error::{parsed_url, Error};
use crate::extension::{all_steps, entry_points_exist, extension_js, Extension, JsStep};
use crate::data::Value;
use crate::handle::Global;
use crate::isolate::Isolate;
use crate::modules::ModuleId;
use crate::ops::RealmIdx;
use crate::realm::executed;
use crate::runtime::{couldnt_execute, execution_note, loaded_as, JsRuntime, ModuleStart};
use crate::state::{JsRealm, JsRuntimeState};
use crate::turn::Turn;
use vstd::prelude::*;

verus! {

/// Where the current file stands.
#[derive(Clone, Copy, Debug, PartialEq, Eq, Structural)]
pub enum InitPhase {
    /// It was not begun yet.
    Next,
    /// It is a module, for which the event loop is run.
    Turning(ModuleId),
    /// It is a module, for which the event loop has nothing left to do.
    Ending(ModuleId),
}

/// What to do next about the JavaScript of extensions.
pub enum InitAction {
    /// Go on with the next file.
    Advance,
    /// Run a turn of the event loop, once there is something to do in it.
    RunTurn,
    /// Wait for this module to end.
    AwaitModule(ModuleId),
    /// All is over: the realm is set up, or this is why it is not.
    Finished(Result<JsRealm, Error>),
    /// The backend did not begin with this module.
    NotStarted(ModuleId),
    /// JavaScript lacks a function that native code has to call.
    NoCallbacks,
}

/// The JavaScript of extensions, which is run file by file.
pub struct ExtensionJsInit {
    /// The extensions, which the runtime is without while their JavaScript is run.
    pub extensions: Vec<Extension>,
    pub steps: Vec<JsStep>,
    /// How many files are done.
    pub done: usize,
    pub phase: InitPhase,
}

/// The error has a note on the file.
pub open spec fn is_noted(noted: Error, specifier: Seq<char>, error: Error) -> bool {
    noted matches Error::Context { context, source } && context@ == execution_note(specifier)
        && *source == error
}

impl ExtensionJsInit {
    pub open spec fn wf(self) -> bool {
        &&& self.steps@ == all_steps(self.extensions@)
        &&& self.done <= self.steps@.len()
        &&& self.phase != InitPhase::Next ==> self.done < self.steps@.len()
            && self.steps@[self.done as int] is Module
    }

    /// The current file is a module, which needs a number.
    pub open spec fn next_is_module(self) -> bool {
        self.done < self.steps@.len() && self.steps@[self.done as int] is Module
    }

    /// Whether the current file is a module, which needs a number.
    pub fn needs_module_id(&self) -> (yes: bool)
        ensures
            yes == self.next_is_module(),
    {
        self.done < self.steps.len() && matches!(self.steps[self.done], JsStep::Module(_))
    }

    /// The specifier of the current file.
    pub open spec fn specifier(self) -> Seq<char> {
        match self.steps@[self.done as int] {
            JsStep::Module(file) => file.specifier@,
            JsStep::Script(file) => file.specifier@,
        }
    }

    /// Takes the extensions whose JavaScript is to be run.
    pub(crate) fn begin<B>(runtime: &mut JsRuntime<B>) -> (init: Self)
        requires
            entry_points_exist(old(runtime).extensions_with_js@),
        ensures
            init.wf(),
            init.extensions == old(runtime).extensions_with_js,
            init.done == 0,
            init.phase == InitPhase::Next,
            final(runtime).extensions_with_js@ == Seq::<Extension>::empty(),
            *final(runtime) == (JsRuntime {
                extensions_with_js: final(runtime).extensions_with_js,
                ..*old(runtime)
            }),
    {
        let mut extensions: Vec<Extension> = Vec::new();
        std::mem::swap(&mut extensions, &mut runtime.extensions_with_js);
        let steps = extension_js(&extensions);
        ExtensionJsInit { extensions, steps, done: 0, phase: InitPhase::Next }
    }

    /// Gives the runtime its extensions back.
    pub(crate) fn finish<B>(&mut self, runtime: &mut JsRuntime<B>)
        ensures
            *final(runtime) == (JsRuntime {
                extensions_with_js: old(self).extensions,
                ..*old(runtime)
            }),
    {
        let mut extensions: Vec<Extension> = Vec::new();
        std::mem::swap(&mut extensions, &mut self.extensions);
        runtime.extensions_with_js = extensions;
    }

    /// Begins with the next file. A script is over with that; a module is loaded, and its
    /// evaluation begins.
    pub(crate) fn advance<B: JsBackend>(
        &mut self,
        runtime: &mut JsRuntime<B>,
        realm: &JsRealm,
    ) -> (action: InitAction)
        requires
            old(self).wf(),
            old(self).phase == InitPhase::Next,
            old(self).done < old(self).steps@.len(),
            old(runtime).is_set_up(),
            realm.is_of(old(runtime).v8_isolate),
            old(self).next_is_module() ==> old(runtime).v8_isolate.module_map->0.next_module_id
                < ModuleId::MAX,
        ensures
            final(runtime).is_set_up(),
            realm.is_of(final(runtime).v8_isolate),
            final(self).wf(),
            advanced(
                *old(self),
                *final(self),
                *old(runtime),
                *final(runtime),
                realm.idx(),
                action,
            ),
            *final(runtime) == (JsRuntime {
                v8_isolate: final(runtime).v8_isolate,
                ..*old(runtime)
            }),
    {
        match &self.steps[self.done] {
            JsStep::Module(file_source) => {
                match runtime.load_extension_module(file_source) {
                    Ok(id) => {
                        let ghost middle = *runtime;
                        let started = runtime.mod_evaluate(id) == ModuleStart::Started;
                        assert(evaluation_begun(
                            *old(runtime),
                            *runtime,
                            middle,
                            parsed_url(file_source.specifier@)->Ok_0.0,
                            file_source.code@,
                            id,
                            started,
                        ));
                        if started {
                            self.phase = InitPhase::Turning(id);
                            InitAction::RunTurn
                        } else {
                            InitAction::NotStarted(id)
                        }
                    },
                    Err(error) => InitAction::Finished(Err(error)),
                }
            },
            JsStep::Script(file_source) => {
                let outcome = realm.execute_script(
                    &mut runtime.v8_isolate,
                    file_source.specifier.as_str(),
                    file_source.code,
                );
                proof {
                    runtime.stays_set_up(*old(runtime));
                    assert(executed(
                        old(runtime).v8_isolate,
                        runtime.v8_isolate,
                        realm.idx(),
                        file_source.specifier@,
                        file_source.code@,
                        outcome,
                    ));
                }
                match outcome {
                    Ok(_) => {
                        assert(self.done < self.steps.len());
                        self.done = self.done + 1;
                        InitAction::Advance
                    },
                    Err(error) => InitAction::Finished(Err(error)),
                }
            },
        }
    }

    /// Goes on after a turn of the event loop. No tick is left scheduled, since ticks of some code
    /// would keep the event loop going for ever.
    pub(crate) fn on_turn<B: JsBackend>(
        &mut self,
        runtime: &mut JsRuntime<B>,
        turn: Turn,
    ) -> (action: InitAction)
        requires
            old(self).wf(),
            old(self).phase is Turning,
            old(runtime).is_set_up(),
        ensures
            final(self).wf(),
            turned(*old(self), *final(self), turn, action),
            final(runtime).is_set_up(),
            *final(runtime) == without_tick(*old(runtime)),
    {
        runtime.clear_tick();
        match turn {
            Turn::Ready(Ok(_)) => {
                if let InitPhase::Turning(id) = self.phase {
                    self.phase = InitPhase::Ending(id);
                    return InitAction::AwaitModule(id);
                }
                InitAction::RunTurn
            },
            Turn::Ready(Err(error)) => InitAction::Finished(Err(self.note(error))),
            Turn::Pending { .. } => InitAction::RunTurn,
        }
    }

    /// Goes on after a module has ended.
    pub(crate) fn on_module(&mut self, result: Result<(), Error>) -> (action: InitAction)
        requires
            old(self).wf(),
            old(self).phase is Ending,
        ensures
            final(self).wf(),
            module_ended(*old(self), *final(self), result, action),
    {
        match result {
            Ok(_) => {
                if self.done < self.steps.len() {
                    self.done = self.done + 1;
                }
                self.phase = InitPhase::Next;
                InitAction::Advance
            },
            Err(error) => InitAction::Finished(Err(self.note(error))),
        }
    }

    fn note(&self, error: Error) -> (noted: Error)
        requires
            self.done < self.steps@.len(),
        ensures
            is_noted(noted, self.specifier(), error),
    {
        match &self.steps[self.done] {
            JsStep::Module(file) => couldnt_execute(file.specifier.as_str(), error),
            JsStep::Script(file) => couldnt_execute(file.specifier.as_str(), error),
        }
    }
}

/// The runtime without a tick scheduled.
pub open spec fn without_tick<B>(runtime: JsRuntime<B>) -> JsRuntime<B> {
    JsRuntime {
        v8_isolate: Isolate {
            state: Some(
                JsRuntimeState { has_tick_scheduled: false, ..runtime.v8_isolate.state->0 },
            ),
            ..runtime.v8_isolate
        },
        ..runtime
    }
}

/// What a turn of the event loop means for the module that is evaluated.
pub open spec fn turned(
    before: ExtensionJsInit,
    after: ExtensionJsInit,
    turn: Turn,
    action: InitAction,
) -> bool {
    match turn {
        Turn::Ready(Ok(_)) => {
            let id = before.phase->Turning_0;
            &&& action == InitAction::AwaitModule(id)
            &&& after == (ExtensionJsInit { phase: InitPhase::Ending(id), ..before })
        },
        Turn::Ready(Err(error)) => {
            &&& action matches InitAction::Finished(Err(noted))
            &&& is_noted(noted, before.specifier(), error)
            &&& after == before
        },
        Turn::Pending { .. } => {
            &&& action == InitAction::RunTurn
            &&& after == before
        },
    }
}

/// What the end of a module means for the files.
pub open spec fn module_ended(
    before: ExtensionJsInit,
    after: ExtensionJsInit,
    result: Result<(), Error>,
    action: InitAction,
) -> bool {
    match result {
        Ok(_) => {
            &&& action == InitAction::Advance
            &&& after.done == before.done + 1
            &&& after == (ExtensionJsInit { done: after.done, phase: InitPhase::Next, ..before })
        },
        Err(error) => {
            &&& action matches InitAction::Finished(Err(noted))
            &&& is_noted(noted, before.specifier(), error)
            &&& after == before
        },
    }
}

/// A module was loaded under the normal form of its URL, and the backend was told to evaluate it.
pub open spec fn evaluation_begun<B: JsBackend>(
    before: JsRuntime<B>,
    after: JsRuntime<B>,
    middle: JsRuntime<B>,
    href: Seq<char>,
    code: Seq<char>,
    id: ModuleId,
    started: bool,
) -> bool {
    let modules = before.v8_isolate.module_map->0;
    &&& id == modules.next_module_id
    &&& modules.adds(after.v8_isolate.module_map->0, false, href)
    &&& loaded_as(before, middle, href, code)
    &&& ran(middle.v8_isolate, after.v8_isolate, Run::ExecuteModule { id, started })
}

/// What beginning with a file does.
pub open spec fn advanced<B: JsBackend>(
    before: ExtensionJsInit,
    after: ExtensionJsInit,
    runtime_before: JsRuntime<B>,
    runtime_after: JsRuntime<B>,
    realm_idx: RealmIdx,
    action: InitAction,
) -> bool {
    match before.steps@[before.done as int] {
        JsStep::Module(file) => match parsed_url(file.specifier@) {
            Ok((href, _, _)) => exists|middle: JsRuntime<B>, started: bool| #[trigger]
                evaluation_begun(
                    runtime_before,
                    runtime_after,
                    middle,
                    href,
                    file.code@,
                    runtime_before.v8_isolate.module_map->0.next_module_id,
                    started,
                ) && if started {
                    &&& action == InitAction::RunTurn
                    &&& after == (ExtensionJsInit {
                        phase: InitPhase::Turning(
                            runtime_before.v8_isolate.module_map->0.next_module_id,
                        ),
                        ..before
                    })
                } else {
                    &&& action == InitAction::NotStarted(
                        runtime_before.v8_isolate.module_map->0.next_module_id,
                    )
                    &&& after == before
                },
            Err(text) => {
                &&& action matches InitAction::Finished(Err(Error::Context { context, source }))
                &&& context@ == execution_note(file.specifier@)
                &&& source.is_message(text)
                &&& after == before
                &&& runtime_after == runtime_before
            },
        },
        JsStep::Script(file) => exists|outcome: Result<Global<Value>, Error>| #[trigger]
            executed(
                runtime_before.v8_isolate,
                runtime_after.v8_isolate,
                realm_idx,
                file.specifier@,
                file.code@,
                outcome,
            ) && match outcome {
                Ok(_) => {
                    &&& action == InitAction::Advance
                    &&& after.done == before.done + 1
                    &&& after == (ExtensionJsInit { done: after.done, ..before })
                },
                Err(error) => {
                    &&& action == InitAction::Finished(Err(error))
                    &&& after == before
                },
            },
    }
}

} // verus!

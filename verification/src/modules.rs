//! The ES modules that were handed to the backend.
use crate::error::{generic_error, Error};
use crate::text::{debug_string, debug_text};
use std::collections::HashMap;
use vstd::prelude::*;

verus! {

pub type ModuleId = i32;

/// All modules that were loaded, by the number that each was given.
pub struct ModuleMap {
    pub next_module_id: ModuleId,
    pub by_id: HashMap<ModuleId, ModuleInfo>,
}

pub struct ModuleInfo {
    pub id: ModuleId,
    pub main: bool,
    pub name: String,
}

/// The error of a program that has two main modules.
pub open spec fn second_main_message(specifier: Seq<char>, existing: Seq<char>) -> Seq<char> {
    two_mains_text(debug_text(specifier), debug_text(existing))
}

/// The error of a program that has two main modules, which are shown as these texts.
pub open spec fn two_mains_text(specifier_shown: Seq<char>, existing_shown: Seq<char>) -> Seq<char> {
    "Trying to create \"main\" module ("@ + specifier_shown + "), when one already exists ("@
        + existing_shown + ")"@
}

/// The error of a program that has two main modules, which are shown as these texts.
pub fn two_mains_error(specifier_shown: &str, existing_shown: &str) -> (error: Error)
    ensures
        error.is_custom("Error"@, two_mains_text(specifier_shown@, existing_shown@)),
{
    let mut message = "Trying to create \"main\" module (".to_owned();
    message.append(specifier_shown);
    message.append("), when one already exists (");
    message.append(existing_shown);
    message.append(")");
    generic_error(message.as_str())
}

impl ModuleMap {
    /// The numbers of modules are below the next one, each module holds its own, and at most one
    /// module is the main one.
    pub open spec fn wf(self) -> bool {
        &&& self.next_module_id >= 0
        &&& forall|id: ModuleId| #[trigger]
            self.by_id@.contains_key(id) ==> 0 <= id < self.next_module_id
        &&& forall|id: ModuleId| #[trigger]
            self.by_id@.contains_key(id) ==> self.by_id@[id].id == id
        &&& forall|a: ModuleId, b: ModuleId| self.is_main(a) && self.is_main(b) ==> a == b
    }

    /// `id` is the number of the main module.
    pub open spec fn is_main(self, id: ModuleId) -> bool {
        self.by_id@.contains_key(id) && self.by_id@[id].main
    }

    pub open spec fn has_main(self) -> bool {
        exists|id: ModuleId| self.is_main(id)
    }

    /// The name of the main module.
    pub open spec fn main_name(self) -> Seq<char> {
        self.by_id@[choose|id: ModuleId| self.is_main(id)].name@
    }

    /// `after` has one module more, with the next number and this name.
    pub open spec fn adds(self, after: ModuleMap, main: bool, name: Seq<char>) -> bool {
        let id = self.next_module_id;
        &&& after.next_module_id == id + 1
        &&& after.by_id@.dom() == self.by_id@.dom().insert(id)
        &&& after.by_id@[id].id == id
        &&& after.by_id@[id].main == main
        &&& after.by_id@[id].name@ == name
        &&& forall|other: ModuleId| #[trigger]
            self.by_id@.contains_key(other) ==> after.by_id@[other] == self.by_id@[other]
    }

    /// `after` differs from this in nothing but that the number `id` was taken.
    pub open spec fn takes_number(self, after: ModuleMap, id: ModuleId) -> bool {
        &&& id == self.next_module_id
        &&& after.next_module_id == id + 1
        &&& after.by_id == self.by_id
    }

    /// Takes the next number for a module.
    pub fn next_module_id(&mut self) -> (id: ModuleId)
        requires
            old(self).next_module_id < ModuleId::MAX,
        ensures
            old(self).takes_number(*final(self), id),
            old(self).wf() ==> final(self).wf(),
    {
        let id = self.next_module_id;
        self.next_module_id = id + 1;
        assert(forall|other: ModuleId| self.is_main(other) == old(self).is_main(other));
        id
    }

    fn insert_next(&mut self, main: bool, specifier: &str) -> (id: ModuleId)
        requires
            old(self).wf(),
            old(self).next_module_id < ModuleId::MAX,
            main ==> !old(self).has_main(),
        ensures
            final(self).wf(),
            id == old(self).next_module_id,
            old(self).adds(*final(self), main, specifier@),
            forall|other: ModuleId| #[trigger]
                final(self).is_main(other) <==> old(self).is_main(other) || (main && other == id),
    {
        let id = self.next_module_id();
        let info = ModuleInfo { id, main, name: specifier.to_owned() };
        self.by_id.insert(id, info);
        proof {
            assert(!old(self).by_id@.contains_key(id));
            assert(self.by_id@.dom() =~= old(self).by_id@.dom().insert(id));
            assert forall|other: ModuleId| #[trigger]
                self.is_main(other) <==> old(self).is_main(other) || (main && other == id) by {
                assert(other != id ==> self.by_id@.contains_key(other) == old(
                    self,
                ).by_id@.contains_key(other));
            }
            assert forall|a: ModuleId, b: ModuleId|
                self.is_main(a) && self.is_main(b) implies a == b by {
                if main {
                    assert(!old(self).is_main(a));
                    assert(!old(self).is_main(b));
                }
            }
        }
        id
    }

    fn find_main(&self) -> (found: Option<ModuleId>)
        requires
            self.wf(),
        ensures
            match found {
                Some(id) => self.is_main(id),
                None => !self.has_main(),
            },
    {
        let mut id: ModuleId = 0;
        while id < self.next_module_id
            invariant
                self.wf(),
                0 <= id <= self.next_module_id,
                forall|other: ModuleId| 0 <= other < id ==> !#[trigger] self.is_main(other),
            decreases self.next_module_id - id,
        {
            match self.by_id.get(&id) {
                Some(info) => {
                    if info.main {
                        return Some(id);
                    }
                },
                None => {},
            }
            id = id + 1;
        }
        None
    }

    /// Registers the main module; there can be only one.
    pub fn load_main(&mut self, specifier: &str) -> (loaded: Result<ModuleId, Error>)
        requires
            old(self).wf(),
            old(self).next_module_id < ModuleId::MAX,
        ensures
            final(self).wf(),
            match loaded {
                Ok(id) => {
                    &&& !old(self).has_main()
                    &&& id == old(self).next_module_id
                    &&& old(self).adds(*final(self), true, specifier@)
                    &&& final(self).is_main(id)
                    &&& final(self).has_main()
                    &&& final(self).main_name() == specifier@
                },
                Err(error) => {
                    &&& old(self).has_main()
                    &&& *final(self) == *old(self)
                    &&& error.is_custom(
                        "Error"@,
                        second_main_message(specifier@, old(self).main_name()),
                    )
                },
            },
    {
        if let Some(main) = self.find_main() {
            proof {
                let chosen = choose|id: ModuleId| self.is_main(id);
                assert(self.is_main(chosen));
            }
            let specifier_shown = debug_string(specifier);
            let existing_shown = debug_string(self.by_id.get(&main).unwrap().name.as_str());
            return Err(two_mains_error(specifier_shown.as_str(), existing_shown.as_str()));
        }
        let id = self.insert_next(true, specifier);
        proof {
            assert(self.is_main(id));
            let chosen = choose|other: ModuleId| self.is_main(other);
            assert(self.is_main(chosen));
        }
        Ok(id)
    }

    /// Registers a module other than the main one.
    pub fn load_side(&mut self, specifier: &str) -> (loaded: Result<ModuleId, Error>)
        requires
            old(self).wf(),
            old(self).next_module_id < ModuleId::MAX,
        ensures
            final(self).wf(),
            loaded == Ok::<_, Error>(old(self).next_module_id),
            old(self).adds(*final(self), false, specifier@),
            final(self).has_main() == old(self).has_main(),
            old(self).has_main() ==> final(self).main_name() == old(self).main_name(),
    {
        let id = self.insert_next(false, specifier);
        proof {
            if old(self).has_main() {
                let before = choose|other: ModuleId| old(self).is_main(other);
                assert(self.is_main(before));
                let after = choose|other: ModuleId| self.is_main(other);
                assert(self.is_main(after));
                assert(old(self).by_id@.contains_key(before));
            } else if self.has_main() {
                let after = choose|other: ModuleId| self.is_main(other);
                assert(old(self).is_main(after));
            }
        }
        Ok(id)
    }

    /// Whether a module has this number.
    pub fn contains(&self, id: ModuleId) -> (found: bool)
        ensures
            found == self.by_id@.contains_key(id),
    {
        self.by_id.contains_key(&id)
    }
}

impl Default for ModuleMap {
    fn default() -> (map: Self)
        ensures
            map.wf(),
            map.next_module_id == 0,
            map.by_id@ == Map::<ModuleId, ModuleInfo>::empty(),
            !map.has_main(),
    {
        ModuleMap { next_module_id: 0, by_id: HashMap::new() }
    }
}

/// No number is taken twice: whatever happens between two calls of
/// [`ModuleMap::next_module_id`], as long as no number is given back.
pub proof fn numbers_differ(
    before: ModuleMap,
    between: ModuleMap,
    later: ModuleMap,
    after: ModuleMap,
    first: ModuleId,
    second: ModuleId,
)
    requires
        before.takes_number(between, first),
        between.next_module_id <= later.next_module_id,
        later.takes_number(after, second),
    ensures
        first < second,
        after.next_module_id > between.next_module_id,
{
}

/// Modules never lose or change their numbers: what a load leaves behind holds everything that
/// was there, and no two loads get the same number.
pub proof fn numbers_are_kept(
    before: ModuleMap,
    between: ModuleMap,
    after: ModuleMap,
    first_main: bool,
    first_name: Seq<char>,
    second_main: bool,
    second_name: Seq<char>,
)
    requires
        before.wf(),
        between.wf(),
        before.adds(between, first_main, first_name),
        between.adds(after, second_main, second_name),
    ensures
        before.next_module_id != between.next_module_id,
        after.by_id@[before.next_module_id].name@ == first_name,
        after.by_id@[between.next_module_id].name@ == second_name,
        forall|id: ModuleId| #[trigger]
            before.by_id@.contains_key(id) ==> after.by_id@.contains_key(id) && after.by_id@[id]
                == before.by_id@[id],
{
    assert(between.by_id@.contains_key(before.next_module_id));
    assert forall|id: ModuleId| #[trigger] before.by_id@.contains_key(id) implies after.by_id@
        .contains_key(id) && after.by_id@[id] == before.by_id@[id] by {
        assert(between.by_id@.dom().contains(id));
        assert(between.by_id@.contains_key(id));
        assert(after.by_id@.dom().contains(id));
    }
}

} // verus!

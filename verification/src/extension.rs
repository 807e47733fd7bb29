//! Bundles of ops and JavaScript that a runtime is made of.
use crate::ops::{FunctionCallback, OpDecl};
use crate::text::same_text;
use vstd::prelude::*;

verus! {

/// A JavaScript file of an extension.
#[derive(Debug)]
pub struct ExtensionFileSource {
    /// The name of the file. For a module that a runtime evaluates it has to be a URL, since the
    /// backend gets it in the normal form of one.
    pub specifier: String,
    pub code: &'static str,
}

impl Clone for ExtensionFileSource {
    fn clone(&self) -> (copy: Self)
        ensures
            copy == *self,
    {
        ExtensionFileSource { specifier: self.specifier.clone(), code: self.code }
    }
}

/// An extension of a runtime. Hooks of the embedder's stand for themselves by a number each.
#[derive(Debug)]
pub struct Extension {
    pub name: &'static str,
    /// The names of extensions that have to come before this one.
    pub deps: Vec<&'static str>,
    pub js_files: Vec<ExtensionFileSource>,
    pub esm_files: Vec<ExtensionFileSource>,
    pub esm_entry_point: Option<&'static str>,
    pub ops: Option<Vec<OpDecl>>,
    /// Changes the ops of all extensions before they are registered.
    pub middleware_fn: Option<usize>,
    /// Prepares what the ops of this extension share.
    pub opstate_fn: Option<usize>,
    /// Runs in every turn of the event loop.
    pub event_loop_middleware: Option<usize>,
}

impl Extension {
    /// An extension with a name and nothing in it.
    pub fn builder(name: &'static str) -> (extension: Extension)
        ensures
            extension.name == name,
            extension.deps@ == Seq::<&'static str>::empty(),
            extension.js_files@ == Seq::<ExtensionFileSource>::empty(),
            extension.esm_files@ == Seq::<ExtensionFileSource>::empty(),
            extension.esm_entry_point is None,
            extension.ops is None,
            extension.middleware_fn is None,
            extension.opstate_fn is None,
            extension.event_loop_middleware is None,
    {
        Extension {
            name,
            deps: Vec::new(),
            js_files: Vec::new(),
            esm_files: Vec::new(),
            esm_entry_point: None,
            ops: None,
            middleware_fn: None,
            opstate_fn: None,
            event_loop_middleware: None,
        }
    }

    /// The same extension with these dependencies.
    pub fn dependencies(self, deps: Vec<&'static str>) -> (extension: Extension)
        ensures
            extension == (Extension { deps, ..self }),
    {
        Extension { deps, ..self }
    }

    /// The same extension with these modules, under the specifiers that they have. Plain file names
    /// are not made URLs here: that is left to whoever puts the extension among those with
    /// JavaScript, and knows the scheme and the directory that the backend has for its modules.
    pub fn esm(self, esm_files: Vec<ExtensionFileSource>) -> (extension: Extension)
        ensures
            extension == (Extension { esm_files, ..self }),
    {
        Extension { esm_files, ..self }
    }

    /// The same extension with these ops.
    pub fn ops(self, ops: Vec<OpDecl>) -> (extension: Extension)
        ensures
            extension == (Extension { ops: Some(ops), ..self }),
    {
        Extension { ops: Some(ops), ..self }
    }

    /// What is left of the extension once its ops are registered.
    pub open spec fn without_ops(self) -> Extension {
        Extension { ops: None, middleware_fn: None, ..self }
    }

    /// Gives the ops away.
    pub fn init_ops(&mut self) -> (ops: Option<Vec<OpDecl>>)
        ensures
            ops == old(self).ops,
            *final(self) == (Extension { ops: None, ..*old(self) }),
    {
        self.ops.take()
    }

    /// Gives the middleware away.
    pub fn init_middleware(&mut self) -> (middleware: Option<usize>)
        ensures
            middleware == old(self).middleware_fn,
            *final(self) == (Extension { middleware_fn: None, ..*old(self) }),
    {
        self.middleware_fn.take()
    }

    /// Gives the event loop middleware away.
    pub fn init_event_loop_middleware(&mut self) -> (middleware: Option<usize>)
        ensures
            middleware == old(self).event_loop_middleware,
            *final(self) == (Extension { event_loop_middleware: None, ..*old(self) }),
    {
        self.event_loop_middleware.take()
    }
}

/// An extension of this name is among the first `count`.
pub open spec fn is_named(extensions: Seq<Extension>, count: int, name: Seq<char>) -> bool {
    exists|j: int| 0 <= j < count && (#[trigger] extensions[j]).name@ == name
}

/// Every dependency of an extension from the place `from` on comes before it.
pub open spec fn dependencies_met_from(extensions: Seq<Extension>, from: int) -> bool {
    forall|i: int, k: int|
        from <= i < extensions.len() && 0 <= k < extensions[i].deps@.len() ==> is_named(
            extensions,
            i,
            (#[trigger] extensions[i].deps@[k])@,
        )
}

/// Every dependency of an extension comes before it.
pub open spec fn dependencies_met(extensions: Seq<Extension>) -> bool {
    dependencies_met_from(extensions, 0)
}

proof fn lemma_is_named_in_both(
    first: Seq<Extension>,
    second: Seq<Extension>,
    count: int,
    name: Seq<char>,
)
    requires
        0 <= count <= second.len(),
    ensures
        is_named(first + second, first.len() + count, name) == (is_named(
            first,
            first.len() as int,
            name,
        ) || is_named(second, count, name)),
{
    let both = first + second;
    let all = first.len() + count;
    if is_named(both, all, name) {
        let j = choose|j: int| 0 <= j < all && (#[trigger] both[j]).name@ == name;
        if j < first.len() {
            assert(first[j].name@ == name);
        } else {
            assert(second[j - first.len()].name@ == name);
        }
    }
    if is_named(first, first.len() as int, name) {
        let j = choose|j: int| 0 <= j < first.len() && (#[trigger] first[j]).name@ == name;
        assert(both[j].name@ == name);
    }
    if is_named(second, count, name) {
        let j = choose|j: int| 0 <= j < count && (#[trigger] second[j]).name@ == name;
        assert(both[first.len() + j].name@ == name);
    }
}

proof fn lemma_dependencies_of_both(first: Seq<Extension>, second: Seq<Extension>)
    ensures
        dependencies_met(first + second) == (dependencies_met(first) && dependencies_met_from(
            first + second,
            first.len() as int,
        )),
{
    let both = first + second;
    assert forall|i: int, k: int|
        0 <= i < first.len() && 0 <= k < first[i].deps@.len() implies is_named(
        both,
        i,
        (#[trigger] first[i].deps@[k])@,
    ) == is_named(first, i, first[i].deps@[k]@) by {
        let name = first[i].deps@[k]@;
        if is_named(both, i, name) {
            let j = choose|j: int| 0 <= j < i && (#[trigger] both[j]).name@ == name;
            assert(first[j].name@ == name);
        }
        if is_named(first, i, name) {
            let j = choose|j: int| 0 <= j < i && (#[trigger] first[j]).name@ == name;
            assert(both[j].name@ == name);
        }
    }
    if dependencies_met(both) {
        assert forall|i: int, k: int|
            0 <= i < first.len() && 0 <= k < first[i].deps@.len() implies is_named(
            first,
            i,
            (#[trigger] first[i].deps@[k])@,
        ) by {
            assert(both[i].deps@[k] == first[i].deps@[k]);
        }
    }
    if dependencies_met(first) && dependencies_met_from(both, first.len() as int) {
        assert forall|i: int, k: int|
            0 <= i < both.len() && 0 <= k < both[i].deps@.len() implies is_named(
            both,
            i,
            (#[trigger] both[i].deps@[k])@,
        ) by {
            if i < first.len() {
                assert(first[i].deps@[k] == both[i].deps@[k]);
            }
        }
    }
}

/// Whether an extension of this name is in the list.
fn has_name(extensions: &Vec<Extension>, count: usize, name: &str) -> (found: bool)
    requires
        count <= extensions@.len(),
    ensures
        found == is_named(extensions@, count as int, name@),
{
    let mut j: usize = 0;
    while j < count
        invariant
            j <= count <= extensions@.len(),
            forall|i: int| 0 <= i < j ==> (#[trigger] extensions@[i]).name@ != name@,
        decreases count - j,
    {
        if same_text(extensions[j].name, name) {
            assert(extensions@[j as int].name@ == name@);
            return true;
        }
        j = j + 1;
    }
    false
}

/// Whether every dependency of an extension of a list comes before it, be it in the list or among
/// those that come before the list.
fn check_list(earlier: &Vec<Extension>, list: &Vec<Extension>) -> (met: bool)
    ensures
        met == dependencies_met_from(earlier@ + list@, earlier@.len() as int),
{
    let ghost all = earlier@ + list@;
    let ghost from: int = earlier@.len() as int;
    let mut i: usize = 0;
    while i < list.len()
        invariant
            i <= list@.len(),
            all == earlier@ + list@,
            from == earlier@.len(),
            forall|h: int, k: int|
                from <= h < from + i && 0 <= k < all[h].deps@.len() ==> is_named(
                    all,
                    h,
                    (#[trigger] all[h].deps@[k])@,
                ),
        decreases list@.len() - i,
    {
        let mut k: usize = 0;
        while k < list[i].deps.len()
            invariant
                i < list@.len(),
                k <= list@[i as int].deps@.len(),
                all == earlier@ + list@,
                from == earlier@.len(),
                forall|j: int|
                    0 <= j < k ==> is_named(
                        all,
                        from + i,
                        (#[trigger] list@[i as int].deps@[j])@,
                    ),
            decreases list@[i as int].deps@.len() - k,
        {
            let name = list[i].deps[k];
            let found = has_name(earlier, earlier.len(), name) || has_name(list, i, name);
            proof {
                lemma_is_named_in_both(earlier@, list@, i as int, name@);
                assert(all[from + i].deps@[k as int] == name);
            }
            if !found {
                return false;
            }
            k = k + 1;
        }
        assert(all[from + i] == list@[i as int]);
        i = i + 1;
    }
    true
}

/// Whether every dependency of an extension comes before it, where those of `with_js` come after
/// the others.
pub fn check_dependencies(extensions: &Vec<Extension>, with_js: &Vec<Extension>) -> (met: bool)
    ensures
        met == dependencies_met(extensions@ + with_js@),
{
    proof {
        lemma_dependencies_of_both(extensions@, with_js@);
        assert(Seq::<Extension>::empty() + extensions@ == extensions@);
    }
    check_list(&Vec::new(), extensions) && check_list(extensions, with_js)
}

/// The middleware of the extensions, in order.
pub open spec fn middleware_of(extensions: Seq<Extension>) -> Seq<usize>
    decreases extensions.len(),
{
    if extensions.len() == 0 {
        Seq::empty()
    } else {
        let earlier = middleware_of(extensions.drop_last());
        match extensions.last().middleware_fn {
            Some(id) => earlier.push(id),
            None => earlier,
        }
    }
}

/// The ops of the extensions, in order.
pub open spec fn declared_ops(extensions: Seq<Extension>) -> Seq<OpDecl>
    decreases extensions.len(),
{
    if extensions.len() == 0 {
        Seq::empty()
    } else {
        let earlier = declared_ops(extensions.drop_last());
        match extensions.last().ops {
            Some(ops) => earlier + ops@,
            None => earlier,
        }
    }
}

proof fn lemma_middleware_of_both(first: Seq<Extension>, second: Seq<Extension>)
    ensures
        middleware_of(first + second) == middleware_of(first) + middleware_of(second),
    decreases second.len(),
{
    if second.len() > 0 {
        lemma_middleware_of_both(first, second.drop_last());
        assert((first + second).drop_last() == first + second.drop_last());
        assert(middleware_of(first + second) =~= middleware_of(first) + middleware_of(second));
    } else {
        assert(first + second == first);
        assert(middleware_of(first) + middleware_of(second) == middleware_of(first));
    }
}

proof fn lemma_declared_ops_of_both(first: Seq<Extension>, second: Seq<Extension>)
    ensures
        declared_ops(first + second) == declared_ops(first) + declared_ops(second),
    decreases second.len(),
{
    if second.len() > 0 {
        lemma_declared_ops_of_both(first, second.drop_last());
        assert((first + second).drop_last() == first + second.drop_last());
        assert(declared_ops(first + second) =~= declared_ops(first) + declared_ops(second));
    } else {
        assert(first + second == first);
        assert(declared_ops(first) + declared_ops(second) == declared_ops(first));
    }
}

/// What came of an op after none of the middleware, after the first, and so on.
pub open spec fn is_wrapping<M: Fn(usize, OpDecl) -> OpDecl>(
    middleware: M,
    ids: Seq<usize>,
    stages: Seq<OpDecl>,
) -> bool {
    &&& stages.len() == ids.len() + 1
    &&& forall|i: int|
        #![trigger ids[i]]
        0 <= i < ids.len() ==> call_ensures(middleware, (ids[i], stages[i]), stages[i + 1])
}

/// How an op is registered of which the middleware has made `changed`: it keeps its name, and one
/// that is disabled does nothing.
pub open spec fn registered(declared: OpDecl, changed: OpDecl) -> OpDecl {
    OpDecl {
        name: declared.name,
        v8_fn_ptr: if changed.enabled {
            changed.v8_fn_ptr
        } else if changed.is_async {
            FunctionCallback::VoidAsync
        } else {
            FunctionCallback::VoidSync
        },
        ..changed
    }
}

/// `op` is what is registered for a declared op.
pub open spec fn is_registered<M: Fn(usize, OpDecl) -> OpDecl>(
    middleware: M,
    ids: Seq<usize>,
    declared: OpDecl,
    op: OpDecl,
) -> bool {
    exists|stages: Seq<OpDecl>| #[trigger]
        is_wrapping(middleware, ids, stages) && stages.first() == declared && op == registered(
            declared,
            stages.last(),
        )
}

/// A registered op has the name that it was declared under, and one that is disabled is void.
pub proof fn registered_keeps_name<M: Fn(usize, OpDecl) -> OpDecl>(
    middleware: M,
    ids: Seq<usize>,
    declared: OpDecl,
    op: OpDecl,
)
    requires
        is_registered(middleware, ids, declared, op),
    ensures
        op.name == declared.name,
        !op.enabled && op.is_async ==> op.v8_fn_ptr == FunctionCallback::VoidAsync,
        !op.enabled && !op.is_async ==> op.v8_fn_ptr == FunctionCallback::VoidSync,
{
}

/// Without middleware an enabled op is registered as it was declared.
pub proof fn registered_without_middleware<M: Fn(usize, OpDecl) -> OpDecl>(
    middleware: M,
    declared: OpDecl,
    op: OpDecl,
)
    requires
        is_registered(middleware, Seq::empty(), declared, op),
        declared.enabled,
    ensures
        op == declared,
{
}

fn take_middleware(extensions: &mut Vec<Extension>, middleware: &mut Vec<usize>)
    ensures
        final(middleware)@ == old(middleware)@ + middleware_of(old(extensions)@),
        final(extensions)@ == old(extensions)@.map_values(
            |extension: Extension| Extension { middleware_fn: None, ..extension },
        ),
{
    let mut i: usize = 0;
    while i < extensions.len()
        invariant
            i <= extensions@.len(),
            extensions@.len() == old(extensions)@.len(),
            middleware@ == old(middleware)@ + middleware_of(old(extensions)@.take(i as int)),
            forall|k: int|
                0 <= k < i ==> #[trigger] extensions@[k] == (Extension {
                    middleware_fn: None,
                    ..old(extensions)@[k]
                }),
            forall|k: int|
                i <= k < extensions@.len() ==> #[trigger] extensions@[k] == old(extensions)@[k],
        decreases extensions@.len() - i,
    {
        let taken = extensions[i].init_middleware();
        if let Some(id) = taken {
            middleware.push(id);
        }
        i = i + 1;
        assert(old(extensions)@.take(i as int).drop_last() == old(extensions)@.take(i - 1));
    }
    assert(old(extensions)@.take(i as int) == old(extensions)@);
    assert(extensions@ =~= old(extensions)@.map_values(
        |extension: Extension| Extension { middleware_fn: None, ..extension },
    ));
}

fn take_ops(extensions: &mut Vec<Extension>, ops: &mut Vec<OpDecl>)
    ensures
        final(ops)@ == old(ops)@ + declared_ops(old(extensions)@),
        final(extensions)@ == old(extensions)@.map_values(
            |extension: Extension| Extension { ops: None, ..extension },
        ),
{
    let mut i: usize = 0;
    while i < extensions.len()
        invariant
            i <= extensions@.len(),
            extensions@.len() == old(extensions)@.len(),
            ops@ == old(ops)@ + declared_ops(old(extensions)@.take(i as int)),
            forall|k: int|
                0 <= k < i ==> #[trigger] extensions@[k] == (Extension {
                    ops: None,
                    ..old(extensions)@[k]
                }),
            forall|k: int|
                i <= k < extensions@.len() ==> #[trigger] extensions@[k] == old(extensions)@[k],
        decreases extensions@.len() - i,
    {
        let taken = extensions[i].init_ops();
        if let Some(more) = taken {
            let mut more = more;
            ops.append(&mut more);
        }
        i = i + 1;
        assert(old(extensions)@.take(i as int).drop_last() == old(extensions)@.take(i - 1));
    }
    assert(old(extensions)@.take(i as int) == old(extensions)@);
    assert(extensions@ =~= old(extensions)@.map_values(
        |extension: Extension| Extension { ops: None, ..extension },
    ));
}

/// Registers one op: hands it through the middleware, and voids it if it is disabled.
pub fn register_op<M: Fn(usize, OpDecl) -> OpDecl>(
    declared: OpDecl,
    ids: &Vec<usize>,
    middleware: &M,
) -> (op: OpDecl)
    requires
        forall|id: usize, op: OpDecl| call_requires(*middleware, (id, op)),
    ensures
        is_registered(*middleware, ids@, declared, op),
{
    let ghost mut stages: Seq<OpDecl> = seq![declared];
    let mut changed = declared;
    let mut i: usize = 0;
    while i < ids.len()
        invariant
            i <= ids@.len(),
            forall|id: usize, op: OpDecl| call_requires(*middleware, (id, op)),
            is_wrapping(*middleware, ids@.take(i as int), stages),
            stages.first() == declared,
            stages.last() == changed,
        decreases ids@.len() - i,
    {
        let ghost before = stages;
        changed = middleware(ids[i], changed);
        i = i + 1;
        proof {
            stages = stages.push(changed);
            let taken = ids@.take(i as int);
            assert forall|k: int| #![trigger taken[k]] 0 <= k < taken.len() implies call_ensures(
                *middleware,
                (taken[k], stages[k]),
                stages[k + 1],
            ) by {
                if k < i - 1 {
                    assert(ids@.take(i - 1)[k] == taken[k]);
                }
            }
        }
    }
    assert(ids@.take(i as int) == ids@);
    let op = OpDecl { name: declared.name, ..changed };
    if op.enabled {
        op
    } else {
        OpDecl {
            v8_fn_ptr: if op.is_async {
                FunctionCallback::VoidAsync
            } else {
                FunctionCallback::VoidSync
            },
            ..op
        }
    }
}

/// Collects ops from extensions & applies middleware
pub fn collect_ops<M: Fn(usize, OpDecl) -> OpDecl>(
    extensions: &mut Vec<Extension>,
    extensions_with_js: &mut Vec<Extension>,
    middleware: &M,
) -> (ops: Vec<OpDecl>)
    requires
        dependencies_met(old(extensions)@ + old(extensions_with_js)@),
        forall|id: usize, op: OpDecl| call_requires(*middleware, (id, op)),
    ensures
        ops@.len() == declared_ops(old(extensions)@ + old(extensions_with_js)@).len(),
        forall|i: int|
            0 <= i < ops@.len() ==> is_registered(
                *middleware,
                middleware_of(old(extensions)@ + old(extensions_with_js)@),
                declared_ops(old(extensions)@ + old(extensions_with_js)@)[i],
                #[trigger] ops@[i],
            ),
        final(extensions)@ == old(extensions)@.map_values(|e: Extension| e.without_ops()),
        final(extensions_with_js)@ == old(extensions_with_js)@.map_values(
            |e: Extension| e.without_ops(),
        ),
{
    let mut ids: Vec<usize> = Vec::new();
    take_middleware(extensions, &mut ids);
    take_middleware(extensions_with_js, &mut ids);
    let ghost first = extensions@;
    let ghost second = extensions_with_js@;
    let mut declared: Vec<OpDecl> = Vec::new();
    take_ops(extensions, &mut declared);
    take_ops(extensions_with_js, &mut declared);
    proof {
        lemma_middleware_of_both(old(extensions)@, old(extensions_with_js)@);
        lemma_declared_ops_of_both(old(extensions)@, old(extensions_with_js)@);
        lemma_same_ops(old(extensions)@, first);
        lemma_same_ops(old(extensions_with_js)@, second);
        assert(ids@ =~= middleware_of(old(extensions)@ + old(extensions_with_js)@));
        assert(declared@ =~= declared_ops(old(extensions)@ + old(extensions_with_js)@));
        assert(extensions@ =~= old(extensions)@.map_values(|e: Extension| e.without_ops()));
        assert(extensions_with_js@ =~= old(extensions_with_js)@.map_values(
            |e: Extension| e.without_ops(),
        ));
    }
    let mut ops: Vec<OpDecl> = Vec::new();
    let mut i: usize = 0;
    while i < declared.len()
        invariant
            i <= declared@.len(),
            ops@.len() == i,
            forall|id: usize, op: OpDecl| call_requires(*middleware, (id, op)),
            forall|k: int|
                0 <= k < i ==> is_registered(
                    *middleware,
                    ids@,
                    declared@[k],
                    #[trigger] ops@[k],
                ),
        decreases declared@.len() - i,
    {
        let op = register_op(declared[i], &ids, middleware);
        ops.push(op);
        i = i + 1;
    }
    ops
}

proof fn lemma_same_ops(before: Seq<Extension>, after: Seq<Extension>)
    requires
        before.len() == after.len(),
        forall|k: int| 0 <= k < before.len() ==> (#[trigger] after[k]).ops == before[k].ops,
    ensures
        declared_ops(after) == declared_ops(before),
    decreases before.len(),
{
    if before.len() > 0 {
        lemma_same_ops(before.drop_last(), after.drop_last());
        assert(after.last() == after[after.len() - 1]);
    }
}

/// A JavaScript file that is run when a realm is set up.
#[derive(Debug)]
pub enum JsStep {
    /// It is loaded and evaluated as a module.
    Module(ExtensionFileSource),
    /// It is executed as a script.
    Script(ExtensionFileSource),
}

/// A file has this specifier.
pub open spec fn is_specified(files: Seq<ExtensionFileSource>, specifier: Seq<char>) -> bool {
    exists|i: int| 0 <= i < files.len() && (#[trigger] files[i]).specifier@ == specifier
}

/// The first file with this specifier.
pub open spec fn first_specified(
    files: Seq<ExtensionFileSource>,
    specifier: Seq<char>,
) -> ExtensionFileSource
    decreases files.len(),
{
    if files.len() == 0 {
        arbitrary()
    } else if files[0].specifier@ == specifier {
        files[0]
    } else {
        first_specified(files.drop_first(), specifier)
    }
}

/// Every entry point is one of the modules of its extension.
pub open spec fn entry_points_exist(extensions: Seq<Extension>) -> bool {
    forall|i: int|
        0 <= i < extensions.len() ==> ((
        #[trigger] extensions[i]).esm_entry_point matches Some(entry_point) ==> is_specified(
            extensions[i].esm_files@,
            entry_point@,
        ))
}

/// The modules of an extension that are evaluated: its entry point, or all where it has none.
pub open spec fn evaluated_modules(extension: Extension) -> Seq<ExtensionFileSource> {
    match extension.esm_entry_point {
        Some(entry_point) => seq![first_specified(extension.esm_files@, entry_point@)],
        None => extension.esm_files@,
    }
}

/// What is run of an extension: its modules, and its scripts after them.
pub open spec fn steps_of(extension: Extension) -> Seq<JsStep> {
    evaluated_modules(extension).map_values(|file: ExtensionFileSource| JsStep::Module(file))
        + extension.js_files@.map_values(|file: ExtensionFileSource| JsStep::Script(file))
}

/// What is run of all extensions, one after another.
pub open spec fn all_steps(extensions: Seq<Extension>) -> Seq<JsStep>
    decreases extensions.len(),
{
    if extensions.len() == 0 {
        Seq::empty()
    } else {
        all_steps(extensions.drop_last()) + steps_of(extensions.last())
    }
}

fn find_specified(files: &Vec<ExtensionFileSource>, specifier: &str) -> (found: Option<usize>)
    ensures
        match found {
            Some(i) => i < files@.len() && files@[i as int].specifier@ == specifier@
                && files@[i as int] == first_specified(files@, specifier@),
            None => !is_specified(files@, specifier@),
        },
{
    let mut i: usize = 0;
    assert(files@.skip(0) == files@);
    while i < files.len()
        invariant
            i <= files@.len(),
            forall|k: int| 0 <= k < i ==> (#[trigger] files@[k]).specifier@ != specifier@,
            first_specified(files@.skip(i as int), specifier@) == first_specified(
                files@,
                specifier@,
            ),
        decreases files@.len() - i,
    {
        assert(files@.skip(i as int)[0] == files@[i as int]);
        if same_text(files[i].specifier.as_str(), specifier) {
            return Some(i);
        }
        assert(files@.skip(i as int).drop_first() == files@.skip(i + 1));
        i = i + 1;
    }
    None
}

/// Whether every entry point is one of the modules of its extension.
pub fn check_entry_points(extensions: &Vec<Extension>) -> (exist: bool)
    ensures
        exist == entry_points_exist(extensions@),
{
    let mut i: usize = 0;
    while i < extensions.len()
        invariant
            i <= extensions@.len(),
            forall|k: int|
                0 <= k < i ==> ((
                #[trigger] extensions@[k]).esm_entry_point matches Some(entry_point)
                    ==> is_specified(extensions@[k].esm_files@, entry_point@)),
        decreases extensions@.len() - i,
    {
        if let Some(entry_point) = extensions[i].esm_entry_point {
            let found = find_specified(&extensions[i].esm_files, entry_point);
            if found.is_none() {
                assert(extensions@[i as int].esm_entry_point == Some(entry_point));
                return false;
            }
        }
        i = i + 1;
    }
    true
}

/// What is run of the extensions when a realm is set up, in order.
pub fn extension_js(extensions: &Vec<Extension>) -> (steps: Vec<JsStep>)
    requires
        entry_points_exist(extensions@),
    ensures
        steps@ == all_steps(extensions@),
{
    let mut steps: Vec<JsStep> = Vec::new();
    let mut i: usize = 0;
    while i < extensions.len()
        invariant
            i <= extensions@.len(),
            entry_points_exist(extensions@),
            steps@ == all_steps(extensions@.take(i as int)),
        decreases extensions@.len() - i,
    {
        let ext = &extensions[i];
        let ghost before = steps@;
        let ghost modules = evaluated_modules(*ext).map_values(
            |file: ExtensionFileSource| JsStep::Module(file),
        );
        let ghost scripts = ext.js_files@.map_values(
            |file: ExtensionFileSource| JsStep::Script(file),
        );
        assert(extensions@[i as int] == *ext);
        match ext.esm_entry_point {
            Some(entry_point) => {
                if let Some(k) = find_specified(&ext.esm_files, entry_point) {
                    steps.push(JsStep::Module(ext.esm_files[k].clone()));
                }
                assert(steps@ =~= before + modules);
            },
            None => {
                let mut k: usize = 0;
                while k < ext.esm_files.len()
                    invariant
                        k <= ext.esm_files@.len(),
                        modules == ext.esm_files@.map_values(
                            |file: ExtensionFileSource| JsStep::Module(file),
                        ),
                        steps@ == before + modules.take(k as int),
                    decreases ext.esm_files@.len() - k,
                {
                    steps.push(JsStep::Module(ext.esm_files[k].clone()));
                    k = k + 1;
                    assert(modules.take(k as int) =~= modules.take(k - 1).push(modules[k - 1]));
                }
                assert(modules.take(k as int) == modules);
            },
        }
        let mut k: usize = 0;
        while k < ext.js_files.len()
            invariant
                k <= ext.js_files@.len(),
                scripts == ext.js_files@.map_values(
                    |file: ExtensionFileSource| JsStep::Script(file),
                ),
                steps@ == before + modules + scripts.take(k as int),
            decreases ext.js_files@.len() - k,
        {
            steps.push(JsStep::Script(ext.js_files[k].clone()));
            k = k + 1;
            assert(scripts.take(k as int) =~= scripts.take(k - 1).push(scripts[k - 1]));
        }
        assert(scripts.take(k as int) == scripts);
        i = i + 1;
        assert(extensions@.take(i as int).drop_last() == extensions@.take(i - 1));
        assert(before + modules + scripts =~= before + (modules + scripts));
    }
    assert(extensions@.take(i as int) == extensions@);
    steps
}

} // verus!

//! What becomes of the ops and the files of extensions.
use crate::extension::{
    all_steps, check_dependencies, check_entry_points, collect_ops, declared_ops, dependencies_met,
    entry_points_exist, extension_js, first_specified, is_registered, is_wrapping, middleware_of,
    register_op, steps_of, Extension, ExtensionFileSource, JsStep,
};
use crate::ops::{FunctionCallback, OpDecl};
use crate::runtime::{loop_middleware_of, starts_with_ops};
use crate::ops::OpCtx;
use vstd::prelude::*;

verus! {

/// What an op is before any middleware, after the first, and so on up to the last.
pub open spec fn passes_through<M: Fn(usize, OpDecl) -> OpDecl>(
    middleware: M,
    ids: Seq<usize>,
    declared: OpDecl,
    stages: Seq<OpDecl>,
) -> bool {
    &&& stages.len() == ids.len() + 1
    &&& stages[0] == declared
    &&& forall|i: int|
        #![trigger ids[i]]
        0 <= i < ids.len() ==> call_ensures(middleware, (ids[i], stages[i]), stages[i + 1])
}

/// The op is as the middleware left it, but under the name that it was declared with, and with a
/// function that does nothing where it is disabled.
pub open spec fn is_left(declared: OpDecl, last: OpDecl, op: OpDecl) -> bool {
    &&& op.name == declared.name
    &&& op.enabled == last.enabled
    &&& op.is_async == last.is_async
    &&& op.is_unstable == last.is_unstable
    &&& op.is_v8 == last.is_v8
    &&& op.argc == last.argc
    &&& last.enabled ==> op.v8_fn_ptr == last.v8_fn_ptr
    &&& !last.enabled && last.is_async ==> op.v8_fn_ptr == FunctionCallback::VoidAsync
    &&& !last.enabled && !last.is_async ==> op.v8_fn_ptr == FunctionCallback::VoidSync
}

proof fn lemma_registered<M: Fn(usize, OpDecl) -> OpDecl>(
    middleware: M,
    ids: Seq<usize>,
    declared: OpDecl,
    op: OpDecl,
)
    requires
        is_registered(middleware, ids, declared, op),
    ensures
        exists|stages: Seq<OpDecl>| #[trigger]
            passes_through(middleware, ids, declared, stages) && is_left(
                declared,
                stages.last(),
                op,
            ),
{
    let stages = choose|stages: Seq<OpDecl>| #[trigger]
        is_wrapping(middleware, ids, stages) && stages.first() == declared && op
            == crate::extension::registered(declared, stages.last());
    assert(passes_through(middleware, ids, declared, stages));
}

/// Each middleware gets what the one before it made of an op, the first what was declared, and what
/// the last makes of it is registered. So an op whose function middleware replaces is registered
/// with that function, unless it is disabled; its name alone cannot be changed.
pub proof fn middleware_has_the_last_word<M: Fn(usize, OpDecl) -> OpDecl>(
    declared: OpDecl,
    ids: Vec<usize>,
    middleware: M,
    op: OpDecl,
)
    requires
        call_ensures(register_op::<M>, (declared, &ids, &middleware), op),
    ensures
        exists|stages: Seq<OpDecl>| #[trigger]
            passes_through(middleware, ids@, declared, stages) && is_left(
                declared,
                stages.last(),
                op,
            ),
{
    lemma_registered(middleware, ids@, declared, op);
}

/// Where only one middleware is there, what it answers is what is registered.
pub proof fn only_middleware_decides<M: Fn(usize, OpDecl) -> OpDecl>(
    declared: OpDecl,
    ids: Vec<usize>,
    middleware: M,
    answer: OpDecl,
    op: OpDecl,
)
    requires
        ids@.len() == 1,
        forall|other: OpDecl| #[trigger]
            call_ensures(middleware, (ids@[0], declared), other) ==> other == answer,
        call_ensures(register_op::<M>, (declared, &ids, &middleware), op),
    ensures
        is_left(declared, answer, op),
{
    lemma_registered(middleware, ids@, declared, op);
    let stages = choose|stages: Seq<OpDecl>| #[trigger]
        passes_through(middleware, ids@, declared, stages) && is_left(declared, stages.last(), op);
    assert(call_ensures(middleware, (ids@[0], stages[0]), stages[1]));
}

/// How many ops the first extensions have.
pub open spec fn ops_before(extensions: Seq<Extension>, i: int) -> nat
    decreases i,
{
    if i <= 0 {
        0
    } else {
        ops_before(extensions, i - 1) + match extensions[i - 1].ops {
            Some(ops) => ops@.len(),
            None => 0,
        }
    }
}

proof fn lemma_ops_of_part(extensions: Seq<Extension>, part: Seq<Extension>, i: int)
    requires
        0 <= i <= part.len() <= extensions.len(),
        part == extensions.take(part.len() as int),
    ensures
        ops_before(part, i) == ops_before(extensions, i),
    decreases i,
{
    if i > 0 {
        lemma_ops_of_part(extensions, part, i - 1);
        assert(part[i - 1] == extensions[i - 1]);
    }
}

/// All ops of all extensions are declared, those of one behind those of the extensions before it,
/// each where its extension lists it.
pub proof fn ops_are_declared_in_order(extensions: Seq<Extension>, i: int, k: int)
    requires
        0 <= i < extensions.len(),
        extensions[i].ops is Some,
        0 <= k < extensions[i].ops->0@.len(),
    ensures
        declared_ops(extensions).len() == ops_before(extensions, extensions.len() as int),
        ops_before(extensions, i) + k < declared_ops(extensions).len(),
        declared_ops(extensions)[ops_before(extensions, i) + k] == extensions[i].ops->0@[k],
    decreases extensions.len(),
{
    let fewer = extensions.drop_last();
    let last = extensions.len() - 1;
    lemma_declared_len(extensions);
    lemma_declared_len(fewer);
    lemma_ops_of_part(extensions, fewer, i);
    lemma_ops_of_part(extensions, fewer, last);
    if i < last {
        ops_are_declared_in_order(fewer, i, k);
    }
}

proof fn lemma_declared_len(extensions: Seq<Extension>)
    ensures
        declared_ops(extensions).len() == ops_before(extensions, extensions.len() as int),
    decreases extensions.len(),
{
    if extensions.len() > 0 {
        lemma_declared_len(extensions.drop_last());
        lemma_ops_of_part(extensions, extensions.drop_last(), extensions.len() - 1);
    }
}

/// How many of the first hooks are there.
pub open spec fn hooks_before(hooks: Seq<Option<usize>>, i: int) -> nat
    decreases i,
{
    if i <= 0 {
        0
    } else {
        hooks_before(hooks, i - 1) + if hooks[i - 1] is Some {
            1nat
        } else {
            0
        }
    }
}

/// The ids are those of the hooks that are there, in order.
pub open spec fn lists_hooks(ids: Seq<usize>, hooks: Seq<Option<usize>>) -> bool {
    &&& ids.len() == hooks_before(hooks, hooks.len() as int)
    &&& forall|i: int|
        #![trigger hooks[i]]
        0 <= i < hooks.len() && hooks[i] is Some ==> hooks_before(hooks, i) < ids.len()
            && ids[hooks_before(hooks, i) as int] == hooks[i]->0
}

proof fn lemma_hooks_of_part(hooks: Seq<Option<usize>>, part: Seq<Option<usize>>, i: int)
    requires
        0 <= i <= part.len() <= hooks.len(),
        part == hooks.take(part.len() as int),
    ensures
        hooks_before(part, i) == hooks_before(hooks, i),
    decreases i,
{
    if i > 0 {
        lemma_hooks_of_part(hooks, part, i - 1);
        assert(part[i - 1] == hooks[i - 1]);
    }
}

proof fn lemma_one_hook_more(ids: Seq<usize>, hooks: Seq<Option<usize>>, hook: Option<usize>)
    requires
        lists_hooks(ids, hooks),
    ensures
        lists_hooks(
            match hook {
                Some(id) => ids.push(id),
                None => ids,
            },
            hooks.push(hook),
        ),
{
    let all = hooks.push(hook);
    let longer = match hook {
        Some(id) => ids.push(id),
        None => ids,
    };
    assert(hooks == all.take(hooks.len() as int));
    lemma_hooks_of_part(all, hooks, hooks.len() as int);
    assert forall|i: int| #![trigger all[i]] 0 <= i < all.len() && all[i] is Some implies
        hooks_before(all, i) < longer.len() && longer[hooks_before(all, i) as int] == all[i]->0 by {
        if i < hooks.len() {
            lemma_hooks_of_part(all, hooks, i);
            assert(all[i] == hooks[i]);
        }
    }
}

/// The middleware of all extensions is used, in the order of the extensions, and none twice.
pub proof fn middleware_comes_in_order(extensions: Seq<Extension>)
    ensures
        lists_hooks(
            middleware_of(extensions),
            Seq::new(extensions.len(), |i: int| extensions[i].middleware_fn),
        ),
        lists_hooks(
            loop_middleware_of(extensions),
            Seq::new(extensions.len(), |i: int| extensions[i].event_loop_middleware),
        ),
    decreases extensions.len(),
{
    let hooks = Seq::new(extensions.len(), |i: int| extensions[i].middleware_fn);
    let loop_hooks = Seq::new(extensions.len(), |i: int| extensions[i].event_loop_middleware);
    if extensions.len() > 0 {
        let fewer = extensions.drop_last();
        let last = extensions[extensions.len() - 1];
        middleware_comes_in_order(fewer);
        let earlier = Seq::new(fewer.len(), |i: int| fewer[i].middleware_fn);
        let loop_earlier = Seq::new(fewer.len(), |i: int| fewer[i].event_loop_middleware);
        lemma_one_hook_more(middleware_of(fewer), earlier, last.middleware_fn);
        lemma_one_hook_more(loop_middleware_of(fewer), loop_earlier, last.event_loop_middleware);
        assert(hooks =~= earlier.push(last.middleware_fn));
        assert(loop_hooks =~= loop_earlier.push(last.event_loop_middleware));
    }
}

/// A runtime starts with the ops of all its extensions, numbered in the order of the extensions and
/// of their lists: each under the name that it was declared with, and as all middleware, in the
/// order of the extensions, has left it.
pub proof fn runtimes_start_with_all_ops<M: Fn(usize, OpDecl) -> OpDecl>(
    op_ctxs: Seq<OpCtx>,
    middleware: M,
    extensions: Seq<Extension>,
    i: int,
    k: int,
)
    requires
        starts_with_ops(op_ctxs, middleware, extensions),
        0 <= i < extensions.len(),
        extensions[i].ops is Some,
        0 <= k < extensions[i].ops->0@.len(),
    ensures
        op_ctxs.len() == ops_before(extensions, extensions.len() as int),
        ({
            let id = ops_before(extensions, i) + k;
            let declared = extensions[i].ops->0@[k];
            let op_ctx = op_ctxs[id];
            &&& id < op_ctxs.len()
            &&& op_ctx.id == id
            &&& op_ctx.realm_idx == 0
            &&& op_ctx.decl.name == declared.name
            &&& exists|ids: Seq<usize>, stages: Seq<OpDecl>|
                #![trigger passes_through(middleware, ids, declared, stages)]
                lists_hooks(
                    ids,
                    Seq::new(extensions.len(), |e: int| extensions[e].middleware_fn),
                ) && passes_through(middleware, ids, declared, stages) && is_left(
                    declared,
                    stages.last(),
                    op_ctx.decl,
                )
        }),
{
    ops_are_declared_in_order(extensions, i, k);
    middleware_comes_in_order(extensions);
    let id = ops_before(extensions, i) + k;
    let declared = extensions[i].ops->0@[k];
    let ids = middleware_of(extensions);
    assert(is_registered(middleware, ids, declared_ops(extensions)[id], op_ctxs[id].decl));
    lemma_registered(middleware, ids, declared, op_ctxs[id].decl);
}

/// How many modules of an extension are evaluated: its entry point alone, or all where it has none.
pub open spec fn module_count(extension: Extension) -> nat {
    if extension.esm_entry_point is Some {
        1
    } else {
        extension.esm_files@.len()
    }
}

/// How many files of the first extensions are run.
pub open spec fn files_before(extensions: Seq<Extension>, i: int) -> nat
    decreases i,
{
    if i <= 0 {
        0
    } else {
        files_before(extensions, i - 1) + module_count(extensions[i - 1])
            + extensions[i - 1].js_files@.len()
    }
}

/// The file is the first of these that has this specifier.
pub open spec fn is_first_specified(
    files: Seq<ExtensionFileSource>,
    specifier: Seq<char>,
    file: ExtensionFileSource,
) -> bool {
    exists|i: int|
        0 <= i < files.len() && #[trigger] files[i] == file && file.specifier@ == specifier
            && forall|j: int| 0 <= j < i ==> (#[trigger] files[j]).specifier@ != specifier
}

/// From this place on the steps are the modules of an extension that are evaluated, and its scripts
/// behind them, each where the extension lists it.
pub open spec fn runs_files(steps: Seq<JsStep>, start: int, extension: Extension) -> bool {
    let modules = module_count(extension) as int;
    &&& 0 <= start
    &&& start + modules + extension.js_files@.len() <= steps.len()
    &&& match extension.esm_entry_point {
        Some(entry_point) => steps[start] matches JsStep::Module(file) && is_first_specified(
            extension.esm_files@,
            entry_point@,
            file,
        ),
        None => forall|k: int|
            #![trigger extension.esm_files@[k]]
            0 <= k < modules ==> steps[start + k] == JsStep::Module(extension.esm_files@[k]),
    }
    &&& forall|k: int|
        #![trigger extension.js_files@[k]]
        0 <= k < extension.js_files@.len() ==> steps[start + modules + k] == JsStep::Script(
            extension.js_files@[k],
        )
}

proof fn lemma_files_of_part(extensions: Seq<Extension>, part: Seq<Extension>, i: int)
    requires
        0 <= i <= part.len() <= extensions.len(),
        part == extensions.take(part.len() as int),
    ensures
        files_before(part, i) == files_before(extensions, i),
    decreases i,
{
    if i > 0 {
        lemma_files_of_part(extensions, part, i - 1);
        assert(part[i - 1] == extensions[i - 1]);
    }
}

proof fn lemma_first_specified(files: Seq<ExtensionFileSource>, specifier: Seq<char>)
    requires
        exists|i: int| 0 <= i < files.len() && (#[trigger] files[i]).specifier@ == specifier,
    ensures
        is_first_specified(files, specifier, first_specified(files, specifier)),
    decreases files.len(),
{
    let found = first_specified(files, specifier);
    if files[0].specifier@ == specifier {
        assert(files[0] == found);
    } else {
        let rest = files.drop_first();
        let i = choose|i: int| 0 <= i < files.len() && (#[trigger] files[i]).specifier@ == specifier;
        assert(rest[i - 1].specifier@ == specifier);
        lemma_first_specified(rest, specifier);
        let j = choose|j: int|
            0 <= j < rest.len() && #[trigger] rest[j] == found && found.specifier@ == specifier
                && forall|k: int| 0 <= k < j ==> (#[trigger] rest[k]).specifier@ != specifier;
        assert(files[j + 1] == found);
        assert forall|k: int| 0 <= k < j + 1 implies (#[trigger] files[k]).specifier@
            != specifier by {
            if k > 0 {
                assert(rest[k - 1] == files[k]);
            }
        }
    }
}

proof fn lemma_steps_of(extension: Extension)
    requires
        extension.esm_entry_point matches Some(entry_point) ==> exists|i: int|
            0 <= i < extension.esm_files@.len() && (#[trigger] extension.esm_files@[i]).specifier@
                == entry_point@,
    ensures
        steps_of(extension).len() == module_count(extension) + extension.js_files@.len(),
        runs_files(steps_of(extension), 0, extension),
{
    if let Some(entry_point) = extension.esm_entry_point {
        lemma_first_specified(extension.esm_files@, entry_point@);
    }
}

proof fn lemma_all_steps(extensions: Seq<Extension>)
    requires
        entry_points_exist(extensions),
    ensures
        all_steps(extensions).len() == files_before(extensions, extensions.len() as int),
        forall|i: int|
            0 <= i < extensions.len() ==> runs_files(
                all_steps(extensions),
                files_before(extensions, i) as int,
                #[trigger] extensions[i],
            ),
    decreases extensions.len(),
{
    if extensions.len() > 0 {
        let fewer = extensions.drop_last();
        let last = extensions.len() - 1;
        assert forall|i: int| 0 <= i < fewer.len() implies ((
        #[trigger] fewer[i]).esm_entry_point matches Some(entry_point)
            ==> crate::extension::is_specified(fewer[i].esm_files@, entry_point@)) by {
            assert(fewer[i] == extensions[i]);
        }
        lemma_all_steps(fewer);
        lemma_files_of_part(extensions, fewer, last);
        let own = extensions[last];
        assert(own.esm_entry_point matches Some(entry_point) ==> crate::extension::is_specified(
            own.esm_files@,
            entry_point@,
        ));
        lemma_steps_of(own);
        let earlier = all_steps(fewer);
        let steps = all_steps(extensions);
        assert(steps == earlier + steps_of(own));
        assert forall|i: int| 0 <= i < extensions.len() implies runs_files(
            steps,
            files_before(extensions, i) as int,
            #[trigger] extensions[i],
        ) by {
            if i < last {
                lemma_files_of_part(extensions, fewer, i);
                assert(fewer[i] == extensions[i]);
                assert(runs_files(earlier, files_before(fewer, i) as int, fewer[i]));
            } else {
                assert(runs_files(steps_of(own), 0, own));
            }
        }
    }
}

/// The files of extensions are run extension by extension, in the order of the extensions: of each
/// its entry point, or all its modules in the order in which it lists them, and its scripts after
/// that, in the order in which it lists them. Nothing else is run.
pub proof fn files_run_in_listed_order(extensions: Vec<Extension>, steps: Vec<JsStep>)
    requires
        entry_points_exist(extensions@),
        call_ensures(extension_js, (&extensions,), steps),
    ensures
        steps@.len() == files_before(extensions@, extensions@.len() as int),
        forall|i: int|
            0 <= i < extensions@.len() ==> runs_files(
                steps@,
                files_before(extensions@, i) as int,
                #[trigger] extensions@[i],
            ),
{
    lemma_all_steps(extensions@);
}

/// What a set-up runs is what its extensions list, in the order in which they list it.
pub proof fn set_ups_run_listed_files(setup: crate::realm_setup::RealmSetup)
    requires
        setup.init.wf(),
        entry_points_exist(setup.init.extensions@),
    ensures
        setup.init.steps@.len() == files_before(
            setup.init.extensions@,
            setup.init.extensions@.len() as int,
        ),
        forall|i: int|
            0 <= i < setup.init.extensions@.len() ==> runs_files(
                setup.init.steps@,
                files_before(setup.init.extensions@, i) as int,
                #[trigger] setup.init.extensions@[i],
            ),
{
    lemma_all_steps(setup.init.extensions@);
}

/// An extension of this name comes before the one at `i`.
pub open spec fn comes_before(extensions: Seq<Extension>, i: int, name: Seq<char>) -> bool {
    exists|j: int| 0 <= j < i && (#[trigger] extensions[j]).name@ == name
}

/// Extensions are accepted exactly where each comes after all that it depends on.
pub proof fn dependencies_come_first(
    extensions: Vec<Extension>,
    with_js: Vec<Extension>,
    met: bool,
)
    requires
        call_ensures(check_dependencies, (&extensions, &with_js), met),
    ensures
        met <==> forall|i: int, k: int|
            #![trigger (extensions@ + with_js@)[i].deps@[k]]
            0 <= i < extensions@.len() + with_js@.len() && 0 <= k < (extensions@
                + with_js@)[i].deps@.len() ==> comes_before(
                extensions@ + with_js@,
                i,
                (extensions@ + with_js@)[i].deps@[k]@,
            ),
{
    let all = extensions@ + with_js@;
    if met {
        assert forall|i: int, k: int|
            #![trigger all[i].deps@[k]]
            0 <= i < all.len() && 0 <= k < all[i].deps@.len() implies comes_before(
            all,
            i,
            all[i].deps@[k]@,
        ) by {
            let name = all[i].deps@[k]@;
            assert(crate::extension::is_named(all, i, name));
            let j = choose|j: int| 0 <= j < i && (#[trigger] all[j]).name@ == name;
            assert(all[j].name@ == name);
        }
    } else if forall|i: int, k: int|
        #![trigger all[i].deps@[k]]
        0 <= i < all.len() && 0 <= k < all[i].deps@.len() ==> comes_before(
            all,
            i,
            all[i].deps@[k]@,
        ) {
        assert forall|i: int, k: int|
            0 <= i < all.len() && 0 <= k < all[i].deps@.len() implies crate::extension::is_named(
            all,
            i,
            (#[trigger] all[i].deps@[k])@,
        ) by {
            let name = all[i].deps@[k]@;
            assert(comes_before(all, i, name));
            let j = choose|j: int| 0 <= j < i && (#[trigger] all[j]).name@ == name;
            assert(all[j].name@ == name);
        }
        assert(dependencies_met(all));
    }
}

/// Entry points are accepted exactly where each is the specifier of a module of its extension.
pub proof fn entry_points_are_modules(extensions: Vec<Extension>, exist: bool)
    requires
        call_ensures(check_entry_points, (&extensions,), exist),
    ensures
        exist <==> forall|i: int|
            0 <= i < extensions@.len() ==> ((
            #[trigger] extensions@[i]).esm_entry_point matches Some(entry_point) ==> exists|k: int|
                0 <= k < extensions@[i].esm_files@.len() && (
                #[trigger] extensions@[i].esm_files@[k]).specifier@ == entry_point@),
{
    if exist {
        assert forall|i: int| 0 <= i < extensions@.len() implies ((
        #[trigger] extensions@[i]).esm_entry_point matches Some(entry_point) ==> exists|k: int|
            0 <= k < extensions@[i].esm_files@.len() && (
            #[trigger] extensions@[i].esm_files@[k]).specifier@ == entry_point@) by {
            if let Some(entry_point) = extensions@[i].esm_entry_point {
                assert(crate::extension::is_specified(extensions@[i].esm_files@, entry_point@));
            }
        }
    } else if forall|i: int|
        0 <= i < extensions@.len() ==> ((
        #[trigger] extensions@[i]).esm_entry_point matches Some(entry_point) ==> exists|k: int|
            0 <= k < extensions@[i].esm_files@.len() && (
            #[trigger] extensions@[i].esm_files@[k]).specifier@ == entry_point@) {
        assert forall|i: int| 0 <= i < extensions@.len() implies ((
        #[trigger] extensions@[i]).esm_entry_point matches Some(entry_point)
            ==> crate::extension::is_specified(extensions@[i].esm_files@, entry_point@)) by {}
        assert(entry_points_exist(extensions@));
    }
}

/// What is set on an extension stays, whatever else is set after it, and the last setting counts.
pub proof fn builders_keep_the_rest(
    name: &'static str,
    bare: Extension,
    deps: Vec<&'static str>,
    with_deps: Extension,
    files: Vec<ExtensionFileSource>,
    with_files: Extension,
    ops: Vec<OpDecl>,
    whole: Extension,
)
    requires
        call_ensures(Extension::builder, (name,), bare),
        call_ensures(Extension::dependencies, (bare, deps), with_deps),
        call_ensures(Extension::esm, (with_deps, files), with_files),
        call_ensures(Extension::ops, (with_files, ops), whole),
    ensures
        whole.name == name,
        whole.deps == deps,
        whole.esm_files == files,
        whole.ops == Some(ops),
        whole.js_files@.len() == 0,
        whole.esm_entry_point is None,
        whole.middleware_fn is None,
        whole.opstate_fn is None,
        whole.event_loop_middleware is None,
        bare.deps@.len() == 0,
        bare.esm_files@.len() == 0,
        bare.ops is None,
{
}

/// Collecting the ops of extensions hands each through all middleware, in the order of the
/// extensions, and gives all of them, in the order of the extensions and of their lists. The
/// extensions are left with everything but their ops and their middleware.
pub proof fn all_ops_are_collected<M: Fn(usize, OpDecl) -> OpDecl>(
    extensions: &mut Vec<Extension>,
    with_js: &mut Vec<Extension>,
    middleware: M,
    ops: Vec<OpDecl>,
    i: int,
    k: int,
)
    requires
        call_ensures(collect_ops::<M>, (extensions, with_js, &middleware), ops),
        ({
            let all = old(extensions)@ + old(with_js)@;
            0 <= i < all.len() && all[i].ops is Some && 0 <= k < all[i].ops->0@.len()
        }),
    ensures
        ({
            let all = old(extensions)@ + old(with_js)@;
            let declared = all[i].ops->0@[k];
            let op = ops@[ops_before(all, i) + k];
            &&& ops@.len() == ops_before(all, all.len() as int)
            &&& ops_before(all, i) + k < ops@.len()
            &&& op.name == declared.name
            &&& exists|ids: Seq<usize>, stages: Seq<OpDecl>|
                #![trigger passes_through(middleware, ids, declared, stages)]
                lists_hooks(ids, Seq::new(all.len(), |e: int| all[e].middleware_fn))
                    && passes_through(middleware, ids, declared, stages) && is_left(
                    declared,
                    stages.last(),
                    op,
                )
        }),
        final(extensions)@.len() == old(extensions)@.len(),
        final(with_js)@.len() == old(with_js)@.len(),
        forall|e: int|
            0 <= e < old(extensions)@.len() ==> keeps_the_rest(
                #[trigger] old(extensions)@[e],
                final(extensions)@[e],
            ),
        forall|e: int|
            0 <= e < old(with_js)@.len() ==> keeps_the_rest(
                #[trigger] old(with_js)@[e],
                final(with_js)@[e],
            ),
{
    let all = old(extensions)@ + old(with_js)@;
    let declared = all[i].ops->0@[k];
    let at = ops_before(all, i) + k;
    let ids = middleware_of(all);
    ops_are_declared_in_order(all, i, k);
    middleware_comes_in_order(all);
    assert(is_registered(middleware, ids, declared_ops(all)[at], ops@[at]));
    lemma_registered(middleware, ids, declared, ops@[at]);
}

/// The extension is left without its ops and its middleware, and with all else.
pub open spec fn keeps_the_rest(before: Extension, after: Extension) -> bool {
    &&& after.name == before.name
    &&& after.deps == before.deps
    &&& after.js_files == before.js_files
    &&& after.esm_files == before.esm_files
    &&& after.esm_entry_point == before.esm_entry_point
    &&& after.opstate_fn == before.opstate_fn
    &&& after.event_loop_middleware == before.event_loop_middleware
    &&& after.ops is None
    &&& after.middleware_fn is None
}

/// What an extension gives away it has no more, and it keeps all else.
pub proof fn extensions_give_away_once(
    first: &mut Extension,
    ops: Option<Vec<OpDecl>>,
    second: &mut Extension,
    middleware: Option<usize>,
    third: &mut Extension,
    loop_middleware: Option<usize>,
)
    requires
        call_ensures(Extension::init_ops, (first,), ops),
        call_ensures(Extension::init_middleware, (second,), middleware),
        call_ensures(Extension::init_event_loop_middleware, (third,), loop_middleware),
    ensures
        ops == old(first).ops,
        final(first).ops is None,
        final(first).name == old(first).name && final(first).middleware_fn
            == old(first).middleware_fn && final(first).js_files == old(first).js_files,
        middleware == old(second).middleware_fn,
        final(second).middleware_fn is None,
        final(second).name == old(second).name && final(second).ops == old(second).ops,
        loop_middleware == old(third).event_loop_middleware,
        final(third).event_loop_middleware is None,
        final(third).name == old(third).name && final(third).opstate_fn == old(third).opstate_fn,
{
}

/// A module needs a number exactly where one is the next file.
pub proof fn modules_need_numbers(init: crate::extension_js::ExtensionJsInit, yes: bool)
    requires
        call_ensures(crate::extension_js::ExtensionJsInit::needs_module_id, (&init,), yes),
    ensures
        yes <==> init.done < init.steps@.len() && init.steps@[init.done as int] is Module,
{
}

} // verus!

//! How the results of async ops get to JavaScript.
use crate::backend::{called, serialized_views, BackendEvent, Call, JsBackend, Run};
use crate::data::Function;
use crate::error::Error;
use crate::event_loop::{
    acceptable, accepts, batch_is_flat, batch_of, can_complete, can_respond, collect_responses,
    completed_in, counted_in, delivered, forgotten_in, group_by_realm, groups_of, home_of,
    is_delivery, of_realm, receiver, resolve_completed, respond, responded, tallied,
};
use crate::handle::HandleInternal;
use crate::isolate::Isolate;
use crate::ops::{CompletedOp, OpResult, PromiseId, RealmIdx};
use crate::serde::{Serialized, SerializedView};
use crate::state::ContextState;
use vstd::prelude::*;

verus! {

/// How many of the first `count` ops are of a realm.
pub open spec fn count_in_realm(completed: Seq<CompletedOp>, realm_idx: int, count: int) -> nat
    decreases count,
{
    if count <= 0 {
        0
    } else {
        count_in_realm(completed, realm_idx, count - 1) + if completed[count - 1].realm_idx
            == realm_idx {
            1nat
        } else {
            0
        }
    }
}

proof fn lemma_count_grows(completed: Seq<CompletedOp>, realm_idx: int, i: int, j: int)
    requires
        0 <= i < j <= completed.len(),
    ensures
        count_in_realm(completed, realm_idx, i) <= count_in_realm(completed, realm_idx, j),
        completed[i].realm_idx == realm_idx ==> count_in_realm(completed, realm_idx, i)
            < count_in_realm(completed, realm_idx, j),
    decreases j,
{
    if i < j - 1 {
        lemma_count_grows(completed, realm_idx, i, j - 1);
    }
}

proof fn lemma_count_of_part(
    completed: Seq<CompletedOp>,
    part: Seq<CompletedOp>,
    realm_idx: int,
    count: int,
)
    requires
        0 <= count <= part.len() <= completed.len(),
        part == completed.take(part.len() as int),
    ensures
        count_in_realm(part, realm_idx, count) == count_in_realm(completed, realm_idx, count),
    decreases count,
{
    if count > 0 {
        lemma_count_of_part(completed, part, realm_idx, count - 1);
        assert(part[count - 1] == completed[count - 1]);
    }
}

/// Op `i` is of a realm, and so many ops of that realm come before it.
pub open spec fn is_nth_of_realm(
    completed: Seq<CompletedOp>,
    realm_idx: int,
    n: int,
    i: int,
) -> bool {
    &&& 0 <= i < completed.len()
    &&& completed[i].realm_idx == realm_idx
    &&& count_in_realm(completed, realm_idx, i) == n
}

/// `op` is one of the realm's, and so many ops of that realm come before it.
pub open spec fn has_nth_of_realm(
    completed: Seq<CompletedOp>,
    realm_idx: int,
    n: int,
    op: CompletedOp,
) -> bool {
    exists|i: int| #[trigger]
        is_nth_of_realm(completed, realm_idx, n, i) && op == completed[i]
}

/// The ops of a realm are picked out in order, and none of them is left out: each stands behind
/// those of its realm that came before it, and there are no others.
pub proof fn realms_keep_all_their_ops(completed: Seq<CompletedOp>, realm_idx: int)
    ensures
        of_realm(completed, realm_idx).len() == count_in_realm(
            completed,
            realm_idx,
            completed.len() as int,
        ),
        forall|i: int|
            0 <= i < completed.len() && (#[trigger] completed[i]).realm_idx == realm_idx ==> {
                let at = count_in_realm(completed, realm_idx, i) as int;
                at < of_realm(completed, realm_idx).len() && of_realm(completed, realm_idx)[at]
                    == completed[i]
            },
        forall|k: int|
            #![trigger of_realm(completed, realm_idx)[k]]
            0 <= k < of_realm(completed, realm_idx).len() ==> has_nth_of_realm(
                completed,
                realm_idx,
                k,
                of_realm(completed, realm_idx)[k],
            ),
    decreases completed.len(),
{
    if completed.len() > 0 {
        let last = completed.len() - 1;
        let fewer = completed.drop_last();
        assert(fewer == completed.take(last));
        realms_keep_all_their_ops(fewer, realm_idx);
        let kept = of_realm(fewer, realm_idx);
        let all = of_realm(completed, realm_idx);
        lemma_count_of_part(completed, fewer, realm_idx, last);
        assert forall|i: int|
            0 <= i < completed.len() && (#[trigger] completed[i]).realm_idx == realm_idx implies {
            let at = count_in_realm(completed, realm_idx, i) as int;
            at < all.len() && all[at] == completed[i]
        } by {
            if i < last {
                lemma_count_of_part(completed, fewer, realm_idx, i);
                assert(fewer[i].realm_idx == realm_idx);
                let at = count_in_realm(completed, realm_idx, i) as int;
                assert(at < kept.len() && kept[at] == fewer[i]);
                assert(all[at] == kept[at]);
            }
        }
        assert forall|k: int| #![trigger all[k]] 0 <= k < all.len() implies has_nth_of_realm(
            completed,
            realm_idx,
            k,
            all[k],
        ) by {
            if k < kept.len() {
                assert(all[k] == kept[k]);
                let i = choose|i: int| #[trigger]
                    is_nth_of_realm(fewer, realm_idx, k, i) && kept[k] == fewer[i];
                lemma_count_of_part(completed, fewer, realm_idx, i);
                assert(is_nth_of_realm(completed, realm_idx, k, i));
            } else {
                assert(is_nth_of_realm(completed, realm_idx, k, last));
            }
        }
    }
}

/// The realm to whose JavaScript an op's result goes, among so many realms.
pub open spec fn home(num_realms: nat, op: CompletedOp) -> int {
    if num_realms == 1 {
        0
    } else {
        op.realm_idx as int
    }
}

/// The place of an op among those that go to the same realm.
pub open spec fn place(num_realms: nat, completed: Seq<CompletedOp>, i: int) -> int {
    if num_realms == 1 {
        i
    } else {
        count_in_realm(completed, completed[i].realm_idx as int, i) as int
    }
}

/// Op `i` goes to this realm, at this place.
pub open spec fn goes_to(
    num_realms: nat,
    completed: Seq<CompletedOp>,
    i: int,
    r: int,
    k: int,
) -> bool {
    &&& 0 <= i < completed.len()
    &&& home(num_realms, completed[i]) == r
    &&& place(num_realms, completed, i) == k
}

/// `op` is one that goes to this realm, at this place.
pub open spec fn is_at(
    num_realms: nat,
    completed: Seq<CompletedOp>,
    r: int,
    k: int,
    op: CompletedOp,
) -> bool {
    exists|i: int| #[trigger] goes_to(num_realms, completed, i, r, k) && op == completed[i]
}

/// How many ops there are in all groups together.
pub open spec fn total(groups: Seq<Seq<CompletedOp>>) -> nat
    decreases groups.len(),
{
    if groups.len() == 0 {
        0
    } else {
        total(groups.drop_last()) + groups.last().len()
    }
}

/// Every op that is done gets to JavaScript exactly once: it stands in the group of its realm, at
/// its place, nothing else stands in the groups, and those that come later stand behind it.
pub proof fn groups_hold_every_op_once(num_realms: nat, completed: Seq<CompletedOp>)
    requires
        num_realms > 0,
        forall|i: int|
            0 <= i < completed.len() ==> home(num_realms, #[trigger] completed[i]) < num_realms,
    ensures
        groups_of(num_realms, completed).len() == num_realms,
        forall|i: int|
            0 <= i < completed.len() ==> {
                let group = groups_of(num_realms, completed)[home(
                    num_realms,
                    #[trigger] completed[i],
                )];
                0 <= place(num_realms, completed, i) < group.len() && group[place(
                    num_realms,
                    completed,
                    i,
                )] == completed[i]
            },
        forall|r: int, k: int|
            #![trigger groups_of(num_realms, completed)[r][k]]
            0 <= r < num_realms && 0 <= k < groups_of(num_realms, completed)[r].len()
                ==> is_at(num_realms, completed, r, k, groups_of(num_realms, completed)[r][k]),
        forall|i: int, j: int|
            #![trigger completed[i], completed[j]]
            0 <= i < j < completed.len() && home(num_realms, completed[i]) == home(
                num_realms,
                completed[j],
            ) ==> place(num_realms, completed, i) < place(num_realms, completed, j),
        total(groups_of(num_realms, completed)) == completed.len(),
{
    let groups = groups_of(num_realms, completed);
    if num_realms == 1 {
        assert(groups[0] == completed);
        assert(groups.drop_last() == Seq::<Seq<CompletedOp>>::empty());
        assert(total(groups.drop_last()) == 0);
        assert forall|r: int, k: int|
            #![trigger groups[r][k]]
            0 <= r < num_realms && 0 <= k < groups[r].len() implies is_at(
            num_realms,
            completed,
            r,
            k,
            groups[r][k],
        ) by {
            assert(goes_to(num_realms, completed, k, r, k));
        }
    } else {
        assert forall|r: int| 0 <= r < num_realms implies #[trigger] groups[r] == of_realm(
            completed,
            r,
        ) by {}
        assert forall|i: int| 0 <= i < completed.len() implies {
            let group = groups[home(num_realms, #[trigger] completed[i])];
            0 <= place(num_realms, completed, i) < group.len() && group[place(
                num_realms,
                completed,
                i,
            )] == completed[i]
        } by {
            realms_keep_all_their_ops(completed, completed[i].realm_idx as int);
        }
        assert forall|r: int, k: int|
            #![trigger groups[r][k]]
            0 <= r < num_realms && 0 <= k < groups[r].len() implies is_at(
            num_realms,
            completed,
            r,
            k,
            groups[r][k],
        ) by {
            realms_keep_all_their_ops(completed, r);
            assert(of_realm(completed, r)[k] == groups[r][k]);
            let i = choose|i: int| #[trigger]
                is_nth_of_realm(completed, r, k, i) && groups[r][k] == completed[i];
            assert(goes_to(num_realms, completed, i, r, k));
        }
        assert forall|i: int, j: int|
            #![trigger completed[i], completed[j]]
            0 <= i < j < completed.len() && completed[i].realm_idx
                == completed[j].realm_idx implies place(num_realms, completed, i) < place(
            num_realms,
            completed,
            j,
        ) by {
            lemma_count_grows(completed, completed[i].realm_idx as int, i, j);
        }
        lemma_totals(num_realms, completed);
    }
}

proof fn lemma_totals(num_realms: nat, completed: Seq<CompletedOp>)
    requires
        forall|i: int|
            0 <= i < completed.len() ==> (#[trigger] completed[i]).realm_idx < num_realms,
    ensures
        total(Seq::new(num_realms, |r: int| of_realm(completed, r))) == completed.len(),
    decreases completed.len(),
{
    let groups = Seq::new(num_realms, |r: int| of_realm(completed, r));
    if completed.len() == 0 {
        assert forall|r: int| 0 <= r < num_realms implies (#[trigger] groups[r]).len() == 0 by {}
        lemma_total_changes(groups, groups, -1, 0);
        lemma_total_of_empty(groups);
    } else {
        let fewer = completed.drop_last();
        assert forall|i: int| 0 <= i < fewer.len() implies (#[trigger] fewer[i]).realm_idx
            < num_realms by {
            assert(completed[i].realm_idx < num_realms);
        }
        lemma_totals(num_realms, fewer);
        let before = Seq::new(num_realms, |r: int| of_realm(fewer, r));
        let last = completed[completed.len() - 1].realm_idx as int;
        lemma_total_changes(before, groups, last, 1);
    }
}

proof fn lemma_total_of_empty(groups: Seq<Seq<CompletedOp>>)
    requires
        forall|r: int| 0 <= r < groups.len() ==> (#[trigger] groups[r]).len() == 0,
    ensures
        total(groups) == 0,
    decreases groups.len(),
{
    if groups.len() > 0 {
        let fewer = groups.drop_last();
        assert forall|r: int| 0 <= r < fewer.len() implies (#[trigger] fewer[r]).len() == 0 by {
            assert(groups[r].len() == 0);
        }
        lemma_total_of_empty(fewer);
        assert(groups[groups.len() - 1].len() == 0);
    }
}

proof fn lemma_total_changes(
    before: Seq<Seq<CompletedOp>>,
    after: Seq<Seq<CompletedOp>>,
    at: int,
    by: nat,
)
    requires
        before.len() == after.len(),
        forall|r: int|
            0 <= r < before.len() ==> (#[trigger] after[r]).len() == before[r].len() + if r == at {
                by
            } else {
                0
            },
    ensures
        total(after) == total(before) + if 0 <= at < before.len() {
            by
        } else {
            0
        },
    decreases before.len(),
{
    if before.len() > 0 {
        let last = before.len() - 1;
        let fewer_before = before.drop_last();
        let fewer_after = after.drop_last();
        assert forall|r: int| 0 <= r < fewer_before.len() implies (#[trigger] fewer_after[r]).len()
            == fewer_before[r].len() + if r == at {
            by
        } else {
            0
        } by {
            assert(after[r].len() == before[r].len() + if r == at {
                by
            } else {
                0
            });
        }
        lemma_total_changes(fewer_before, fewer_after, at, by);
        assert(after[last].len() == before[last].len() + if last == at {
            by
        } else {
            0
        });
    }
}

/// How many of the first realms have anything to be told.
pub open spec fn calls_before(groups: Seq<Seq<CompletedOp>>, r: int) -> nat
    decreases r,
{
    if r <= 0 {
        0
    } else {
        calls_before(groups, r - 1) + if groups[r - 1].len() > 0 {
            1nat
        } else {
            0
        }
    }
}

/// The event is a call of this function with these arguments.
pub open spec fn is_call_of(
    event: BackendEvent,
    function: Function,
    args: Seq<SerializedView>,
) -> bool {
    event matches BackendEvent::Ran { run: Run::InvokeFunction { call, result: _ }, within: _ }
        && call.function == function && call.args == args
}

proof fn lemma_delivery_course<B: JsBackend>(
    course: Seq<Isolate<B>>,
    groups: Seq<Seq<CompletedOp>>,
    count: int,
)
    requires
        is_delivery(course, groups),
        0 <= count <= groups.len() <= course[0].slots@.len(),
    ensures
        course[count].slots@.len() == course[0].slots@.len(),
        forall|r: int|
            0 <= r < course[0].slots@.len() ==> (#[trigger] course[count].slots@[r]).js_recv_cb
                == course[0].slots@[r].js_recv_cb,
        course[count].backend.events().len() == course[0].backend.events().len() + calls_before(
            groups,
            count,
        ),
        course[count].backend.events().take(course[0].backend.events().len() as int)
            == course[0].backend.events(),
        forall|r: int|
            0 <= r < count && (#[trigger] groups[r]).len() > 0 ==> calls_before(groups, r)
                < calls_before(groups, count) && is_call_of(
                course[count].backend.events()[(course[0].backend.events().len() + calls_before(
                    groups,
                    r,
                )) as int],
                course[0].slots@[r].js_recv_cb->0.value(),
                batch_of(groups[r]),
            ),
    decreases count,
{
    let first = course[0].backend.events();
    if count > 0 {
        let at = count - 1;
        lemma_delivery_course(course, groups, at);
        let before = course[at];
        let after = course[count];
        assert(course[0].slots.len() == course[0].slots@.len());
        assert(responded(before, after, at as usize, groups[at]));
        let earlier = before.backend.events();
        let later = after.backend.events();
        if groups[at].len() > 0 {
            let args = batch_of(groups[at]);
            let function = receiver(before, at as usize);
            let ready = choose|ready: Isolate<B>| #[trigger]
                forgotten_in(before, ready, at as usize, groups[at]) && called(
                    ready,
                    after,
                    Call { function, args },
                );
            assert(ready.backend == before.backend);
            assert(later.take(earlier.len() as int) == earlier);
            assert(later.take(first.len() as int) == earlier.take(first.len() as int));
            assert forall|r: int| 0 <= r < course[0].slots@.len() implies (
            #[trigger] after.slots@[r]).js_recv_cb == course[0].slots@[r].js_recv_cb by {
                assert(after.slots@[r].keeps(ready.slots@[r]));
                assert(before.slots@[r].js_recv_cb == course[0].slots@[r].js_recv_cb);
            }
            assert(is_call_of(later[earlier.len() as int], function, args));
            assert(function == course[0].slots@[at].js_recv_cb->0.value());
            assert forall|r: int| 0 <= r < count && (#[trigger] groups[r]).len() > 0 implies {
                &&& calls_before(groups, r) < calls_before(groups, count)
                &&& is_call_of(
                    later[(first.len() + calls_before(groups, r)) as int],
                    course[0].slots@[r].js_recv_cb->0.value(),
                    batch_of(groups[r]),
                )
            } by {
                if r < at {
                    let e = first.len() + calls_before(groups, r);
                    assert(later[e as int] == later.take(earlier.len() as int)[e as int]);
                }
            }
        }
    } else {
        assert(first.take(first.len() as int) == first);
    }
}

proof fn lemma_call_has_realm(groups: Seq<Seq<CompletedOp>>, count: int, e: int) -> (r: int)
    requires
        0 <= count <= groups.len(),
        0 <= e < calls_before(groups, count),
    ensures
        0 <= r < count,
        groups[r].len() > 0,
        calls_before(groups, r) == e,
    decreases count,
{
    if calls_before(groups, count - 1) > e {
        lemma_call_has_realm(groups, count - 1, e)
    } else {
        count - 1
    }
}

proof fn lemma_calls_grow(groups: Seq<Seq<CompletedOp>>, a: int, b: int)
    requires
        0 <= a < b <= groups.len(),
        groups[a].len() > 0,
    ensures
        calls_before(groups, a) < calls_before(groups, b),
    decreases b,
{
    if a < b - 1 {
        lemma_calls_grow(groups, a, b - 1);
    }
}

/// What JavaScript is told of a result: the value, the class and the message of an error, and a
/// `TypeError` where the value cannot be sent.
pub open spec fn is_told(result: OpResult, told: SerializedView) -> bool {
    match result {
        OpResult::Value(value) => told == value@,
        OpResult::Error(error) => told == (SerializedView::Error {
            class_name: error.class_name@,
            message: error.message@,
        }),
        OpResult::Unserializable(error) => told == (SerializedView::Error {
            class_name: "TypeError"@,
            message: error.text(),
        }),
    }
}

/// A call of the function that a realm has for it tells JavaScript of an op: the number of its
/// promise comes with its result right behind it, at this place among such pairs.
pub open spec fn is_told_in<B: JsBackend>(
    before: Isolate<B>,
    realm_idx: int,
    event: BackendEvent,
    op: CompletedOp,
    pair: int,
) -> bool {
    &&& event matches BackendEvent::Ran {
        run: Run::InvokeFunction { call, result: _ },
        within: _,
    }
    &&& before.slots@[realm_idx].js_recv_cb matches Some(function)
    &&& call.function == function.value()
    &&& 0 <= pair
    &&& 2 * pair + 1 < call.args.len()
    &&& call.args[2 * pair] == SerializedView::I32(op.promise_id)
    &&& is_told(op.result, call.args[2 * pair + 1])
}

/// JavaScript is told of each op at its place.
pub open spec fn are_told<B: JsBackend>(
    before: Isolate<B>,
    after: Isolate<B>,
    completed: Seq<CompletedOp>,
    places: Seq<(int, int)>,
) -> bool {
    let earlier = before.backend.events();
    let later = after.backend.events();
    &&& later.take(earlier.len() as int) == earlier
    &&& places.len() == completed.len()
    &&& forall|i: int|
        #![trigger places[i]]
        0 <= i < completed.len() ==> {
            &&& earlier.len() <= places[i].0 < later.len()
            &&& is_told_in(
                before,
                home(before.state->0.known_realms@.len(), completed[i]),
                later[places[i].0],
                completed[i],
                places[i].1,
            )
        }
}

/// No two ops have the same place. Those of one realm are told in one call, in order, and the realms
/// are told one after another.
pub open spec fn are_apart(
    num_realms: nat,
    completed: Seq<CompletedOp>,
    places: Seq<(int, int)>,
) -> bool {
    forall|i: int, j: int|
        #![trigger places[i], places[j]]
        0 <= i < j < completed.len() ==> {
            &&& places[i] != places[j]
            &&& home(num_realms, completed[i]) == home(num_realms, completed[j])
                ==> places[i].0 == places[j].0 && places[i].1 < places[j].1
            &&& home(num_realms, completed[i]) < home(num_realms, completed[j]) ==> places[i].0
                < places[j].0
            &&& home(num_realms, completed[i]) > home(num_realms, completed[j]) ==> places[i].0
                > places[j].0
        }
}

/// The backend was asked for nothing but calls, each with something to tell, and whatever is told
/// has its place.
pub open spec fn are_all<B: JsBackend>(
    before: Isolate<B>,
    after: Isolate<B>,
    places: Seq<(int, int)>,
) -> bool {
    let earlier = before.backend.events();
    let later = after.backend.events();
    &&& forall|e: int, pair: int|
        #![trigger is_pair(later[e], pair)]
        earlier.len() <= e < later.len() && is_pair(later[e], pair) ==> places.contains((e, pair))
    &&& forall|e: int|
        earlier.len() <= e < later.len() ==> is_pair(#[trigger] later[e], 0)
}

/// The calls by which JavaScript is told of ops: for each op the event, and the place in it.
pub open spec fn tells_each_once<B: JsBackend>(
    before: Isolate<B>,
    after: Isolate<B>,
    completed: Seq<CompletedOp>,
    places: Seq<(int, int)>,
) -> bool {
    &&& are_told(before, after, completed, places)
    &&& are_apart(before.state->0.known_realms@.len(), completed, places)
    &&& are_all(before, after, places)
}

/// The event is a call with a pair of arguments at this place.
pub open spec fn is_pair(event: BackendEvent, pair: int) -> bool {
    &&& event matches BackendEvent::Ran {
        run: Run::InvokeFunction { call, result: _ },
        within: _,
    }
    &&& 0 <= 2 * pair < call.args.len()
}

/// Every op that is completed is answered: JavaScript of its realm is told of it exactly once, in
/// one call for each realm that has any, in the order in which the ops came. There is nothing else
/// that JavaScript is told.
pub proof fn every_op_is_told_once<B: JsBackend>(
    before: Isolate<B>,
    after: Isolate<B>,
    completed: Seq<CompletedOp>,
)
    requires
        acceptable(before, completed),
        before.slots@.len() == before.state->0.known_realms@.len(),
        before.slots@.len() > 0,
        completed_in(before, after, completed),
    ensures
        exists|places: Seq<(int, int)>| #[trigger]
            tells_each_once(before, after, completed, places),
{
    let num_realms = before.state->0.known_realms@.len();
    let groups = groups_of(num_realms, completed);
    let ready = choose|ready: Isolate<B>| #[trigger]
        counted_in(before, ready, completed) && delivered(ready, after, groups);
    let course = choose|course: Seq<Isolate<B>>| #[trigger]
        is_delivery(course, groups) && course.first() == ready && course.last() == after;
    let start = before.backend.events().len();
    let places = all_places(start, num_realms, completed);
    lemma_told_apart(before, completed, places);
    lemma_all_told(before, ready, after, completed, course, places);
    lemma_only_told(before, ready, after, completed, course, places);
    assert(tells_each_once(before, after, completed, places));
}

proof fn lemma_told_apart<B>(
    before: Isolate<B>,
    completed: Seq<CompletedOp>,
    places: Seq<(int, int)>,
)
    requires
        acceptable(before, completed),
        before.state->0.known_realms@.len() > 0,
        exists|start: nat| places == #[trigger] all_places(
            start,
            before.state->0.known_realms@.len(),
            completed,
        ),
    ensures
        are_apart(before.state->0.known_realms@.len(), completed, places),
{
    let num_realms = before.state->0.known_realms@.len();
    let start = choose|start: nat| places == #[trigger] all_places(start, num_realms, completed);
    lemma_homes(before, completed);
    assert forall|i: int, j: int|
        #![trigger places[i], places[j]]
        0 <= i < j < completed.len() implies {
        &&& places[i] != places[j]
        &&& home(num_realms, completed[i]) == home(num_realms, completed[j]) ==> places[i].0
            == places[j].0 && places[i].1 < places[j].1
        &&& home(num_realms, completed[i]) < home(num_realms, completed[j]) ==> places[i].0
            < places[j].0
        &&& home(num_realms, completed[i]) > home(num_realms, completed[j]) ==> places[i].0
            > places[j].0
    } by {
        lemma_places_differ(start, num_realms, completed, i, j);
    }
}

proof fn lemma_all_told<B: JsBackend>(
    before: Isolate<B>,
    ready: Isolate<B>,
    after: Isolate<B>,
    completed: Seq<CompletedOp>,
    course: Seq<Isolate<B>>,
    places: Seq<(int, int)>,
)
    requires
        acceptable(before, completed),
        before.slots@.len() == before.state->0.known_realms@.len(),
        before.slots@.len() > 0,
        counted_in(before, ready, completed),
        is_delivery(course, groups_of(before.state->0.known_realms@.len(), completed)),
        course.first() == ready,
        course.last() == after,
        places == all_places(
            before.backend.events().len(),
            before.state->0.known_realms@.len(),
            completed,
        ),
    ensures
        are_told(before, after, completed, places),
{
    let num_realms = before.state->0.known_realms@.len();
    let groups = groups_of(num_realms, completed);
    lemma_homes(before, completed);
    assert(groups.len() == num_realms);
    assert(ready.backend == before.backend && ready.slots == before.slots);
    lemma_delivery_course(course, groups, groups.len() as int);
    let earlier = before.backend.events();
    let later = after.backend.events();
    assert forall|i: int| #![trigger places[i]] 0 <= i < completed.len() implies {
        &&& earlier.len() <= places[i].0 < later.len()
        &&& is_told_in(
            before,
            home(num_realms, completed[i]),
            later[places[i].0],
            completed[i],
            places[i].1,
        )
    } by {
        let r = home(num_realms, completed[i]);
        let k = place(num_realms, completed, i);
        lemma_op_has_place(num_realms, completed, i);
        lemma_batch_tells(groups[r], k);
    }
}

/// The realm whose JavaScript is told by an event that came up in completing ops.
proof fn lemma_event_has_realm<B: JsBackend>(
    before: Isolate<B>,
    ready: Isolate<B>,
    after: Isolate<B>,
    completed: Seq<CompletedOp>,
    course: Seq<Isolate<B>>,
    e: int,
) -> (r: int)
    requires
        before.slots@.len() == before.state->0.known_realms@.len(),
        counted_in(before, ready, completed),
        is_delivery(course, groups_of(before.state->0.known_realms@.len(), completed)),
        course.first() == ready,
        course.last() == after,
        before.backend.events().len() <= e < after.backend.events().len(),
    ensures
        ({
            let groups = groups_of(before.state->0.known_realms@.len(), completed);
            &&& 0 <= r < before.state->0.known_realms@.len()
            &&& groups[r].len() > 0
            &&& e == before.backend.events().len() + calls_before(groups, r)
            &&& is_call_of(
                after.backend.events()[e],
                before.slots@[r].js_recv_cb->0.value(),
                batch_of(groups[r]),
            )
        }),
{
    let num_realms = before.state->0.known_realms@.len();
    let groups = groups_of(num_realms, completed);
    assert(groups.len() == num_realms);
    assert(ready.backend == before.backend && ready.slots == before.slots);
    lemma_delivery_course(course, groups, groups.len() as int);
    let r = lemma_call_has_realm(
        groups,
        groups.len() as int,
        e - before.backend.events().len(),
    );
    assert(groups[r].len() > 0);
    r
}

proof fn lemma_only_told<B: JsBackend>(
    before: Isolate<B>,
    ready: Isolate<B>,
    after: Isolate<B>,
    completed: Seq<CompletedOp>,
    course: Seq<Isolate<B>>,
    places: Seq<(int, int)>,
)
    requires
        acceptable(before, completed),
        before.slots@.len() == before.state->0.known_realms@.len(),
        before.slots@.len() > 0,
        counted_in(before, ready, completed),
        is_delivery(course, groups_of(before.state->0.known_realms@.len(), completed)),
        course.first() == ready,
        course.last() == after,
        places == all_places(
            before.backend.events().len(),
            before.state->0.known_realms@.len(),
            completed,
        ),
    ensures
        are_all(before, after, places),
{
    let earlier = before.backend.events();
    let later = after.backend.events();
    assert forall|e: int, pair: int|
        #![trigger is_pair(later[e], pair)]
        earlier.len() <= e < later.len() && is_pair(later[e], pair) implies places.contains(
        (e, pair),
    ) by {
        let r = lemma_event_has_realm(before, ready, after, completed, course, e);
        lemma_pair_has_place(before, completed, later[e], e, r, pair, places);
    }
    assert forall|e: int| earlier.len() <= e < later.len() implies is_pair(
        #[trigger] later[e],
        0,
    ) by {
        let r = lemma_event_has_realm(before, ready, after, completed, course, e);
        lemma_batch_tells(groups_of(before.state->0.known_realms@.len(), completed)[r], 0);
    }
}

proof fn lemma_pair_has_place<B: JsBackend>(
    before: Isolate<B>,
    completed: Seq<CompletedOp>,
    event: BackendEvent,
    e: int,
    r: int,
    pair: int,
    places: Seq<(int, int)>,
)
    requires
        acceptable(before, completed),
        before.state->0.known_realms@.len() > 0,
        0 <= r < before.state->0.known_realms@.len(),
        ({
            let groups = groups_of(before.state->0.known_realms@.len(), completed);
            &&& groups[r].len() > 0
            &&& e == before.backend.events().len() + calls_before(groups, r)
            &&& is_call_of(event, before.slots@[r].js_recv_cb->0.value(), batch_of(groups[r]))
        }),
        is_pair(event, pair),
        places == all_places(
            before.backend.events().len(),
            before.state->0.known_realms@.len(),
            completed,
        ),
    ensures
        places.contains((e, pair)),
{
    let num_realms = before.state->0.known_realms@.len();
    lemma_homes(before, completed);
    lemma_batch_tells(groups_of(num_realms, completed)[r], 0);
    let i = lemma_pair_has_op(num_realms, completed, r, pair);
    assert(places[i] == (e, pair));
}

proof fn lemma_op_has_place(num_realms: nat, completed: Seq<CompletedOp>, i: int)
    requires
        num_realms > 0,
        forall|k: int|
            0 <= k < completed.len() ==> home(num_realms, #[trigger] completed[k]) < num_realms,
        0 <= i < completed.len(),
    ensures
        ({
            let group = groups_of(num_realms, completed)[home(num_realms, completed[i])];
            let at = place(num_realms, completed, i);
            0 <= at < group.len() && group[at] == completed[i]
        }),
{
    groups_hold_every_op_once(num_realms, completed);
}

/// Where JavaScript is told of each op, if there were so many events before.
spec fn all_places(start: nat, num_realms: nat, completed: Seq<CompletedOp>) -> Seq<(int, int)> {
    Seq::new(completed.len(), |i: int| place_of(start, num_realms, completed, i))
}

/// Where JavaScript is told of an op, if there were so many events before.
spec fn place_of(
    start: nat,
    num_realms: nat,
    completed: Seq<CompletedOp>,
    i: int,
) -> (int, int) {
    (
        (start + calls_before(
            groups_of(num_realms, completed),
            home(num_realms, completed[i]),
        )) as int,
        place(num_realms, completed, i),
    )
}

proof fn lemma_homes<B>(before: Isolate<B>, completed: Seq<CompletedOp>)
    requires
        acceptable(before, completed),
    ensures
        forall|i: int|
            0 <= i < completed.len() ==> home(
                before.state->0.known_realms@.len(),
                #[trigger] completed[i],
            ) < before.state->0.known_realms@.len(),
        forall|i: int|
            0 <= i < completed.len() ==> before.slots@[home(
                before.state->0.known_realms@.len(),
                #[trigger] completed[i],
            )].js_recv_cb is Some,
{
    let num_realms = before.state->0.known_realms@.len();
    assert forall|i: int| 0 <= i < completed.len() implies home(num_realms, #[trigger] completed[i])
        < num_realms && before.slots@[home(num_realms, completed[i])].js_recv_cb is Some by {
        assert(home_of(before, completed[i]) == home(num_realms, completed[i]));
        assert(can_respond(before, home_of(before, completed[i])));
    }
}

proof fn lemma_batch_tells(group: Seq<CompletedOp>, k: int)
    requires
        0 <= k < group.len(),
    ensures
        batch_of(group).len() == 2 * group.len(),
        batch_of(group)[2 * k] == SerializedView::I32(group[k].promise_id),
        is_told(group[k].result, batch_of(group)[2 * k + 1]),
{
    batch_is_flat(group, k);
}

proof fn lemma_places_differ(
    start: nat,
    num_realms: nat,
    completed: Seq<CompletedOp>,
    i: int,
    j: int,
)
    requires
        num_realms > 0,
        forall|k: int|
            0 <= k < completed.len() ==> home(num_realms, #[trigger] completed[k]) < num_realms,
        0 <= i < j < completed.len(),
    ensures
        ({
            let first = place_of(start, num_realms, completed, i);
            let second = place_of(start, num_realms, completed, j);
            let a = home(num_realms, completed[i]);
            let b = home(num_realms, completed[j]);
            &&& first != second
            &&& a == b ==> first.0 == second.0 && first.1 < second.1
            &&& a < b ==> first.0 < second.0
            &&& a > b ==> first.0 > second.0
        }),
{
    groups_hold_every_op_once(num_realms, completed);
    let groups = groups_of(num_realms, completed);
    let a = home(num_realms, completed[i]);
    let b = home(num_realms, completed[j]);
    assert(groups[a].len() > 0 && groups[b].len() > 0);
    if a < b {
        lemma_calls_grow(groups, a, b);
    } else if b < a {
        lemma_calls_grow(groups, b, a);
    }
}

proof fn lemma_pair_has_op(
    num_realms: nat,
    completed: Seq<CompletedOp>,
    r: int,
    pair: int,
) -> (i: int)
    requires
        num_realms > 0,
        forall|k: int|
            0 <= k < completed.len() ==> home(num_realms, #[trigger] completed[k]) < num_realms,
        0 <= r < num_realms,
        0 <= pair < groups_of(num_realms, completed)[r].len(),
    ensures
        goes_to(num_realms, completed, i, r, pair),
{
    groups_hold_every_op_once(num_realms, completed);
    let op = groups_of(num_realms, completed)[r][pair];
    assert(is_at(num_realms, completed, r, pair, op));
    choose|i: int| #[trigger] goes_to(num_realms, completed, i, r, pair) && op == completed[i]
}

/// How many times an op is among those that are completed.
pub open spec fn times(completed: Seq<CompletedOp>, id: int) -> nat
    decreases completed.len(),
{
    if completed.len() == 0 {
        0
    } else {
        times(completed.drop_last(), id) + if completed.last().op_id == id {
            1nat
        } else {
            0
        }
    }
}

/// A completed op is counted under its number, once for each time that it is completed, up to the
/// end of the numbers. No other count changes, and no op is left that was not polled.
pub proof fn every_op_is_counted<B>(
    before: Isolate<B>,
    after: Isolate<B>,
    completed: Seq<CompletedOp>,
    id: int,
)
    requires
        before.state is Some,
        can_complete(before, completed),
        counted_in(before, after, completed),
        0 <= id < before.state->0.op_state.tracker.completed_async@.len(),
    ensures
        ({
            let counts = before.state->0.op_state.tracker.completed_async@;
            let later = after.state->0.op_state.tracker.completed_async@;
            let sum = counts[id] + times(completed, id);
            &&& later.len() == counts.len()
            &&& later[id] == if sum < u64::MAX {
                sum
            } else {
                u64::MAX as int
            }
        }),
        !after.state->0.have_unpolled_ops,
        after.slots == before.slots,
        after.backend == before.backend,
        after.state->0.pending_ops == before.state->0.pending_ops,
{
    lemma_tallied(before.state->0.op_state.tracker.completed_async@, completed, id);
}

proof fn lemma_tallied(counts: Seq<u64>, completed: Seq<CompletedOp>, id: int)
    requires
        0 <= id < counts.len(),
        forall|i: int| 0 <= i < completed.len() ==> (#[trigger] completed[i]).op_id < counts.len(),
    ensures
        ({
            let sum = counts[id] + times(completed, id);
            &&& tallied(counts, completed).len() == counts.len()
            &&& tallied(counts, completed)[id] == if sum < u64::MAX {
                sum
            } else {
                u64::MAX as int
            }
        }),
    decreases completed.len(),
{
    if completed.len() > 0 {
        let fewer = completed.drop_last();
        assert forall|i: int| 0 <= i < fewer.len() implies (#[trigger] fewer[i]).op_id
            < counts.len() by {
            assert(completed[i].op_id < counts.len());
        }
        lemma_tallied(counts, fewer, id);
        assert(completed[completed.len() - 1].op_id < counts.len());
    }
}

/// A promise that is resolved is forgotten in its realm, and there alone: JavaScript does not wait
/// for exactly those that it did not wait for and that are not resolved.
pub proof fn resolved_promises_are_forgotten<B>(
    before: Isolate<B>,
    after: Isolate<B>,
    realm_idx: RealmIdx,
    responses: Seq<CompletedOp>,
    promise_id: PromiseId,
    r: int,
)
    requires
        forgotten_in(before, after, realm_idx, responses),
        0 <= r < before.slots@.len(),
    ensures
        after.slots@[realm_idx as int].unrefed_ops@.contains(promise_id) <==> {
            &&& before.slots@[realm_idx as int].unrefed_ops@.contains(promise_id)
            &&& forall|i: int|
                0 <= i < responses.len() ==> (#[trigger] responses[i]).promise_id != promise_id
        },
        r != realm_idx ==> after.slots@[r] == before.slots@[r],
        after.slots@[r].js_recv_cb == before.slots@[r].js_recv_cb,
        after.slots@[r].op_ctxs == before.slots@[r].op_ctxs,
        after.state == before.state,
        after.backend == before.backend,
{
}

/// Ops that are completed are counted under their numbers, after which none is left that was not
/// polled, and JavaScript is told of each of them exactly once.
pub proof fn completed_ops_are_counted_and_told<B: JsBackend>(
    isolate: &mut Isolate<B>,
    completed: Vec<CompletedOp>,
    result: Result<(), Error>,
)
    requires
        acceptable(*old(isolate), completed@),
        old(isolate).slots@.len() == old(isolate).state->0.known_realms@.len(),
        old(isolate).slots@.len() > 0,
        call_ensures(resolve_completed::<B>, (isolate, completed), result),
    ensures
        result is Ok,
        exists|places: Seq<(int, int)>| #[trigger]
            tells_each_once(*old(isolate), *final(isolate), completed@, places),
        completed@.len() == 0 ==> final(isolate).backend == old(isolate).backend
            && final(isolate).slots == old(isolate).slots
            && !final(isolate).state->0.have_unpolled_ops,
        exists|ready: Isolate<B>| #[trigger]
            counts_all(*old(isolate), ready, completed@) && delivered(
                ready,
                *final(isolate),
                groups_of(old(isolate).state->0.known_realms@.len(), completed@),
            ),
{
    let before = *old(isolate);
    let after = *final(isolate);
    let groups = groups_of(before.state->0.known_realms@.len(), completed@);
    every_op_is_told_once(before, after, completed@);
    let ready = choose|ready: Isolate<B>| #[trigger]
        counted_in(before, ready, completed@) && delivered(ready, after, groups);
    let counts = before.state->0.op_state.tracker.completed_async@;
    let later = ready.state->0.op_state.tracker.completed_async@;
    if counts.len() > 0 {
        every_op_is_counted(before, ready, completed@, 0);
    } else {
        assert(completed@.len() == 0) by {
            if completed@.len() > 0 {
                assert(completed@[0].op_id < counts.len());
            }
        }
    }
    assert forall|id: int| 0 <= id < counts.len() implies #[trigger] later[id] == summed(
        counts[id],
        times(completed@, id),
    ) by {
        every_op_is_counted(before, ready, completed@, id);
    }
    assert(counts_all(before, ready, completed@));
    if completed@.len() == 0 {
        let course = choose|course: Seq<Isolate<B>>| #[trigger]
            is_delivery(course, groups) && course.first() == ready && course.last() == after;
        assert forall|r: int| 0 <= r < groups.len() implies (#[trigger] groups[r]).len() == 0 by {}
        lemma_nothing_delivered(course, groups, groups.len() as int);
    }
}

proof fn lemma_nothing_delivered<B: JsBackend>(
    course: Seq<Isolate<B>>,
    groups: Seq<Seq<CompletedOp>>,
    count: int,
)
    requires
        is_delivery(course, groups),
        forall|r: int| 0 <= r < groups.len() ==> (#[trigger] groups[r]).len() == 0,
        0 <= count <= groups.len(),
    ensures
        course[count] == course[0],
    decreases count,
{
    if count > 0 {
        lemma_nothing_delivered(course, groups, count - 1);
        assert(groups[count - 1].len() == 0);
    }
}

/// So many more, up to the end of the numbers.
pub open spec fn summed(count: u64, more: nat) -> int {
    if count + more < u64::MAX {
        count + more
    } else {
        u64::MAX as int
    }
}

/// Each op is counted as often as it is completed, and nothing else happens but that no op is left
/// that was not polled.
pub open spec fn counts_all<B>(
    before: Isolate<B>,
    after: Isolate<B>,
    completed: Seq<CompletedOp>,
) -> bool {
    let counts = before.state->0.op_state.tracker.completed_async@;
    let later = after.state->0.op_state.tracker.completed_async@;
    &&& later.len() == counts.len()
    &&& forall|id: int|
        0 <= id < counts.len() ==> #[trigger] later[id] == summed(counts[id], times(completed, id))
    &&& !after.state->0.have_unpolled_ops
    &&& after.backend == before.backend
    &&& after.slots == before.slots
    &&& after.state->0.pending_ops == before.state->0.pending_ops
}

/// The arguments are pairs of promises and results, in order.
pub open spec fn are_pairs(batch: Seq<Serialized>, responses: Seq<CompletedOp>) -> bool {
    &&& batch.len() == 2 * responses.len()
    &&& forall|i: int|
        0 <= i < responses.len() ==> {
            &&& batch[2 * i] matches Serialized::I32(id)
            &&& id == (#[trigger] responses[i]).promise_id
            &&& is_told(responses[i].result, batch[2 * i + 1]@)
        }
}

/// A batch holds a pair for each response, in order, and the promises are forgotten in the realm
/// that it is made in: JavaScript does not wait there for those that it did not wait for and that
/// are not resolved.
pub proof fn batches_hold_a_pair_for_each_response<B>(
    slot: &mut ContextState,
    responses: Vec<CompletedOp>,
    batch: Vec<Serialized>,
    isolate: &mut Isolate<B>,
    realm_idx: RealmIdx,
    collected: Vec<Serialized>,
    promise_id: PromiseId,
)
    requires
        call_ensures(respond, (slot, responses), batch),
        call_ensures(collect_responses::<B>, (isolate, realm_idx, responses), collected),
    ensures
        are_pairs(batch@, responses@),
        are_pairs(collected@, responses@),
        final(slot).unrefed_ops@.contains(promise_id) <==> {
            &&& old(slot).unrefed_ops@.contains(promise_id)
            &&& forall|i: int|
                0 <= i < responses@.len() ==> (#[trigger] responses@[i]).promise_id != promise_id
        },
        final(isolate).slots@[realm_idx as int].unrefed_ops@.contains(promise_id) <==> {
            &&& old(isolate).slots@[realm_idx as int].unrefed_ops@.contains(promise_id)
            &&& forall|i: int|
                0 <= i < responses@.len() ==> (#[trigger] responses@[i]).promise_id != promise_id
        },
        final(slot).js_recv_cb == old(slot).js_recv_cb,
        final(slot).op_ctxs == old(slot).op_ctxs,
        final(isolate).backend == old(isolate).backend,
        final(isolate).state == old(isolate).state,
{
    lemma_pairs(batch@, responses@);
    lemma_pairs(collected@, responses@);
}

proof fn lemma_pairs(batch: Seq<Serialized>, responses: Seq<CompletedOp>)
    requires
        serialized_views(batch) == batch_of(responses),
    ensures
        are_pairs(batch, responses),
{
    if responses.len() > 0 {
        lemma_batch_tells(responses, 0);
    } else {
        assert(batch_of(responses).len() == 0);
    }
    assert(serialized_views(batch).len() == batch.len());
    assert forall|i: int| 0 <= i < responses.len() implies {
        &&& batch[2 * i] matches Serialized::I32(id)
        &&& id == (#[trigger] responses[i]).promise_id
        &&& is_told(responses[i].result, batch[2 * i + 1]@)
    } by {
        lemma_batch_tells(responses, i);
        assert(serialized_views(batch)[2 * i] == batch[2 * i]@);
        assert(serialized_views(batch)[2 * i + 1] == batch[2 * i + 1]@);
    }
}

/// Ops are told apart by their realms: there is a group for each realm, each op stands in that of
/// its realm behind those of the realm that came before it, and nothing else stands there.
pub proof fn groups_keep_all_ops_of_a_realm(
    completed: Vec<CompletedOp>,
    num_realms: usize,
    groups: Vec<Vec<CompletedOp>>,
    realm_idx: int,
)
    requires
        call_ensures(group_by_realm, (completed, num_realms), groups),
        0 <= realm_idx < num_realms,
    ensures
        groups@.len() == num_realms,
        groups@[realm_idx]@.len() == count_in_realm(
            completed@,
            realm_idx,
            completed@.len() as int,
        ),
        forall|i: int|
            0 <= i < completed@.len() && (#[trigger] completed@[i]).realm_idx == realm_idx ==> {
                let at = count_in_realm(completed@, realm_idx, i) as int;
                at < groups@[realm_idx]@.len() && groups@[realm_idx]@[at] == completed@[i]
            },
{
    realms_keep_all_their_ops(completed@, realm_idx);
}

/// Ops can be completed where the runtime knows each of them, and JavaScript of the realm that it
/// goes to can be told: an only realm gets all of them.
pub proof fn ops_are_accepted_where_they_can_be_told<B>(
    isolate: Isolate<B>,
    completed: Vec<CompletedOp>,
    yes: bool,
)
    requires
        isolate.state is Some,
        call_ensures(accepts::<B>, (&isolate, &completed), yes),
    ensures
        yes <==> forall|i: int|
            0 <= i < completed@.len() ==> {
                let realms = isolate.state->0.known_realms@.len();
                let at = home(realms, #[trigger] completed@[i]);
                &&& completed@[i].op_id < isolate.state->0.op_state.tracker.completed_async@.len()
                &&& at < realms
                &&& at < isolate.slots@.len()
                &&& isolate.slots@[at].js_recv_cb is Some
            },
{
    let realms = isolate.state->0.known_realms@.len();
    if yes {
        assert forall|i: int| 0 <= i < completed@.len() implies {
            let at = home(realms, #[trigger] completed@[i]);
            &&& completed@[i].op_id < isolate.state->0.op_state.tracker.completed_async@.len()
            &&& at < realms
            &&& at < isolate.slots@.len()
            &&& isolate.slots@[at].js_recv_cb is Some
        } by {
            assert(home_of(isolate, completed@[i]) == home(realms, completed@[i]));
            assert(can_respond(isolate, home_of(isolate, completed@[i])));
        }
    } else if forall|i: int|
        0 <= i < completed@.len() ==> {
            let at = home(realms, #[trigger] completed@[i]);
            &&& completed@[i].op_id < isolate.state->0.op_state.tracker.completed_async@.len()
            &&& at < realms
            &&& at < isolate.slots@.len()
            &&& isolate.slots@[at].js_recv_cb is Some
        } {
        assert forall|i: int| 0 <= i < completed@.len() implies home_of(
            isolate,
            #[trigger] completed@[i],
        ) < realms && can_respond(isolate, home_of(isolate, completed@[i])) by {
            assert(home_of(isolate, completed@[i]) == home(realms, completed@[i]));
        }
        assert(acceptable(isolate, completed@));
    }
}

} // verus!

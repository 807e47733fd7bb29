//! The async ops that are not done yet.
use crate::ops::CompletedOp;
use futures::future::LocalBoxFuture;
use futures::stream::FuturesUnordered;
use futures::stream::StreamExt;
use std::future::Future;
use std::task::Poll;
use vstd::prelude::*;

verus! {

/// `std::task::Context`, through which a future is told what to wake.
#[verifier::external_type_specification]
#[verifier::external_body]
pub struct ExContext<'a>(std::task::Context<'a>);

/// Futures of async ops, in a `futures::stream::FuturesUnordered`.
#[verifier::external_body]
pub struct PendingOps {
    futures: FuturesUnordered<LocalBoxFuture<'static, CompletedOp>>,
}

/// How many futures a set holds.
pub uninterp spec fn pending_count(ops: PendingOps) -> nat;

/// The ops that were put into a set by [`pending_push_ready`] and have not come out of it, in the
/// order in which they went in.
pub uninterp spec fn done_ops(ops: PendingOps) -> Seq<CompletedOp>;

/// Nothing was ever put into a set but by [`pending_push_ready`].
pub uninterp spec fn only_done(ops: PendingOps) -> bool;

/// `FuturesUnordered::new` makes a set without futures.
#[verifier::external_body]
pub(crate) fn pending_new() -> (ops: PendingOps)
    ensures
        pending_count(ops) == 0,
        done_ops(ops) == Seq::<CompletedOp>::empty(),
        only_done(ops),
{
    PendingOps { futures: FuturesUnordered::new() }
}

/// `FuturesUnordered::push` puts a future into the set and does not poll it. What the future's
/// output will be is left unsaid: nothing tells before it is polled.
#[verifier::external_body]
pub(crate) fn pending_push<F: Future<Output = CompletedOp> + 'static>(
    ops: &mut PendingOps,
    future: F,
)
    ensures
        pending_count(*final(ops)) == pending_count(*old(ops)) + 1,
        done_ops(*final(ops)) == done_ops(*old(ops)),
        !only_done(*final(ops)),
{
    ops.futures.push(Box::pin(future));
}

/// `FuturesUnordered::push` with a future that `futures::future::ready` makes of an op that is
/// done, so that the op is the future's output.
#[verifier::external_body]
pub(crate) fn pending_push_ready(ops: &mut PendingOps, op: CompletedOp)
    ensures
        pending_count(*final(ops)) == pending_count(*old(ops)) + 1,
        done_ops(*final(ops)) == done_ops(*old(ops)).push(op),
        only_done(*final(ops)) == only_done(*old(ops)),
{
    ops.futures.push(Box::pin(futures::future::ready(op)));
}

/// `FuturesUnordered::len` counts the futures in the set.
#[verifier::external_body]
pub(crate) fn pending_len(ops: &PendingOps) -> (count: usize)
    ensures
        count == pending_count(*ops),
{
    ops.futures.len()
}

/// `StreamExt::poll_next_unpin` on a `FuturesUnordered` polls futures that are new or were woken,
/// in the order in which they were queued for that. It gives the output of one that is done, which
/// leaves the set, or nothing: then no future left it.
///
/// A future of [`pending_push_ready`] is done the first time that it is polled, and is queued only
/// once, when it is put in. So of those the oldest comes out first; and where the set never held
/// any other, nothing can wake a future or keep the queue busy, and the oldest comes out now.
///
/// Where it held others, which future comes, whether one comes at all, and what its output is,
/// rests with the futures and with the threads that wake them.
#[verifier::external_body]
pub(crate) fn pending_poll_next(
    ops: &mut PendingOps,
    cx: &mut std::task::Context<'_>,
) -> (item: Option<CompletedOp>)
    ensures
        match item {
            Some(item) => {
                &&& pending_count(*old(ops)) == pending_count(*final(ops)) + 1
                &&& {
                    ||| !only_done(*old(ops)) && done_ops(*final(ops)) == done_ops(*old(ops))
                    ||| {
                        &&& done_ops(*old(ops)).len() > 0
                        &&& item == done_ops(*old(ops))[0]
                        &&& done_ops(*final(ops)) == done_ops(*old(ops)).drop_first()
                    }
                }
            },
            None => {
                &&& pending_count(*old(ops)) == pending_count(*final(ops))
                &&& done_ops(*old(ops)) == done_ops(*final(ops))
                &&& only_done(*old(ops)) ==> pending_count(*final(ops)) == 0 && done_ops(
                    *final(ops),
                ).len() == 0
            },
        },
        only_done(*final(ops)) == only_done(*old(ops)),
{
    match ops.futures.poll_next_unpin(cx) {
        Poll::Ready(item) => item,
        Poll::Pending => None,
    }
}

/// The ops of `done` but for those `left` stand in `ready` at these places, one behind the other.
pub open spec fn are_places(
    done: Seq<CompletedOp>,
    left: Seq<CompletedOp>,
    ready: Seq<CompletedOp>,
    places: Seq<int>,
) -> bool {
    &&& places.len() <= done.len()
    &&& left == done.skip(places.len() as int)
    &&& forall|i: int|
        0 <= i < places.len() ==> 0 <= #[trigger] places[i] < ready.len() && ready[places[i]]
            == done[i]
    &&& forall|i: int, j: int| 0 <= i < j < places.len() ==> places[i] < places[j]
}

/// These ops came out of a set, which `after` is left of. None that was done before it was put in
/// is lost, and those come in the order in which they were put in. Where nothing else was ever put
/// in, they are what comes, and all of them do.
pub open spec fn takes(before: PendingOps, after: PendingOps, ready: Seq<CompletedOp>) -> bool {
    &&& pending_count(before) == pending_count(after) + ready.len()
    &&& exists|places: Seq<int>| #[trigger]
        are_places(done_ops(before), done_ops(after), ready, places)
    &&& only_done(after) == only_done(before)
    &&& only_done(before) ==> {
        &&& ready == done_ops(before)
        &&& done_ops(after).len() == 0
        &&& pending_count(after) == 0
    }
}

impl PendingOps {
    /// Takes out all ops that are done, in the order in which they come.
    pub fn take_ready(&mut self, cx: &mut std::task::Context<'_>) -> (ready: Vec<CompletedOp>)
        ensures
            takes(*old(self), *final(self), ready@),
    {
        let mut ready: Vec<CompletedOp> = Vec::new();
        let ghost mut places: Seq<int> = Seq::empty();
        assert(done_ops(*self).skip(0) == done_ops(*self));
        loop
            invariant
                pending_count(*old(self)) == pending_count(*self) + ready@.len(),
                are_places(done_ops(*old(self)), done_ops(*self), ready@, places),
                only_done(*self) == only_done(*old(self)),
                only_done(*self) ==> done_ops(*old(self)) == ready@ + done_ops(*self),
            decreases pending_count(*self),
        {
            let ghost before = *self;
            let ghost done = done_ops(*old(self));
            match pending_poll_next(self, cx) {
                Some(item) => {
                    proof {
                        if done_ops(*self) != done_ops(before) {
                            let taken = places.len() as int;
                            assert(done.skip(taken).drop_first() == done.skip(taken + 1));
                            places = places.push(ready@.len() as int);
                        }
                    }
                    ready.push(item);
                },
                None => return ready,
            }
        }
    }
}

} // verus!

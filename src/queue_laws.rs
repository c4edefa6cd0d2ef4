use vstd::prelude::*;
use crate::messagequeue::{after_read, after_send, front, send_accepted};

verus! {

/// One call made on a queue by its producer or by its consumer.
pub enum QueueOp<T> {
    Send(T),
    Read,
}

/// What a run of `ops` on a fresh queue of `cap` slots leaves behind: the
/// messages still waiting, the messages whose send succeeded, and the messages
/// that reads handed out, each in order. Each step is what the contracts of
/// `MessageQueueInternal::send` and `MessageQueueInternal::read` give, so the
/// first component is the view of the ring after the same calls.
pub open spec fn replay<T>(cap: nat, ops: Seq<QueueOp<T>>) -> (Seq<T>, Seq<T>, Seq<T>)
    decreases ops.len(),
{
    if ops.len() == 0 {
        (Seq::empty(), Seq::empty(), Seq::empty())
    } else {
        let (w, sent, got) = replay(cap, ops.drop_last());
        match ops.last() {
            QueueOp::Send(v) => (
                after_send(w, cap, v),
                if send_accepted(w, cap) {
                    sent.push(v)
                } else {
                    sent
                },
                got,
            ),
            QueueOp::Read => (
                after_read(w),
                sent,
                match front(w) {
                    Some(v) => got.push(v),
                    None => got,
                },
            ),
        }
    }
}

/// Messages come out in the order they went in: what was read, followed by
/// what still waits, is exactly what was sent successfully.
pub proof fn lemma_fifo<T>(cap: nat, ops: Seq<QueueOp<T>>)
    ensures
        replay(cap, ops).2 + replay(cap, ops).0 == replay(cap, ops).1,
    decreases ops.len(),
{
    if ops.len() > 0 {
        lemma_fifo(cap, ops.drop_last());
        let (w, sent, got) = replay(cap, ops.drop_last());
        match ops.last() {
            QueueOp::Send(v) => {
                if send_accepted(w, cap) {
                    assert(got + w.push(v) =~= (got + w).push(v));
                }
            },
            QueueOp::Read => {
                if w.len() > 0 {
                    assert(got.push(w[0]) + w.drop_first() =~= got + w);
                }
            },
        }
    }
}

/// After N successful sends and M successful reads, N - M messages wait.
pub proof fn lemma_available_counts<T>(cap: nat, ops: Seq<QueueOp<T>>)
    ensures
        replay(cap, ops).0.len() == replay(cap, ops).1.len() - replay(cap, ops).2.len(),
{
    lemma_fifo(cap, ops);
}

/// At any moment fewer messages wait than the queue has slots.
pub proof fn lemma_available_bounded<T>(cap: nat, ops: Seq<QueueOp<T>>)
    requires
        cap >= 2,
    ensures
        replay(cap, ops).0.len() <= cap - 1,
    decreases ops.len(),
{
    if ops.len() > 0 {
        lemma_available_bounded(cap, ops.drop_last());
    }
}

/// When a message is reported waiting, the next read hands one out.
pub proof fn lemma_ready_then_read<T>(w: Seq<T>)
    ensures
        w.len() > 0 ==> front(w) is Some,
{
}

/// Only sends, one message each.
pub open spec fn sends<T>(vals: Seq<T>) -> Seq<QueueOp<T>> {
    Seq::new(vals.len(), |i: int| QueueOp::Send(vals[i]))
}

proof fn lemma_sends_fill<T>(cap: nat, vals: Seq<T>, k: nat)
    requires
        cap >= 2,
        k <= cap - 1,
        k <= vals.len(),
    ensures
        replay(cap, sends(vals.take(k as int))) == (vals.take(k as int), vals.take(k as int), Seq::<T>::empty()),
    decreases k,
{
    if k > 0 {
        lemma_sends_fill(cap, vals, (k - 1) as nat);
        assert(sends(vals.take(k as int)).drop_last() =~= sends(vals.take(k - 1)));
        assert(vals.take(k - 1).push(vals[k - 1]) =~= vals.take(k as int));
    } else {
        assert(sends(vals.take(0)) =~= Seq::<QueueOp<T>>::empty());
    }
}

/// Without reads, the first `cap - 1` sends to a queue of `cap` slots succeed
/// and the next one fails.
pub proof fn lemma_full_after_capacity_sends<T>(cap: nat, vals: Seq<T>)
    requires
        cap >= 2,
        vals.len() == cap,
    ensures
        replay(cap, sends(vals)).1 == vals.take(cap - 1),
        replay(cap, sends(vals.take(cap - 1))).1 == vals.take(cap - 1),
        !send_accepted(replay(cap, sends(vals.take(cap - 1))).0, cap),
{
    lemma_sends_fill(cap, vals, (cap - 1) as nat);
    assert(sends(vals).drop_last() =~= sends(vals.take(cap - 1)));
}

} // verus!

use vstd::prelude::*;
use crate::backingstore::BackingStore;
use std::sync::Arc;
use vstd::rwlock::{RwLock, RwLockPredicate};

verus! {

/// Why a queue operation did not happen.
#[derive(Debug, Clone, Copy, PartialEq, Eq, Structural)]
pub enum MessageQueueError {
    /// A queue must have room for at least two slots.
    UnvalidSize,
    /// The slots of the queue could not be allocated.
    MemoryAllocationFailed,
    /// Every usable slot holds an unread message.
    MessageQueueFull,
    /// No message is waiting.
    MessageQueueEmpty,
}

/// Slot that follows slot `i` on a ring of `len` slots.
pub open spec fn next_slot(i: int, len: int) -> int {
    if i + 1 == len {
        0
    } else {
        i + 1
    }
}

fn next_index(i: usize, len: usize) -> (r: usize)
    requires
        i < len,
    ensures
        r == next_slot(i as int, len as int),
{
    if i + 1 == len {
        0
    } else {
        i + 1
    }
}

/// Number of messages between the read position `r` and the write position `w`
/// on a ring of `len` slots.
pub open spec fn ring_dist(w: int, r: int, len: int) -> int {
    if w < r {
        len + w - r
    } else {
        w - r
    }
}

/// Slot that holds the `i`-th waiting message when reading starts at slot `r`.
pub open spec fn slot_of(r: int, i: int, len: int) -> int {
    if r + i < len {
        r + i
    } else {
        r + i - len
    }
}

/// Whether a ring of `cap` slots holding the messages `w` takes one more.
pub open spec fn send_accepted<T>(w: Seq<T>, cap: nat) -> bool {
    w.len() + 1 < cap
}

/// The waiting messages after sending `v` to a ring of `cap` slots holding `w`.
pub open spec fn after_send<T>(w: Seq<T>, cap: nat, v: T) -> Seq<T> {
    if send_accepted(w, cap) {
        w.push(v)
    } else {
        w
    }
}

/// The message that a read hands out when `w` is waiting.
pub open spec fn front<T>(w: Seq<T>) -> Option<T> {
    if w.len() > 0 {
        Some(w[0])
    } else {
        None
    }
}

/// The waiting messages after a read when `w` was waiting.
pub open spec fn after_read<T>(w: Seq<T>) -> Seq<T> {
    if w.len() > 0 {
        w.drop_first()
    } else {
        w
    }
}

/// The shared state of one queue: a ring of slots, the slot the producer
/// writes next and the slot the consumers read next.
///
/// One slot is always left free so that a full ring and an empty one differ.
#[derive(Debug)]
pub struct MessageQueueInternal<T> {
    len: usize,
    write_ptr: usize,
    read_ptr: usize,
    backing_store: BackingStore<T>,
}

impl<T> View for MessageQueueInternal<T> {
    type V = Seq<T>;

    /// The waiting messages, oldest first.
    closed spec fn view(&self) -> Seq<T> {
        Seq::new(
            ring_dist(self.write_ptr as int, self.read_ptr as int, self.len as int) as nat,
            |i: int|
                self.backing_store@[slot_of(self.read_ptr as int, i, self.len as int)]->Some_0,
        )
    }
}

impl<T> MessageQueueInternal<T> {
    /// Number of slots of the ring; at most one less can wait at once.
    pub closed spec fn capacity(&self) -> nat {
        self.len as nat
    }

    /// The positions lie on the ring, every slot from the read position up
    /// to the write position holds a message, and every other slot is empty.
    pub closed spec fn wf(&self) -> bool {
        &&& self.len >= 2
        &&& self.backing_store@.len() == self.len
        &&& self.write_ptr < self.len
        &&& self.read_ptr < self.len
        &&& forall|i: int|
            0 <= i < ring_dist(self.write_ptr as int, self.read_ptr as int, self.len as int)
                ==> (#[trigger] self.backing_store@[slot_of(
                self.read_ptr as int,
                i,
                self.len as int,
            )]) is Some
        &&& forall|i: int|
            ring_dist(self.write_ptr as int, self.read_ptr as int, self.len as int) <= i < self.len
                ==> (#[trigger] self.backing_store@[slot_of(
                self.read_ptr as int,
                i,
                self.len as int,
            )]) is None
    }

    /// A queue of `num_elements` slots, holding nothing.
    pub fn new(num_elements: usize) -> (r: Result<MessageQueueInternal<T>, MessageQueueError>)
        ensures
            num_elements < 2 ==> r == Err::<MessageQueueInternal<T>, _>(
                MessageQueueError::UnvalidSize,
            ),
            num_elements >= 2 ==> match r {
                Ok(q) => q.wf() && q.capacity() == num_elements && q@ == Seq::<T>::empty(),
                Err(e) => e == MessageQueueError::MemoryAllocationFailed,
            },
    {
        if num_elements < 2 {
            return Err(MessageQueueError::UnvalidSize);
        }
        match BackingStore::new(num_elements) {
            Ok(backing_store) => {
                let q = MessageQueueInternal { len: num_elements, write_ptr: 0, read_ptr: 0, backing_store };
                assert(q@ =~= Seq::<T>::empty());
                Ok(q)
            },
            Err(_) => Err(MessageQueueError::MemoryAllocationFailed),
        }
    }

    /// Returns the distance between the reader and the writer on the ring,
    /// that is the number of messages waiting to be read.
    pub fn dist(&self) -> (r: usize)
        requires
            self.wf(),
        ensures
            r == self@.len(),
            r < self.capacity(),
    {
        if self.write_ptr < self.read_ptr {
            self.len - self.read_ptr + self.write_ptr
        } else {
            self.write_ptr - self.read_ptr
        }
    }

    /// Whether a message is waiting.
    pub fn is_ready(&self) -> (r: bool)
        requires
            self.wf(),
        ensures
            r == (self@.len() > 0),
    {
        self.dist() > 0
    }

    /// Number of slots of the ring.
    pub fn num_slots(&self) -> (r: usize)
        ensures
            r == self.capacity(),
    {
        self.len
    }

    /// Appends `val` behind the waiting messages, unless every usable slot is
    /// taken; `val` is then dropped and the queue is left as it was.
    pub fn send(&mut self, val: T) -> (r: Result<(), MessageQueueError>)
        requires
            old(self).wf(),
        ensures
            final(self).wf(),
            final(self).capacity() == old(self).capacity(),
            final(self)@ == after_send(old(self)@, old(self).capacity(), val),
            r is Ok == send_accepted(old(self)@, old(self).capacity()),
            r is Err ==> r == Err::<(), _>(MessageQueueError::MessageQueueFull),
    {
        if self.dist() == self.len - 1 {
            return Err(MessageQueueError::MessageQueueFull);
        }
        let ghost pre = *self;
        let wptr = self.write_ptr;
        assert(slot_of(pre.read_ptr as int, pre@.len() as int, pre.len as int) == wptr);
        assert(pre.backing_store@[slot_of(pre.read_ptr as int, pre@.len() as int, pre.len as int)]
            is None);
        self.backing_store.set(wptr, val);
        self.write_ptr = next_index(wptr, self.len);
        assert forall|i: int|
            0 <= i < ring_dist(self.write_ptr as int, self.read_ptr as int, self.len as int)
                implies (#[trigger] self.backing_store@[slot_of(
            self.read_ptr as int,
            i,
            self.len as int,
        )]) is Some by {
            if i < pre@.len() {
                assert(pre.backing_store@[slot_of(pre.read_ptr as int, i, pre.len as int)] is Some);
            }
        }
        assert forall|i: int|
            ring_dist(self.write_ptr as int, self.read_ptr as int, self.len as int) <= i < self.len
                implies (#[trigger] self.backing_store@[slot_of(
            self.read_ptr as int,
            i,
            self.len as int,
        )]) is None by {
            assert(pre.backing_store@[slot_of(pre.read_ptr as int, i, pre.len as int)] is None);
        }
        assert(self@ =~= pre@.push(val));
        Ok(())
    }

    /// Takes the oldest waiting message, if there is one.
    pub fn read(&mut self) -> (r: Option<T>)
        requires
            old(self).wf(),
        ensures
            final(self).wf(),
            final(self).capacity() == old(self).capacity(),
            r == front(old(self)@),
            final(self)@ == after_read(old(self)@),
    {
        if self.dist() == 0 {
            return None;
        }
        let ghost pre = *self;
        let rptr = self.read_ptr;
        assert(pre.backing_store@[slot_of(pre.read_ptr as int, 0, pre.len as int)] is Some);
        let val = self.backing_store.get(rptr);
        self.read_ptr = next_index(rptr, self.len);
        assert forall|i: int|
            0 <= i < ring_dist(self.write_ptr as int, self.read_ptr as int, self.len as int)
                implies (#[trigger] self.backing_store@[slot_of(
            self.read_ptr as int,
            i,
            self.len as int,
        )]) is Some by {
            assert(pre.backing_store@[slot_of(pre.read_ptr as int, i + 1, pre.len as int)] is Some);
        }
        assert forall|i: int|
            ring_dist(self.write_ptr as int, self.read_ptr as int, self.len as int) <= i < self.len
                implies (#[trigger] self.backing_store@[slot_of(
            self.read_ptr as int,
            i,
            self.len as int,
        )]) is None by {
            if i + 1 < pre.len {
                assert(pre.backing_store@[slot_of(pre.read_ptr as int, i + 1, pre.len as int)]
                    is None);
            }
        }
        assert forall|i: int| 0 <= i < self@.len() implies #[trigger] self@[i] == pre@.drop_first()[i] by {
            assert(slot_of(self.read_ptr as int, i, self.len as int) == slot_of(pre.read_ptr as int, i + 1, pre.len as int));
        }
        assert(self@ =~= pre@.drop_first());
        val
    }
}

/// What the lock around a queue's state keeps true: the ring is well formed
/// and keeps the number of slots it was made with.
pub struct QueueShape {
    pub capacity: usize,
}

impl<T> RwLockPredicate<MessageQueueInternal<T>> for QueueShape {
    open spec fn inv(self, q: MessageQueueInternal<T>) -> bool {
        q.wf() && q.capacity() == self.capacity
    }
}

/// The ring shared by the producer and all consumers of one queue. Every
/// operation on it is one call on `MessageQueueInternal` made while holding
/// the lock, so two consumers never take the same message and a consumer
/// sees a message only once its slot is written.
type SharedQueue<T> = Arc<RwLock<MessageQueueInternal<T>, QueueShape>>;

/// The one producer of a queue.
pub struct MessageQueueSender<T> {
    internal: SharedQueue<T>,
    len: usize,
}

/// A consumer of a queue; any number of them may read the same queue.
pub struct MessageQueueReader<T> {
    internal: SharedQueue<T>,
    len: usize,
}

impl<T> MessageQueueSender<T> {
    #[verifier::type_invariant]
    spec fn shaped(&self) -> bool {
        self.internal.pred() == (QueueShape { capacity: self.len })
    }

    /// Number of slots of the queue.
    pub closed spec fn capacity(&self) -> nat {
        self.len as nat
    }

    /// The lock that holds this queue's ring; handles with the same lock
    /// share one queue.
    pub closed spec fn queue(&self) -> RwLock<MessageQueueInternal<T>, QueueShape> {
        *self.internal
    }

    /// Creates a queue of `num_elements` slots, of which `num_elements - 1`
    /// can hold waiting messages at once.
    pub fn new(num_elements: usize) -> (r: Result<MessageQueueSender<T>, MessageQueueError>)
        ensures
            num_elements < 2 ==> (r matches Err(e) && e == MessageQueueError::UnvalidSize),
            num_elements >= 2 ==> match r {
                Ok(s) => s.capacity() == num_elements,
                Err(e) => e == MessageQueueError::MemoryAllocationFailed,
            },
    {
        match MessageQueueInternal::new(num_elements) {
            Ok(q) => {
                let lock = RwLock::new(q, Ghost(QueueShape { capacity: num_elements }));
                Ok(MessageQueueSender { internal: Arc::new(lock), len: num_elements })
            },
            Err(e) => Err(e),
        }
    }

    /// Sends a message; fails, dropping it, when the queue is full.
    pub fn send(&mut self, val: T) -> (r: Result<(), MessageQueueError>)
        ensures
            r is Ok || r == Err::<(), _>(MessageQueueError::MessageQueueFull),
            *final(self) == *old(self),
    {
        proof {
            use_type_invariant(&*self);
        }
        let (mut q, handle) = self.internal.acquire_write();
        let r = q.send(val);
        handle.release_write(q);
        r
    }

    /// A new consumer of this queue.
    pub fn new_reader(&mut self) -> (r: MessageQueueReader<T>)
        ensures
            r.capacity() == old(self).capacity(),
            r.queue() == old(self).queue(),
            *final(self) == *old(self),
    {
        proof {
            use_type_invariant(&*self);
        }
        MessageQueueReader { internal: self.internal.clone(), len: self.len }
    }
}

impl<T> MessageQueueReader<T> {
    #[verifier::type_invariant]
    spec fn shaped(&self) -> bool {
        self.internal.pred() == (QueueShape { capacity: self.len })
    }

    /// Number of slots of the queue.
    pub closed spec fn capacity(&self) -> nat {
        self.len as nat
    }

    /// The lock that holds this queue's ring; handles with the same lock
    /// share one queue.
    pub closed spec fn queue(&self) -> RwLock<MessageQueueInternal<T>, QueueShape> {
        *self.internal
    }

    /// Number of messages waiting at the moment of the call.
    pub fn available(&self) -> (r: usize)
        ensures
            r < self.capacity(),
    {
        proof {
            use_type_invariant(self);
        }
        let handle = self.internal.acquire_read();
        let r = handle.borrow().dist();
        handle.release_read();
        r
    }

    /// Whether a message was waiting at the moment of the call.
    pub fn is_ready(&self) -> (r: bool) {
        proof {
            use_type_invariant(self);
        }
        let handle = self.internal.acquire_read();
        let r = handle.borrow().is_ready();
        handle.release_read();
        r
    }

    /// Takes the oldest waiting message, if there is one.
    pub fn read(&mut self) -> (r: Option<T>)
        ensures
            *final(self) == *old(self),
    {
        proof {
            use_type_invariant(&*self);
        }
        let (mut q, handle) = self.internal.acquire_write();
        let r = q.read();
        handle.release_write(q);
        r
    }
}

/// How many times a blocking read tries without pausing before it starts to
/// sleep between tries.
pub const BUSY_READ_ATTEMPTS: usize = 50;

/// Pause, in microseconds, before retry `attempt` (counted from 0) of a
/// blocking read once its busy tries are spent: 35 for the first ten retries,
/// 80 for the next ninety, 250 for the next four hundred, 500 after that.
pub open spec fn backoff_spec(attempt: u64) -> u64 {
    if attempt < 10 {
        35
    } else if attempt < 100 {
        80
    } else if attempt < 500 {
        250
    } else {
        500
    }
}

/// Pause, in microseconds, before retry `attempt` of a blocking read.
pub fn backoff_micros(attempt: u64) -> (r: u64)
    ensures
        r == backoff_spec(attempt),
{
    if attempt < 10 {
        35
    } else if attempt < 100 {
        80
    } else if attempt < 500 {
        250
    } else {
        500
    }
}

impl<T> MessageQueueReader<T> {
    /// The busy part of a blocking read: tries to read up to
    /// `BUSY_READ_ATTEMPTS` times in a row and stops at the first message.
    pub fn spin_read(&mut self) -> (r: Option<T>)
        ensures
            *final(self) == *old(self),
    {
        let mut i: usize = 0;
        while i < BUSY_READ_ATTEMPTS
            invariant
                *self == *old(self),
            decreases BUSY_READ_ATTEMPTS - i,
        {
            match self.read() {
                Some(x) => {
                    return Some(x);
                },
                None => {},
            }
            i += 1;
        }
        None
    }
}

impl<T> Clone for MessageQueueReader<T> {
    fn clone(&self) -> (r: Self)
        ensures
            r.capacity() == self.capacity(),
            r.queue() == self.queue(),
    {
        proof {
            use_type_invariant(self);
        }
        MessageQueueReader { internal: self.internal.clone(), len: self.len }
    }
}

/// Creates a queue of `num_elements` slots and returns its producer with a
/// first consumer.
pub fn message_queue<T: Clone>(num_elements: usize) -> (r: Result<
    (MessageQueueSender<T>, MessageQueueReader<T>),
    MessageQueueError,
>)
    ensures
        num_elements < 2 ==> (r matches Err(e) && e == MessageQueueError::UnvalidSize),
        num_elements >= 2 ==> match r {
            Ok((s, rd)) => s.capacity() == num_elements && rd.capacity() == num_elements
                && rd.queue() == s.queue(),
            Err(e) => e == MessageQueueError::MemoryAllocationFailed,
        },
{
    let mut sender = MessageQueueSender::new(num_elements)?;
    let reader = sender.new_reader();
    Ok((sender, reader))
}

} // verus!

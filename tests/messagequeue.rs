use msgkit::messagequeue::{
    backoff_micros, message_queue, MessageQueueError, MessageQueueInternal, MessageQueueReader,
    MessageQueueSender,
};

#[derive(Debug, PartialEq)]
struct TestStruct {
    a: usize,
    b: String,
    c: [usize; 2],
}

fn send_msg(tx: &mut MessageQueueSender<usize>, num: usize) {
    for i in 0..num {
        assert!(tx.send(i).is_ok());
    }
}

fn is_send<T: Send>() {}

#[test]
fn create() {
    assert_eq!(MessageQueueSender::<usize>::new(0).err(), Some(MessageQueueError::UnvalidSize));
    assert_eq!(MessageQueueSender::<usize>::new(1).err(), Some(MessageQueueError::UnvalidSize));
    // A queue for 10^12 messages cannot be allocated on any ordinary machine.
    assert_eq!(
        MessageQueueSender::<usize>::new(1000000000000).err(),
        Some(MessageQueueError::MemoryAllocationFailed)
    );

    assert!(MessageQueueSender::<&u8>::new(2048).is_ok());
    assert!(MessageQueueSender::<f64>::new(250000).is_ok());
    assert!(MessageQueueSender::<Vec<String>>::new(250000).is_ok());
    assert!(MessageQueueSender::<TestStruct>::new(250000).is_ok());
}

#[test]
fn create_reader() {
    let mut t = MessageQueueSender::<usize>::new(256).unwrap();
    let reader = t.new_reader();
    assert_eq!(reader.available(), 0);
    assert_eq!(reader.is_ready(), false);
}

#[test]
fn send_without_reader() {
    let (mut tx, _) = message_queue(256).unwrap();
    send_msg(&mut tx, 255);
    // One too much
    assert_eq!(tx.send(256).err(), Some(MessageQueueError::MessageQueueFull));
}

#[test]
fn send_with_reader() {
    let (mut tx, mut rx) = message_queue(256).unwrap();
    send_msg(&mut tx, 127);
    assert_eq!(rx.available(), 127);
    assert!(rx.is_ready());
    for c in 0..127 {
        assert_eq!(rx.is_ready(), true);
        assert_eq!(rx.read(), Some(c));
    }
    assert_eq!(rx.available(), 0);
    assert!(!rx.is_ready());

    send_msg(&mut tx, 255);
    // One too much
    assert_eq!(tx.send(256).err(), Some(MessageQueueError::MessageQueueFull));

    let mut c = 0;
    while rx.is_ready() {
        assert_eq!(rx.spin_read(), Some(c));
        c += 1;
    }
    assert_eq!(c, 255);
}

#[test]
fn send_struct() {
    let mut t = MessageQueueSender::<TestStruct>::new(256).unwrap();
    for i in 0..127 {
        t.send(TestStruct { a: i, b: "42".into(), c: [i, i + 1] }).unwrap();
    }
    let mut r = t.new_reader();
    for i in 0..127 {
        assert_eq!(r.read(), Some(TestStruct { a: i, b: "42".into(), c: [i, i + 1] }));
    }
}

#[test]
fn handles_can_cross_threads() {
    is_send::<MessageQueueSender<usize>>();
    is_send::<MessageQueueReader<String>>();
}

#[test]
fn ring_fifo_then_empty() {
    let mut q = MessageQueueInternal::<usize>::new(256).unwrap();
    for i in 0..127 {
        assert!(q.send(i).is_ok());
    }
    for i in 0..127 {
        assert_eq!(q.read(), Some(i));
    }
    assert_eq!(q.read(), None);
}

#[test]
fn ring_full_signal() {
    let mut q = MessageQueueInternal::<usize>::new(256).unwrap();
    for i in 0..255 {
        assert!(q.send(i).is_ok());
    }
    assert_eq!(q.send(255), Err(MessageQueueError::MessageQueueFull));
    assert_eq!(q.dist(), 255);
    // The refused message is not stored: the first one still comes out first.
    assert_eq!(q.read(), Some(0));
    assert!(q.send(255).is_ok());
}

#[test]
fn ring_available_counts_sends_minus_reads() {
    let mut q = MessageQueueInternal::<u32>::new(8).unwrap();
    for i in 0..5 {
        q.send(i).unwrap();
    }
    q.read().unwrap();
    q.read().unwrap();
    assert_eq!(q.dist(), 3);
    // Wrap around the end of the ring several times.
    for round in 0..20u32 {
        q.send(100 + round).unwrap();
        assert_eq!(q.dist(), 4);
        q.read().unwrap();
        assert_eq!(q.dist(), 3);
    }
    assert!(q.dist() <= q.num_slots() - 1);
}

#[test]
fn ring_fifo_across_wrap() {
    let mut q = MessageQueueInternal::<u32>::new(3).unwrap();
    let mut sent = Vec::new();
    let mut got = Vec::new();
    for i in 0..10u32 {
        if q.send(i).is_ok() {
            sent.push(i);
        }
        if i % 3 == 0 {
            if let Some(v) = q.read() {
                got.push(v);
            }
        }
    }
    while let Some(v) = q.read() {
        got.push(v);
    }
    assert_eq!(got, sent);
}

#[test]
fn ring_ready_then_read() {
    let mut q = MessageQueueInternal::<u8>::new(2).unwrap();
    assert!(!q.is_ready());
    assert_eq!(q.read(), None);
    q.send(7).unwrap();
    assert!(q.is_ready());
    assert_eq!(q.read(), Some(7));
    // Two slots hold a single message.
    q.send(1).unwrap();
    assert_eq!(q.send(2), Err(MessageQueueError::MessageQueueFull));
}

#[test]
fn capacity_below_two_is_refused() {
    assert_eq!(MessageQueueInternal::<u8>::new(0).err(), Some(MessageQueueError::UnvalidSize));
    assert_eq!(MessageQueueInternal::<u8>::new(1).err(), Some(MessageQueueError::UnvalidSize));
    assert_eq!(message_queue::<u8>(1).err(), Some(MessageQueueError::UnvalidSize));
    assert!(MessageQueueInternal::<u8>::new(2).is_ok());
}

#[test]
fn absurd_capacity_fails_cleanly() {
    assert_eq!(
        message_queue::<u64>(1000000000000).err(),
        Some(MessageQueueError::MemoryAllocationFailed)
    );
}

#[test]
fn clone_reader_shares_queue() {
    let (mut tx, rx) = message_queue::<u32>(4).unwrap();
    let mut other = rx.clone();
    tx.send(9).unwrap();
    assert_eq!(rx.available(), 1);
    assert_eq!(other.read(), Some(9));
    assert_eq!(rx.available(), 0);
}

#[test]
fn backoff_schedule() {
    assert_eq!(backoff_micros(0), 35);
    assert_eq!(backoff_micros(9), 35);
    assert_eq!(backoff_micros(10), 80);
    assert_eq!(backoff_micros(99), 80);
    assert_eq!(backoff_micros(100), 250);
    assert_eq!(backoff_micros(499), 250);
    assert_eq!(backoff_micros(500), 500);
    assert_eq!(backoff_micros(u64::MAX), 500);
}

#[test]
fn spin_read_on_empty_queue() {
    let (_tx, mut rx) = message_queue::<u32>(4).unwrap();
    assert_eq!(rx.spin_read(), None);
}

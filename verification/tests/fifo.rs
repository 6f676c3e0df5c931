use real_time::backoff::Backoff;
use real_time::fifo::{
    advance, elements_to_drop, fifo, has_elements, has_room, index, layout_fits, layout_for, size,
    wrapped, AtomicHead, Buffer, CachedTail, Consumer, Cursor, GetCursor, Head, Producer, Shared,
    Tail,
};
use std::marker::PhantomData;
use std::sync::atomic::{AtomicUsize, Ordering};
use std::sync::{Arc, Mutex};

fn get_buffer_size<T, const N: usize>(shared: &Shared<T, N>) -> usize {
    size(shared.get(), shared.get())
}

#[derive(Debug, Default, Clone)]
struct DropCounter(Arc<AtomicUsize>);

impl DropCounter {
    fn count(&self) -> usize {
        self.0.load(Ordering::Relaxed)
    }
}

impl Drop for DropCounter {
    fn drop(&mut self) {
        self.0.fetch_add(1, Ordering::Relaxed);
    }
}

fn head(pos: usize) -> Head {
    Cursor(pos, PhantomData)
}

fn tail(pos: usize) -> Tail {
    Cursor(pos, PhantomData)
}

#[test]
fn querying_size() {
    assert_eq!(size(head(0), tail(0)), 0);
    assert_eq!(size(head(0), tail(1)), 1);
    assert_eq!(size(head(0), tail(2)), 2);
    assert_eq!(size(head(0), tail(3)), 3);
    assert_eq!(size(head(1), tail(3)), 2);
    assert_eq!(size(head(2), tail(3)), 1);
    assert_eq!(size(head(3), tail(3)), 0);
}

#[test]
fn advancing_cursors() {
    let cursor = head(0);

    let cursor = advance(cursor);
    assert_eq!(cursor, head(1));

    let cursor = advance(cursor);
    assert_eq!(cursor, head(2));

    let cursor = advance(cursor);
    assert_eq!(cursor, head(3));

    let cursor = advance(cursor);
    assert_eq!(cursor, head(4));

    let cursor = advance(cursor);
    assert_eq!(cursor, head(5));
}

#[test]
fn cursor_to_index() {
    assert_eq!(index(head(0), 4), 0);
    assert_eq!(index(head(1), 4), 1);
    assert_eq!(index(head(2), 4), 2);
    assert_eq!(index(head(3), 4), 3);
    assert_eq!(index(head(4), 4), 0);
    assert_eq!(index(head(5), 4), 1);
    assert_eq!(index(head(6), 4), 2);
    assert_eq!(index(head(7), 4), 3);
    assert_eq!(index(head(8), 4), 0);
}

#[test]
fn using_a_fifo() {
    let (mut shared, tx, rx) = fifo::<i32, 3>();
    assert_eq!(get_buffer_size(&shared), 0);

    assert!(rx.pop(&mut shared).is_none());

    tx.push(&mut shared, 5).unwrap();

    assert_eq!(rx.pop(&mut shared), Some(5));

    tx.push(&mut shared, 1).unwrap();
    tx.push(&mut shared, 2).unwrap();
    tx.push(&mut shared, 3).unwrap();

    let push_result = tx.push(&mut shared, 4);
    assert_eq!(push_result, Err(4));

    assert_eq!(rx.pop(&mut shared), Some(1));

    let push_result = tx.push(&mut shared, 4);
    assert!(push_result.is_ok());

    let (mut shared, tx, mut rx) = fifo::<String, 2>();
    tx.push(&mut shared, "hello".to_string()).unwrap();

    let value_ref = rx.pop_ref(&mut shared);
    assert!(value_ref.is_some());
    assert_eq!(value_ref.unwrap().deref(&shared).as_str(), "hello");
}

#[test]
fn elements_are_dropped_when_overwritten() {
    let drop_counter = DropCounter::default();
    let (mut shared, tx, mut rx) = fifo::<_, 3>();

    tx.push(&mut shared, drop_counter.clone()).unwrap();
    tx.push(&mut shared, drop_counter.clone()).unwrap();
    tx.push(&mut shared, drop_counter.clone()).unwrap();
    assert_eq!(drop_counter.count(), 0);

    rx.pop_ref(&mut shared).unwrap().drop(&mut shared);
    assert_eq!(drop_counter.count(), 0);

    tx.push(&mut shared, drop_counter.clone()).unwrap();
    assert_eq!(drop_counter.count(), 0);

    rx.pop_ref(&mut shared).unwrap().drop(&mut shared);
    assert_eq!(drop_counter.count(), 0);

    tx.push(&mut shared, drop_counter.clone()).unwrap();
    assert_eq!(drop_counter.count(), 1);
}

#[test]
fn elements_are_dropped_when_buffer_is_dropped() {
    let drop_counter = DropCounter::default();
    let (mut shared, tx, mut rx) = fifo::<_, 3>();

    tx.push(&mut shared, drop_counter.clone()).unwrap();
    tx.push(&mut shared, drop_counter.clone()).unwrap();
    tx.push(&mut shared, drop_counter.clone()).unwrap();

    rx.pop_ref(&mut shared).unwrap().drop(&mut shared);
    assert_eq!(drop_counter.count(), 0);

    tx.push(&mut shared, drop_counter.clone()).unwrap();
    assert_eq!(drop_counter.count(), 0);

    drop((shared, tx, rx));

    assert_eq!(drop_counter.count(), 4);
}

fn assert_send<T: Send>(_: &T) {}

#[test]
fn fifo_handles_can_be_sent_to_another_thread() {
    let (shared, tx, rx): (_, Producer<i32, 8>, Consumer<i32, 8>) = fifo();
    assert_send(&shared);
    assert_send(&tx);
    assert_send(&rx);
}

#[test]
fn comparing_cursors_of_different_roles() {
    assert_eq!(head(3), tail(3));
    assert_ne!(head(3), tail(4));
    assert!(head(3) < tail(4));
    assert!(tail(4) > head(3));
    assert_eq!(head(3).partial_cmp(&tail(3)), Some(std::cmp::Ordering::Equal));
    assert_eq!(usize::from(Tail::from(7)), 7);
    assert_eq!(head(9).clone(), head(9));
}

#[test]
fn cursors_in_memory() {
    let mut atomic = AtomicHead::default();
    assert_eq!(atomic.load(), head(0));
    atomic.store(head(12));
    assert_eq!(atomic.load(), head(12));

    let mut cached = CachedTail::default();
    assert_eq!(cached.get(), tail(0));
    cached.set(tail(12));
    assert_eq!(cached.get(), tail(12));
}

#[test]
fn room_and_elements() {
    assert!(has_room::<3>(head(2), tail(4)));
    assert!(!has_room::<3>(head(2), tail(5)));
    assert!(!has_room::<0>(head(0), tail(0)));
    assert!(!has_elements(head(2), tail(2)));
    assert!(has_elements(head(2), tail(3)));
}

#[test]
fn going_round_the_ring() {
    assert!(!wrapped(tail(3), 4));
    assert!(wrapped(tail(4), 4));
    assert_eq!(elements_to_drop(tail(0), 4), 0);
    assert_eq!(elements_to_drop(tail(3), 4), 3);
    assert_eq!(elements_to_drop(tail(4), 4), 4);
    assert_eq!(elements_to_drop(tail(5), 4), 4);
}

#[test]
fn rings_have_a_power_of_two_of_slots() {
    assert_eq!(Buffer::<u8, 0>::size(), 1);
    assert_eq!(Buffer::<u8, 1>::size(), 1);
    assert_eq!(Buffer::<u8, 2>::size(), 2);
    assert_eq!(Buffer::<u8, 3>::size(), 4);
    assert_eq!(Buffer::<u8, 12>::size(), 16);
    assert_eq!(Buffer::<u8, 128>::size(), 128);
}

#[test]
fn slots_of_a_buffer() {
    let mut buffer = Buffer::<u32, 3>::new();
    assert_eq!(buffer.at(3), None);
    assert_eq!(buffer.index(tail(6)), 2);
    assert_eq!(buffer.replace(0, 6), None);
    assert_eq!(buffer.replace(1, 7), None);
    assert_eq!(buffer.get(head(6)), None);
    assert_eq!(buffer.replace(2, 8), None);
    assert_eq!(buffer.get(head(6)), Some(&8));
    assert_eq!(buffer.get(head(5)), Some(&7));
    assert_eq!(buffer.get(head(3)), None);
    assert_eq!(buffer.replace(1, 9), Some(7));
    assert_eq!(buffer.at(1), Some(&9));
    assert_eq!(buffer.at(2), Some(&8));
    buffer.clear();
    assert_eq!(buffer.at(0), None);
    assert_eq!(buffer.at(2), None);
    assert!(!buffer.has_wrapped(tail(3)));
    assert!(buffer.has_wrapped(tail(4)));
}

#[test]
fn laying_out_a_buffer() {
    assert_eq!(layout_for::<u32>(4), (16, 4));
    assert_eq!(layout_for::<u8>(3), (3, 1));
    assert!(layout_fits::<u8>(isize::MAX as usize));
    assert!(!layout_fits::<u8>(isize::MAX as usize + 1));
    assert!(!layout_fits::<u64>(usize::MAX));
}

#[test]
fn a_fifo_without_capacity_is_always_full() {
    let (mut shared, tx, rx) = fifo::<i32, 0>();
    assert_eq!(tx.push(&mut shared, 1), Err(1));
    assert_eq!(rx.pop(&mut shared), None);
}

#[test]
fn pushing_where_there_is_room_does_not_wait() {
    let (mut shared, tx, rx) = fifo::<i32, 2>();
    tx.push_blocking(&mut shared, 1);
    tx.push_blocking(&mut shared, 2);
    assert_eq!(rx.pop(&mut shared), Some(1));
    tx.push_blocking(&mut shared, 3);
    assert_eq!(rx.pop(&mut shared), Some(2));
    assert_eq!(rx.pop(&mut shared), Some(3));
    assert_eq!(rx.pop(&mut shared), None);
}

#[test]
fn values_come_out_in_order_over_many_rounds() {
    let (mut shared, tx, rx) = fifo::<usize, 12>();
    let mut last = 0;

    for value in 1..=100_000 {
        if value % 7 == 0 {
            while let Some(popped) = rx.pop(&mut shared) {
                assert_eq!(last + 1, popped, "values should be popped in order");
                last = popped;
            }
        }
        tx.push(&mut shared, value).unwrap();
    }

    while let Some(popped) = rx.pop(&mut shared) {
        assert_eq!(last + 1, popped);
        last = popped;
    }
    assert_eq!(last, 100_000);
}

#[test]
fn a_reference_stays_valid_while_the_producer_pushes() {
    let (mut shared, tx, mut rx) = fifo::<String, 2>();
    tx.push(&mut shared, "a".to_string()).unwrap();

    let popped = rx.pop_ref(&mut shared).unwrap();
    assert!(tx.push(&mut shared, "b".to_string()).is_ok());
    assert_eq!(tx.push(&mut shared, "c".to_string()), Err("c".to_string()));
    assert_eq!(popped.deref(&shared).as_str(), "a");

    popped.drop(&mut shared);
    assert!(tx.push(&mut shared, "c".to_string()).is_ok());
    assert_eq!(rx.pop_ref(&mut shared).unwrap().deref(&shared).as_str(), "b");
}

#[test]
fn a_value_can_be_popped_once_it_is_published() {
    let (mut shared, tx, rx) = fifo::<i32, 1>();

    let tail = tx.reserve(&mut shared).unwrap();
    assert_eq!(rx.pop(&mut shared), None);
    assert_eq!(tx.write(&mut shared, tail, 7), None);
    assert_eq!(rx.pop(&mut shared), None);
    tx.publish(&mut shared, tail);
    assert!(tx.reserve(&mut shared).is_none());
    assert_eq!(rx.pop(&mut shared), Some(7));

    let tail = tx.reserve(&mut shared).unwrap();
    assert_eq!(tx.write(&mut shared, tail, 8), Some(7));
    tx.publish(&mut shared, tail);
    assert_eq!(rx.pop(&mut shared), Some(8));
}

#[test]
fn emptying_the_memory_drops_every_element_once() {
    for pushes in 0..7 {
        let drop_counter = DropCounter::default();
        let (mut shared, tx, mut rx) = fifo::<_, 3>();

        for _ in 0..pushes {
            tx.push(&mut shared, drop_counter.clone()).unwrap();
            rx.pop_ref(&mut shared).unwrap().drop(&mut shared);
        }

        shared.drop();
        assert_eq!(drop_counter.count(), pushes);

        drop(shared);
        assert_eq!(drop_counter.count(), pushes);
    }
}

#[test]
fn pushing_into_a_full_fifo_waits_once_and_returns_the_value() {
    let (mut shared, tx, mut rx) = fifo::<String, 1>();
    let mut backoff = Backoff::default();

    assert_eq!(tx.push_or_wait(&mut shared, String::from("a"), &mut backoff), Ok(()));
    assert_eq!(
        tx.push_or_wait(&mut shared, String::from("b"), &mut backoff),
        Err(String::from("b"))
    );
    assert_eq!(
        tx.push_or_wait(&mut shared, String::from("b"), &mut backoff),
        Err(String::from("b"))
    );

    let popped = rx.pop_ref(&mut shared).unwrap();
    assert_eq!(popped.deref(&shared), "a");
    popped.drop(&mut shared);

    assert_eq!(tx.push_or_wait(&mut shared, String::from("b"), &mut backoff), Ok(()));
    let popped = rx.pop_ref(&mut shared).unwrap();
    assert_eq!(popped.deref(&shared), "b");
    popped.drop(&mut shared);
    assert!(rx.pop_ref(&mut shared).is_none());

    for _ in 0..8 {
        backoff.snooze();
        assert!(!backoff.is_completed());
    }
    backoff.snooze();
    assert!(backoff.is_completed());
}

#[test]
fn remaining_elements_are_dropped_in_the_order_of_their_slots() {
    struct Logged(usize, Arc<Mutex<Vec<usize>>>);

    impl Drop for Logged {
        fn drop(&mut self) {
            self.1.lock().unwrap().push(self.0);
        }
    }

    let log = Arc::new(Mutex::new(vec![]));
    let (mut shared, tx, mut rx) = fifo::<Logged, 4>();

    for i in 0..6 {
        assert!(tx.push(&mut shared, Logged(i, Arc::clone(&log))).is_ok());
        rx.pop_ref(&mut shared).unwrap().drop(&mut shared);
    }
    assert_eq!(*log.lock().unwrap(), [0, 1]);

    shared.drop();
    assert_eq!(*log.lock().unwrap(), [0, 1, 4, 5, 2, 3]);
}

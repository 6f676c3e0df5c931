use real_time::backoff::Backoff;
use real_time::reader::{realtime_reader, LockingWriter, RealtimeReader};
use std::sync::atomic::{AtomicUsize, Ordering};
use std::sync::Arc;

fn assert_send<T: Send>(_: &T) {}

struct DroppableValue(Arc<AtomicUsize>);

impl Drop for DroppableValue {
    fn drop(&mut self) {
        self.0.fetch_add(1, Ordering::SeqCst);
    }
}

#[test]
fn setting_and_getting_the_shared_value() {
    let (mut shared, writer, reader) = realtime_reader(0);

    assert_eq!(reader.get(&mut shared), 0);
    writer.set(&mut shared, 1);
    assert_eq!(reader.get(&mut shared), 1);
    writer.set(&mut shared, 2);
    assert_eq!(reader.get(&mut shared), 2);
}

#[test]
fn updating_the_value() {
    let (mut shared, writer, reader) = realtime_reader(0);

    writer.update(&mut shared, |value| value + 5);
    assert_eq!(reader.get(&mut shared), 5);
}

#[test]
fn swapping_the_value() {
    let a = Box::new(1);
    let a_addr = format!("{:p}", a);

    let (mut shared, writer, reader) = realtime_reader(0);

    let mut b = writer.swap(&mut shared, a);
    assert_eq!(reader.get(&mut shared), 1);
    *b = 2;

    let c = writer.swap(&mut shared, b);
    assert_eq!(reader.get(&mut shared), 2);
    assert_eq!(format!("{:p}", c), a_addr);
}

#[test]
fn reader_handles_can_be_sent_to_another_thread() {
    let (shared, writer, reader): (_, LockingWriter<i32>, RealtimeReader<i32>) = realtime_reader(0);
    assert_send(&shared);
    assert_send(&writer);
    assert_send(&reader);
}

#[test]
fn swap_returns_the_previous_value() {
    let (mut shared, writer, _reader) = realtime_reader(10);

    assert_eq!(*writer.swap(&mut shared, Box::new(20)), 10);
    assert_eq!(*writer.swap(&mut shared, Box::new(30)), 20);
    assert_eq!(*writer.swap(&mut shared, Box::new(40)), 30);
}

#[test]
fn a_value_is_not_exchanged_under_a_guard() {
    let (mut shared, writer, reader) = realtime_reader(1);

    let guard = reader.lock(&mut shared);
    let from = writer.current(&shared);
    let to = writer.prepare(&mut shared, Box::new(2));
    assert_ne!(from, to);

    assert!(!writer.try_exchange(&mut shared, from, to));
    assert_eq!(*guard.deref(&shared), 1);

    guard.drop(&mut shared);
    assert!(writer.try_exchange(&mut shared, from, to));

    let guard = reader.lock(&mut shared);
    assert_eq!(*guard.deref(&shared), 2);
    assert_eq!(*writer.finish(&mut shared, from, to), 1);
    assert_eq!(*guard.deref(&shared), 2);
    guard.drop(&mut shared);

    assert_eq!(reader.get(&mut shared), 2);
}

#[test]
fn replaced_values_are_dropped_by_the_writer() {
    let drops = Arc::new(AtomicUsize::new(0));
    let (mut shared, writer, reader) = realtime_reader(DroppableValue(Arc::clone(&drops)));

    writer.set(&mut shared, DroppableValue(Arc::clone(&drops)));
    assert_eq!(drops.load(Ordering::SeqCst), 1);

    let guard = reader.lock(&mut shared);
    guard.drop(&mut shared);
    assert_eq!(drops.load(Ordering::SeqCst), 1);

    drop(writer.swap(&mut shared, Box::new(DroppableValue(Arc::clone(&drops)))));
    assert_eq!(drops.load(Ordering::SeqCst), 2);

    drop(shared);
    assert_eq!(drops.load(Ordering::SeqCst), 3);
}

#[test]
fn emptying_the_memory_drops_the_value_once() {
    let drops = Arc::new(AtomicUsize::new(0));
    let (mut shared, writer, _reader) = realtime_reader(DroppableValue(Arc::clone(&drops)));
    writer.set(&mut shared, DroppableValue(Arc::clone(&drops)));

    shared.drop();
    assert_eq!(drops.load(Ordering::SeqCst), 2);

    drop(shared);
    assert_eq!(drops.load(Ordering::SeqCst), 2);
}

#[test]
fn the_primitives_are_at_the_root_of_the_crate() {
    let (mut shared, writer, reader) = real_time::readable(1);
    writer.set(&mut shared, 2);
    assert_eq!(reader.get(&mut shared), 2);

    let (mut shared, writer, reader) = real_time::writable(3);
    writer.set(&mut shared, 4);
    assert_eq!(reader.get(&mut shared), 4);

    let (mut shared, producer, consumer) = real_time::fifo::<u8, 16>();
    assert!(producer.push(&mut shared, 5).is_ok());
    assert_eq!(consumer.pop(&mut shared), Some(5));
}

#[test]
fn failing_to_exchange_a_value_waits_once() {
    let (mut shared, writer, reader) = realtime_reader(1);
    let mut backoff = Backoff::default();

    let guard = reader.lock(&mut shared);
    let from = writer.current(&shared);
    let to = writer.prepare(&mut shared, Box::new(2));
    assert!(!writer.exchange_or_wait(&mut shared, from, to, &mut backoff));
    assert!(!writer.exchange_or_wait(&mut shared, from, to, &mut backoff));
    assert!(!writer.exchange_or_wait(&mut shared, from, to, &mut backoff));
    assert_eq!(*guard.deref(&shared), 1);

    guard.drop(&mut shared);
    assert!(writer.exchange_or_wait(&mut shared, from, to, &mut backoff));
    assert_eq!(*writer.finish(&mut shared, from, to), 1);
    assert_eq!(reader.get(&mut shared), 2);

    for _ in 0..7 {
        backoff.snooze();
        assert!(!backoff.is_completed());
    }
    backoff.snooze();
    assert!(backoff.is_completed());
}

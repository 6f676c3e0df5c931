use real_time::backoff::Backoff;
use real_time::writer::{writable, ControlBit, ControlBits, LockingReader, RealtimeWriter};
use std::sync::atomic::{AtomicUsize, Ordering};
use std::sync::{Arc, Mutex};

fn assert_send<T: Send>(_: &T) {}

struct DroppableValue(Arc<AtomicUsize>);

impl DroppableValue {
    fn new(drop_count: &Arc<AtomicUsize>) -> Self {
        DroppableValue(Arc::clone(drop_count))
    }
}

impl Drop for DroppableValue {
    fn drop(&mut self) {
        self.0.fetch_add(1, Ordering::SeqCst);
    }
}

#[test]
fn determining_the_read_and_write_indexes() {
    let control = ControlBits(0b000);

    assert_eq!(control.write_slot_index(), 0);
    assert_eq!(control.read_slot_index(), 1);

    let control = control.flip(ControlBit::WriteSlotIndex);

    assert_eq!(control.write_slot_index(), 1);
    assert_eq!(control.read_slot_index(), 0);
}

#[test]
fn setting_bits_in_the_control() {
    let control = ControlBits(0b000);

    assert!(!control.is_set(ControlBit::WriteSlotIndex));
    assert!(!control.is_set(ControlBit::IsWriterBusy));
    assert!(!control.is_set(ControlBit::HasNewData));

    let control = control.set(ControlBit::IsWriterBusy);

    assert!(!control.is_set(ControlBit::WriteSlotIndex));
    assert!(control.is_set(ControlBit::IsWriterBusy));
    assert!(!control.is_set(ControlBit::HasNewData));

    let control = control
        .clear(ControlBit::IsWriterBusy)
        .set(ControlBit::HasNewData);

    assert!(!control.is_set(ControlBit::WriteSlotIndex));
    assert!(!control.is_set(ControlBit::IsWriterBusy));
    assert!(control.is_set(ControlBit::HasNewData));
}

#[test]
fn managing_the_control_bits() {
    let (mut shared, writer, reader) = writable(0);

    {
        let initial_control_bits = shared.control();
        assert!(!initial_control_bits.is_set(ControlBit::IsWriterBusy));
        assert!(!initial_control_bits.is_set(ControlBit::HasNewData));
        assert!(!initial_control_bits.is_set(ControlBit::IsSlot0Initialised));
        assert_eq!(initial_control_bits.write_slot_index(), 0);
        assert_eq!(initial_control_bits.read_slot_index(), 1);
    }

    writer.set(&mut shared, 1);

    {
        let control_bits_after_set = shared.control();
        assert!(!control_bits_after_set.is_set(ControlBit::IsWriterBusy));
        assert!(control_bits_after_set.is_set(ControlBit::HasNewData));
        assert!(control_bits_after_set.is_set(ControlBit::IsSlot0Initialised));
        assert_eq!(control_bits_after_set.write_slot_index(), 0);
        assert_eq!(control_bits_after_set.read_slot_index(), 1);
    }

    let _value = reader.get(&mut shared);

    {
        let control_bits_after_get = shared.control();
        assert!(!control_bits_after_get.is_set(ControlBit::IsWriterBusy));
        assert!(!control_bits_after_get.is_set(ControlBit::HasNewData));
        assert!(control_bits_after_get.is_set(ControlBit::IsSlot0Initialised));
        assert_eq!(control_bits_after_get.write_slot_index(), 1);
        assert_eq!(control_bits_after_get.read_slot_index(), 0);
    }

    writer.set(&mut shared, 2);

    {
        let control_bits_after_set = shared.control();
        assert!(!control_bits_after_set.is_set(ControlBit::IsWriterBusy));
        assert!(control_bits_after_set.is_set(ControlBit::HasNewData));
        assert!(control_bits_after_set.is_set(ControlBit::IsSlot0Initialised));
        assert_eq!(control_bits_after_set.write_slot_index(), 1);
        assert_eq!(control_bits_after_set.read_slot_index(), 0);
    }
}

#[test]
fn multiple_reads_before_new_writes_dont_read_old_data() {
    let (mut shared, writer, reader) = writable(0);

    assert_eq!(reader.get(&mut shared), 0);

    writer.set(&mut shared, 1);

    assert_eq!(reader.get(&mut shared), 1);
    assert_eq!(reader.get(&mut shared), 1);

    writer.set(&mut shared, 2);

    assert_eq!(reader.get(&mut shared), 2);
    assert_eq!(reader.get(&mut shared), 2);
}

#[test]
fn all_values_get_dropped() {
    for number_of_sets in 0..3 {
        {
            let drop_count = Arc::new(AtomicUsize::new(0));

            {
                let (mut shared, writer, _) = writable(DroppableValue::new(&drop_count));

                for _ in 0..number_of_sets {
                    writer.set(&mut shared, DroppableValue::new(&drop_count));
                }
            }

            let expected_drop_count = number_of_sets + 1;
            assert_eq!(drop_count.load(Ordering::SeqCst), expected_drop_count);
        }
    }
}

#[test]
fn emptying_the_memory_drops_every_value_once() {
    for number_of_sets in 0..3 {
        let drop_count = Arc::new(AtomicUsize::new(0));
        let (mut shared, writer, mut reader) = writable(DroppableValue::new(&drop_count));

        for _ in 0..number_of_sets {
            writer.set(&mut shared, DroppableValue::new(&drop_count));
            reader.get_ref(&mut shared);
        }

        shared.drop();
        assert_eq!(drop_count.load(Ordering::SeqCst), number_of_sets + 1);

        drop(shared);
        assert_eq!(drop_count.load(Ordering::SeqCst), number_of_sets + 1);
    }
}

#[test]
fn writer_handles_can_be_sent_to_another_thread() {
    let (shared, writer, reader): (_, RealtimeWriter<i32>, LockingReader<i32>) = writable(0);
    assert_send(&shared);
    assert_send(&writer);
    assert_send(&reader);
}

#[test]
fn getting_a_reference_to_the_latest_value() {
    let (mut shared, writer, mut reader) = writable(String::from("a"));

    assert_eq!(reader.get_ref(&mut shared), "a");
    writer.set(&mut shared, "b");
    writer.set(&mut shared, "c");
    assert_eq!(reader.get_ref(&mut shared), "c");
    assert_eq!(reader.get_ref(&mut shared), "c");
}

#[test]
fn slots_are_not_swapped_while_the_writer_is_busy() {
    let (mut shared, writer, reader) = writable(0);
    writer.set(&mut shared, 1);

    let found = writer.begin(&mut shared);
    assert_eq!(found, ControlBits(0b1100));

    let seen = shared.control();
    assert_eq!(seen, ControlBits(0b1110));
    assert_eq!(reader.try_swap(&mut shared, seen), Err(ControlBits(0b1110)));

    assert_eq!(writer.reclaim(&mut shared, found), Some(1));
    assert_eq!(*shared.get(0), None);
    assert_eq!(reader.try_swap(&mut shared, seen), Err(ControlBits(0b1110)));

    writer.write(&mut shared, found, 2);
    assert_eq!(reader.try_swap(&mut shared, seen), Err(ControlBits(0b1110)));

    writer.finish(&mut shared, found);
    assert_eq!(reader.try_swap(&mut shared, seen), Ok(0));
    assert_eq!(*shared.get(0), Some(2));
    assert_eq!(shared.control(), ControlBits(0b1001));
}

#[test]
fn reading_without_new_data_does_not_wait_for_the_writer() {
    let (mut shared, writer, reader) = writable(5);

    let found = writer.begin(&mut shared);
    assert_eq!(reader.get(&mut shared), 5);

    assert_eq!(writer.reclaim(&mut shared, found), None);
    assert_eq!(reader.get(&mut shared), 5);

    writer.complete(&mut shared, found, 6);
    assert_eq!(reader.get(&mut shared), 6);
}

#[test]
fn exchanging_the_control_byte() {
    assert_eq!(ControlBits(0b1110).swap(), (ControlBits(0b1100), ControlBits(0b1001)));
    assert_eq!(ControlBits(0b1101).swap(), (ControlBits(0b1101), ControlBits(0b1000)));
    assert_eq!(ControlBits(0b0000).publish(), ControlBits(0b1100));
    assert_eq!(ControlBits(0b1001).publish(), ControlBits(0b1101));
}

#[test]
fn converting_control_bits() {
    assert_eq!(u8::from(ControlBit::WriteSlotIndex), 0b001);
    assert_eq!(u8::from(ControlBit::IsWriterBusy), 0b010);
    assert_eq!(u8::from(ControlBit::HasNewData), 0b100);
    assert_eq!(u8::from(ControlBit::IsSlot0Initialised), 0b1000);
    assert_eq!(ControlBits::default(), ControlBits(0));
    assert_eq!(u8::from(ControlBits(0b1010)), 0b1010);
    assert_eq!(ControlBits::from(0b0110), ControlBits(0b0110));
}

#[test]
fn initialising_slots() {
    let control = ControlBits(0b000);
    assert!(!control.is_slot_initialised(0));
    assert!(control.is_slot_initialised(1));
    assert_eq!(control.set_slot_initialised(1), control);
    assert_eq!(control.set_slot_initialised(0), ControlBits(0b1000));
    assert!(control.set_slot_initialised(0).is_slot_initialised(0));
    assert_eq!(ControlBits(0b1011).bitwise_and(ControlBit::IsWriterBusy), ControlBits(0b0010));
}

#[test]
fn taking_over_new_data_after_the_control_byte_has_changed() {
    let (mut shared, writer, reader) = writable(0);

    writer.set(&mut shared, 1);
    let found = writer.begin(&mut shared);
    let seen = shared.control();
    assert_eq!(seen, ControlBits(0b1110));
    assert_eq!(writer.reclaim(&mut shared, found), Some(1));
    writer.complete(&mut shared, found, 2);
    assert_eq!(reader.take_over(&mut shared, seen), 0);
    assert_eq!(*shared.get(0), Some(2));

    writer.set(&mut shared, 3);
    assert_eq!(shared.control(), ControlBits(0b1101));
    assert_eq!(reader.take_over(&mut shared, seen), 1);
    assert_eq!(*shared.get(1), Some(3));
    assert_eq!(reader.get(&mut shared), 3);
}

struct Source(usize, Arc<Mutex<Vec<String>>>);

struct Converted(usize, Arc<Mutex<Vec<String>>>);

impl From<Source> for Converted {
    fn from(source: Source) -> Self {
        source.1.lock().unwrap().push(format!("convert {}", source.0));
        Converted(source.0, source.1)
    }
}

impl Drop for Converted {
    fn drop(&mut self) {
        self.1.lock().unwrap().push(format!("drop {}", self.0));
    }
}

#[test]
fn the_replaced_value_is_dropped_before_the_new_one_is_converted() {
    let log = Arc::new(Mutex::new(vec![]));
    let (mut shared, writer, mut reader) = writable(Converted(0, Arc::clone(&log)));

    writer.set(&mut shared, Source(1, Arc::clone(&log)));
    assert_eq!(*log.lock().unwrap(), ["convert 1"]);

    writer.set(&mut shared, Source(2, Arc::clone(&log)));
    assert_eq!(*log.lock().unwrap(), ["convert 1", "drop 1", "convert 2"]);

    assert_eq!(reader.get_ref(&mut shared).0, 2);
    writer.set(&mut shared, Source(3, Arc::clone(&log)));
    assert_eq!(
        *log.lock().unwrap(),
        ["convert 1", "drop 1", "convert 2", "drop 0", "convert 3"]
    );
}

/// How often a back-off can still wait before it is completed.
fn waits_left(mut backoff: Backoff) -> usize {
    let mut waits = 0;
    while !backoff.is_completed() {
        backoff.snooze();
        waits += 1;
    }
    waits
}

#[test]
fn failing_to_swap_the_slots_waits_once() {
    let (mut shared, writer, reader) = writable(0);
    let mut backoff = Backoff::default();

    writer.set(&mut shared, 1);
    let found = writer.begin(&mut shared);
    let seen = shared.control();

    assert_eq!(
        reader.swap_or_wait(&mut shared, seen, &mut backoff),
        Err(ControlBits(0b1110))
    );
    assert_eq!(
        reader.swap_or_wait(&mut shared, seen, &mut backoff),
        Err(ControlBits(0b1110))
    );
    assert_eq!(shared.control(), ControlBits(0b1110));

    assert_eq!(writer.reclaim(&mut shared, found), Some(1));
    writer.complete(&mut shared, found, 2);
    assert_eq!(reader.swap_or_wait(&mut shared, seen, &mut backoff), Ok(0));
    assert_eq!(waits_left(backoff), 9);
}

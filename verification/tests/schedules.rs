use real_time::backoff::Backoff;
use real_time::fifo::{self, fifo};
use real_time::reader::{self, realtime_reader};
use real_time::writer::{self, writable, ControlBit, ControlBits};

/// How many accesses are ordered in every possible way. Accesses after those are made in turn.
const ORDERED: u32 = 14;

/// Runs two threads in every order: `run` is given, for each of the first accesses, whether the
/// first thread makes it.
fn in_every_order(run: impl Fn(&dyn Fn(u32) -> bool)) {
    for order in 0u32..1 << ORDERED {
        run(&|access| {
            if access < ORDERED {
                order & (1 << access) != 0
            } else {
                access % 2 == 0
            }
        });
    }
}

#[derive(Copy, Clone)]
struct Big {
    count: i64,
    _padding: [u8; 64],
}

impl Big {
    fn new(count: i64) -> Self {
        Self {
            count,
            _padding: [0; 64],
        }
    }
}

impl Default for Big {
    fn default() -> Self {
        Self::new(0)
    }
}

enum Swapping {
    Idle,
    Prepared { from: usize, to: usize },
    Exchanged { from: usize, to: usize },
}

/// One access of a thread that sets a value.
fn swap_step(
    writer: &reader::LockingWriter<Big>,
    shared: &mut reader::Shared<Big>,
    phase: Swapping,
    values: &mut Vec<i64>,
) -> Swapping {
    match phase {
        Swapping::Idle => {
            if values.is_empty() {
                return Swapping::Idle;
            }
            let from = writer.current(shared);
            let to = writer.prepare(shared, Box::new(Big::new(values.remove(0))));
            Swapping::Prepared { from, to }
        }
        Swapping::Prepared { from, to } => {
            if writer.try_exchange(shared, from, to) {
                Swapping::Exchanged { from, to }
            } else {
                Swapping::Prepared { from, to }
            }
        }
        Swapping::Exchanged { from, to } => {
            let newest = shared.get(to).count;
            let previous = writer.finish(shared, from, to);
            assert!(previous.count <= newest);
            Swapping::Idle
        }
    }
}

#[test]
fn reading_on_real_time_thread() {
    const READS: usize = 3;
    const WRITES: usize = 3;

    in_every_order(|writer_is_next| {
        let (mut shared, writer, reader) = realtime_reader(Big::default());

        let mut to_write = (0..WRITES as i64).collect::<Vec<_>>();
        let mut swapping = Swapping::Idle;
        let mut guard = None;
        let mut reads = vec![];

        let mut access = 0;
        while reads.len() < READS {
            if writer_is_next(access) {
                swapping = swap_step(&writer, &mut shared, swapping, &mut to_write);
            } else {
                guard = match guard {
                    None => Some(reader.lock(&mut shared)),
                    Some(guard) => {
                        let guard: reader::RealtimeReadGuard<'_, Big> = guard;
                        reads.push(guard.deref(&shared).count);
                        guard.drop(&mut shared);
                        None
                    }
                };
            }
            access += 1;
        }

        assert!(reads.len() == READS);
        assert!(reads.iter().all(|&value| value >= 0));
        assert!(reads.iter().all(|&value| value <= WRITES as i64));
        assert!(reads.windows(2).all(|window| window[0] <= window[1]));
    });
}

enum Setting {
    Idle,
    Busy(ControlBits),
    Vacated(ControlBits),
    Written(ControlBits),
}

/// One access of a thread that sets a value.
fn set_step(
    writer: &writer::RealtimeWriter<Big>,
    shared: &mut writer::Shared<Big>,
    phase: Setting,
    values: &mut Vec<i64>,
    reclaimed: &mut Vec<i64>,
) -> Setting {
    match phase {
        Setting::Idle => {
            if values.is_empty() {
                Setting::Idle
            } else {
                Setting::Busy(writer.begin(shared))
            }
        }
        Setting::Busy(control) => {
            reclaimed.extend(writer.reclaim(shared, control).map(|value| value.count));
            Setting::Vacated(control)
        }
        Setting::Vacated(control) => {
            writer.write(shared, control, Big::new(values.remove(0)));
            Setting::Written(control)
        }
        Setting::Written(control) => {
            writer.finish(shared, control);
            Setting::Idle
        }
    }
}

enum Getting {
    Idle,
    Waiting(ControlBits),
    Reading(usize),
}

/// One access of a thread that gets a value.
fn get_step(
    reader: &writer::LockingReader<Big>,
    shared: &mut writer::Shared<Big>,
    phase: Getting,
    reads: &mut Vec<i64>,
) -> Getting {
    match phase {
        Getting::Idle => {
            let control = shared.control();
            if control.is_set(ControlBit::HasNewData) {
                Getting::Waiting(control)
            } else {
                Getting::Reading(control.read_slot_index())
            }
        }
        Getting::Waiting(control) => match reader.try_swap(shared, control) {
            Ok(slot) => Getting::Reading(slot),
            Err(actual) => Getting::Waiting(actual),
        },
        Getting::Reading(slot) => {
            reads.push(shared.get(slot).unwrap().count);
            Getting::Idle
        }
    }
}

#[test]
fn writing_on_real_time_thread() {
    const READS: usize = 3;
    const WRITES: usize = 3;

    in_every_order(|writer_is_next| {
        let (mut shared, writer, reader) = writable(Big::default());

        let mut to_write = (0..WRITES as i64).collect::<Vec<_>>();
        let mut setting = Setting::Idle;
        let mut reclaimed = vec![];
        let mut getting = Getting::Idle;
        let mut reads = vec![];

        let mut access = 0;
        while reads.len() < READS {
            if writer_is_next(access) {
                setting = set_step(&writer, &mut shared, setting, &mut to_write, &mut reclaimed);
            } else {
                getting = get_step(&reader, &mut shared, getting, &mut reads);
            }
            if let (
                Setting::Busy(control) | Setting::Vacated(control) | Setting::Written(control),
                Getting::Reading(slot),
            ) = (&setting, &getting)
            {
                assert_ne!(control.write_slot_index(), *slot);
            }
            access += 1;
        }

        assert!(reads.len() == READS);
        assert!(reads.iter().all(|&value| value >= 0));
        assert!(reads.iter().all(|&value| value <= WRITES as i64));
        assert!(reads.windows(2).all(|window| window[0] <= window[1]));
    });
}

enum Pushing {
    Idle,
    Reserved(fifo::Tail),
    Written(fifo::Tail),
}

#[test]
fn reading_from_a_fifo_on_real_time_thread() {
    const NUM_WRITES: usize = 4;

    in_every_order(|writer_is_next| {
        let (mut shared, writer, reader) = fifo::<_, NUM_WRITES>();

        let _ = writer.push(&mut shared, 0);

        let mut to_write = (1..NUM_WRITES).collect::<Vec<_>>();
        let mut pushing = Pushing::Idle;
        let mut popped = None;
        let mut pops = 0;
        let mut values = vec![];

        let mut access = 0;
        while pops < NUM_WRITES {
            if writer_is_next(access) {
                pushing = match pushing {
                    Pushing::Idle => match to_write.first() {
                        Some(_) => match writer.reserve(&mut shared) {
                            Some(tail) => Pushing::Reserved(tail),
                            None => {
                                to_write.remove(0);
                                Pushing::Idle
                            }
                        },
                        None => Pushing::Idle,
                    },
                    Pushing::Reserved(tail) => {
                        let reclaimed = writer.write(&mut shared, tail, to_write.remove(0));
                        assert_eq!(reclaimed, None);
                        Pushing::Written(tail)
                    }
                    Pushing::Written(tail) => {
                        writer.publish(&mut shared, tail);
                        Pushing::Idle
                    }
                };
            } else {
                popped = match popped {
                    None => {
                        let popped = reader.pop_head_impl(&mut shared);
                        if popped.is_none() {
                            pops += 1;
                        }
                        popped
                    }
                    Some(popped) => {
                        let popped: fifo::PopRef<'_, usize, NUM_WRITES> = popped;
                        values.push(*popped.deref(&shared));
                        popped.drop(&mut shared);
                        pops += 1;
                        None
                    }
                };
            }
            access += 1;
        }

        assert!(!values.is_empty());
        assert!(
            values.windows(2).all(|window| window[0] + 1 == window[1]),
            "{:?}",
            values
        );
    });
}

#[test]
fn only_released_elements_are_reclaimed() {
    const NUM_WRITES: usize = 8;

    in_every_order(|writer_is_next| {
        let (mut shared, writer, reader) = fifo::<usize, 2>();

        let mut next = 0;
        let mut pushing = Pushing::Idle;
        let mut popped = None;
        let mut values = vec![];

        let mut access = 0;
        while values.len() < NUM_WRITES {
            if writer_is_next(access) {
                pushing = match pushing {
                    Pushing::Idle => match writer.reserve(&mut shared) {
                        Some(tail) => Pushing::Reserved(tail),
                        None => Pushing::Idle,
                    },
                    Pushing::Reserved(tail) => {
                        let reclaimed = writer.write(&mut shared, tail, next);
                        if next < 2 {
                            assert_eq!(reclaimed, None);
                        } else {
                            assert_eq!(reclaimed, Some(next - 2));
                            assert_eq!(values[next - 2], next - 2);
                        }
                        next += 1;
                        Pushing::Written(tail)
                    }
                    Pushing::Written(tail) => {
                        writer.publish(&mut shared, tail);
                        Pushing::Idle
                    }
                };
            } else {
                popped = match popped {
                    None => reader.pop_head_impl(&mut shared),
                    Some(popped) => {
                        let popped: fifo::PopRef<'_, usize, 2> = popped;
                        values.push(*popped.deref(&shared));
                        popped.drop(&mut shared);
                        None
                    }
                };
            }
            access += 1;
        }

        assert_eq!(values, (0..NUM_WRITES).collect::<Vec<_>>());
    });
}

#[test]
fn a_read_that_begins_after_a_write_sees_it() {
    in_every_order(|writer_is_next| {
        let (mut shared, writer, reader) = writable(Big::default());

        let mut to_write = (1..=3).collect::<Vec<_>>();
        let mut setting = Setting::Idle;
        let mut reclaimed = vec![];
        let mut getting = Getting::Idle;
        let mut reads = vec![];
        let mut owed = 0;

        let mut access = 0;
        while reads.len() < 4 {
            if writer_is_next(access) {
                setting = set_step(&writer, &mut shared, setting, &mut to_write, &mut reclaimed);
            } else {
                if let Getting::Idle = getting {
                    let begun = 3 - to_write.len() as i64;
                    owed = match setting {
                        Setting::Written(_) => begun - 1,
                        _ => begun,
                    };
                }
                let before = reads.len();
                getting = get_step(&reader, &mut shared, getting, &mut reads);
                if reads.len() > before {
                    assert!(reads[before] >= owed);
                }
            }
            access += 1;
        }
    });
}

/// Says in an irregular way which of two threads makes its next access.
struct Scheduler(u64);

impl Scheduler {
    fn first_is_next(&mut self) -> bool {
        self.0 = self
            .0
            .wrapping_mul(6364136223846793005)
            .wrapping_add(1442695040888963407);
        self.0 >> 63 == 0
    }
}

#[test]
fn reading_and_writing_on_different_threads() {
    let (mut shared, writer, reader) = fifo::<_, 12>();
    let mut scheduler = Scheduler(1);

    const NUM_WRITES: usize = 1_000_000;

    let mut value = 1;
    let mut last = None;
    while last != Some(NUM_WRITES) {
        if scheduler.first_is_next() {
            if value <= NUM_WRITES && writer.push(&mut shared, value).is_ok() {
                value += 1;
            }
        } else if let Some(value) = reader.pop(&mut shared) {
            if let Some(last) = last {
                assert_eq!(last + 1, value, "values should be popped in order");
            }
            last = Some(value);
        }
    }
}

#[test]
fn reading_and_writing_simultaneously_from_different_threads() {
    let (mut shared, writer, reader) = realtime_reader(0);
    let mut scheduler = Scheduler(2);

    const NUM_WRITER_THREADS: usize = 10;
    const WRITES_PER_THREAD: usize = 100;

    // The writer threads take turns at the writer. Each turn is one update, which is a single call
    // where no guard is in its way, and otherwise goes on, access by access, until it is done.
    let mut writes_left = [WRITES_PER_THREAD; NUM_WRITER_THREADS];
    let mut turn = 0;
    let mut updating = Swapping::Idle;
    let mut backoff = Backoff::default();
    let mut guard = None;
    let mut waited = 0;

    let mut last_value = 0;
    while !(writes_left.iter().all(|&left| left == 0)
        && matches!(updating, Swapping::Idle)
        && guard.is_none())
    {
        if scheduler.first_is_next() {
            updating = match updating {
                Swapping::Idle => {
                    turn = (turn + 1) % NUM_WRITER_THREADS;
                    if writes_left[turn] == 0 {
                        Swapping::Idle
                    } else if guard.is_none() && scheduler.first_is_next() {
                        writes_left[turn] -= 1;
                        writer.update(&mut shared, |value| value + 1);
                        Swapping::Idle
                    } else {
                        writes_left[turn] -= 1;
                        let from = writer.current(&shared);
                        let updated = *shared.get(from) + 1;
                        let to = writer.prepare(&mut shared, Box::new(updated));
                        Swapping::Prepared { from, to }
                    }
                }
                Swapping::Prepared { from, to } => {
                    if writer.exchange_or_wait(&mut shared, from, to, &mut backoff) {
                        Swapping::Exchanged { from, to }
                    } else {
                        waited += 1;
                        Swapping::Prepared { from, to }
                    }
                }
                Swapping::Exchanged { from, to } => {
                    let previous = writer.finish(&mut shared, from, to);
                    assert_eq!(*previous + 1, *shared.get(to));
                    Swapping::Idle
                }
            };
        } else {
            guard = match guard {
                None => Some(reader.lock(&mut shared)),
                Some(guard) => {
                    let guard: reader::RealtimeReadGuard<'_, usize> = guard;
                    let value = *guard.deref(&shared);
                    assert!(value >= last_value);
                    assert!(value <= NUM_WRITER_THREADS * WRITES_PER_THREAD);
                    last_value = value;
                    guard.drop(&mut shared);
                    None
                }
            };
        }
    }

    assert!(waited > 0);
    assert_eq!(
        reader.get(&mut shared),
        NUM_WRITER_THREADS * WRITES_PER_THREAD
    );
}

#[test]
fn reading_and_writing_simultaneously() {
    let (mut shared, writer, reader) = writable(Big::new(0));
    let mut scheduler = Scheduler(3);

    let mut to_write = (0..=1000).collect::<Vec<_>>();
    let mut setting = Setting::Idle;
    let mut reclaimed = vec![];
    let mut getting = Getting::Idle;
    let mut reads = vec![];

    while reads.last() != Some(&1000) {
        if scheduler.first_is_next() {
            setting = set_step(&writer, &mut shared, setting, &mut to_write, &mut reclaimed);
        } else {
            getting = get_step(&reader, &mut shared, getting, &mut reads);
        }
    }

    assert!(reads.iter().all(|&value| value <= 1000));
    assert!(reads.iter().all(|&value| value >= 0));
    assert!(reads.windows(2).all(|window| window[0] <= window[1]));
}

#[test]
fn every_value_is_reclaimed_once_or_still_in_a_slot() {
    in_every_order(|writer_is_next| {
        let (mut shared, writer, reader) = writable(Big::default());

        let mut to_write = (1..=3).collect::<Vec<_>>();
        let mut setting = Setting::Idle;
        let mut getting = Getting::Idle;
        let mut reclaimed = vec![];
        let mut reads = vec![];

        for access in 0..20 {
            if writer_is_next(access) {
                setting = set_step(
                    &writer,
                    &mut shared,
                    setting,
                    &mut to_write,
                    &mut reclaimed,
                );
            } else {
                getting = get_step(&reader, &mut shared, getting, &mut reads);
            }

            let mut found = reclaimed.clone();
            found.extend(shared.get(0).map(|value| value.count));
            found.extend(shared.get(1).map(|value| value.count));
            found.sort();
            assert_eq!(found, (0..=3 - to_write.len() as i64).collect::<Vec<_>>());
        }
    });
}

#[test]
fn a_blocking_push_goes_on_until_there_is_room() {
    const NUM_WRITES: usize = 6;

    in_every_order(|writer_is_next| {
        let (mut shared, writer, reader) = fifo::<usize, 1>();
        let mut backoff = Backoff::default();

        let mut value = 0;
        let mut values = vec![];

        let mut access = 0;
        while values.len() < NUM_WRITES {
            if writer_is_next(access) {
                let is_full = value > values.len();
                match writer.push_or_wait(&mut shared, value, &mut backoff) {
                    Ok(()) => {
                        assert!(!is_full);
                        value += 1;
                    }
                    Err(returned) => {
                        assert!(is_full);
                        assert_eq!(returned, value);
                    }
                }
            } else {
                values.extend(reader.pop(&mut shared));
            }
            access += 1;
        }

        assert_eq!(values, (0..NUM_WRITES).collect::<Vec<_>>());
    });
}

#[test]
fn a_disturbed_swap_offers_its_value_once_and_returns_the_previous() {
    in_every_order(|writer_is_next| {
        let (mut shared, writer, reader) = realtime_reader(0);

        let mut next = 1;
        let mut swapping = Swapping::Idle;
        let mut guard = None;
        let mut returned = vec![];

        let mut access = 0;
        while returned.len() < 4 {
            if writer_is_next(access) {
                swapping = match swapping {
                    Swapping::Idle => {
                        let from = writer.current(&shared);
                        let to = writer.prepare(&mut shared, Box::new(next));
                        next += 1;
                        Swapping::Prepared { from, to }
                    }
                    Swapping::Prepared { from, to } => {
                        let is_free = guard.is_none();
                        assert_eq!(*shared.get(from), next - 2);
                        assert_eq!(*shared.get(to), next - 1);
                        assert_eq!(writer.try_exchange(&mut shared, from, to), is_free);
                        if is_free {
                            Swapping::Exchanged { from, to }
                        } else {
                            Swapping::Prepared { from, to }
                        }
                    }
                    Swapping::Exchanged { from, to } => {
                        returned.push(*writer.finish(&mut shared, from, to));
                        Swapping::Idle
                    }
                };
            } else {
                guard = match guard {
                    None => {
                        let guard = reader.lock(&mut shared);
                        let offered = match swapping {
                            Swapping::Prepared { .. } => next - 2,
                            _ => next - 1,
                        };
                        assert_eq!(*guard.deref(&shared), offered);
                        Some(guard)
                    }
                    Some(guard) => {
                        let guard: reader::RealtimeReadGuard<'_, i64> = guard;
                        guard.drop(&mut shared);
                        None
                    }
                };
            }
            access += 1;
        }

        assert_eq!(returned, [0, 1, 2, 3]);
    });
}

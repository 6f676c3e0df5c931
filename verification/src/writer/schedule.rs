//! What holds of a writable value in whatever order the writer's and the reader's accesses take
//! effect.

use crate::writer::control::{lemma_without, lemma_without_unset, ControlBit, ControlBits};
use crate::writer::state::{
    lemma_begun, lemma_begun_wf, lemma_finished_wf, lemma_new_wf, lemma_published, lemma_swapped,
    lemma_updated_wf, lemma_vacated_wf, lemma_written_wf, WritableState,
};
use vstd::multiset::Multiset;
use vstd::prelude::*;

verus! {

/// Where the writer is between two of its accesses.
pub enum WriterPhase {
    /// Between two writes.
    Idle,
    /// It has said that it is busy, and found this control byte.
    Busy(ControlBits),
    /// It has taken out the value that was in its slot.
    Vacated(ControlBits),
    /// It has written a value that it has not told the reader about yet.
    Written(ControlBits),
}

/// Where the reader is between two of its accesses.
pub enum ReaderPhase {
    /// Between two reads.
    Idle,
    /// It has found this control byte, by which there is new data that it has to take over.
    Waiting(ControlBits),
    /// It has a reference to the value in this slot.
    Reading(int),
}

/// A writable value together with the two threads that use it.
///
/// `history` is every value that has been in a slot, the one that the writable value was made
/// with first; `versions` gives, for each slot, the place in `history` of the value in it.
/// `published` is the place of the last value that the reader has been told about. `reads` is the
/// place of each value that has been read, and `owed` is a lower bound on the next. `reclaimed` is
/// every value that the writer has taken out of a slot again.
pub struct WritableSystem<T> {
    pub memory: WritableState<T>,
    pub writer: WriterPhase,
    pub reader: ReaderPhase,
    pub history: Seq<T>,
    pub versions: Seq<int>,
    pub published: int,
    pub owed: int,
    pub reads: Seq<int>,
    pub reclaimed: Seq<T>,
}

/// The values in a slot: one or none.
pub open spec fn held<T>(slot: Option<T>) -> Multiset<T> {
    match slot {
        Some(value) => Multiset::singleton(value),
        None => Multiset::empty(),
    }
}

/// An access by one of the threads.
///
/// The reader need not see the control byte as it is, but sees it as it has been at some time
/// since the reader last changed it. So it sees the slots as they are, and no new data but that
/// which there is.
pub enum WritableStep<T> {
    /// The writer says that it is busy.
    Begin,
    /// The writer takes out the value that is in its slot, if there is one.
    Reclaim,
    /// The writer writes a value.
    Write { value: T },
    /// The writer says that there is new data.
    Finish,
    /// The reader looks at the control byte, and sees it like this.
    Load { seen: ControlBits },
    /// The reader swaps the slots.
    Swap,
    /// The reader fails to swap the slots, and sees the control byte like this.
    Retry { seen: ControlBits },
    /// The reader gives up its reference.
    Release,
}

impl<T> WritableSystem<T> {
    /// A new writable value, which neither thread has used yet.
    pub open spec fn new(value: T) -> Self {
        WritableSystem {
            memory: WritableState::new(value),
            writer: WriterPhase::Idle,
            reader: ReaderPhase::Idle,
            history: seq![value],
            versions: seq![0, 0],
            published: 0,
            owed: 0,
            reads: Seq::empty(),
            reclaimed: Seq::empty(),
        }
    }

    /// Whether the reader can see the control byte like this.
    pub open spec fn visible(self, seen: ControlBits) -> bool {
        &&& seen.write_slot() == self.memory.control.write_slot()
        &&& seen.has(ControlBit::HasNewData) ==> self.memory.has_new_data()
    }

    /// Whether a thread can make an access next.
    pub open spec fn enabled(self, step: WritableStep<T>) -> bool {
        match step {
            WritableStep::Begin => self.writer is Idle,
            WritableStep::Reclaim => self.writer is Busy,
            WritableStep::Write { value } => self.writer is Vacated,
            WritableStep::Finish => self.writer is Written,
            WritableStep::Load { seen } => self.reader is Idle && self.visible(seen),
            WritableStep::Swap => {
                &&& self.reader is Waiting
                &&& self.memory.control == self.reader->Waiting_0.without(ControlBit::IsWriterBusy)
            },
            WritableStep::Retry { seen } => {
                &&& self.reader is Waiting
                &&& self.visible(seen)
                &&& seen.has(ControlBit::HasNewData)
            },
            WritableStep::Release => self.reader is Reading,
        }
    }

    /// The system after an access.
    pub open spec fn after(self, step: WritableStep<T>) -> Self {
        match step {
            WritableStep::Begin => WritableSystem {
                memory: self.memory.begun(),
                writer: WriterPhase::Busy(self.memory.control),
                ..self
            },
            WritableStep::Reclaim => {
                let control = self.writer->Busy_0;
                WritableSystem {
                    memory: self.memory.vacated(control.write_slot()),
                    writer: WriterPhase::Vacated(control),
                    reclaimed: match self.memory.values[control.write_slot()] {
                        Some(value) => self.reclaimed.push(value),
                        None => self.reclaimed,
                    },
                    ..self
                }
            },
            WritableStep::Write { value } => {
                let control = self.writer->Vacated_0;
                WritableSystem {
                    memory: self.memory.written(control.write_slot(), value),
                    writer: WriterPhase::Written(control),
                    history: self.history.push(value),
                    versions: self.versions.update(control.write_slot(), self.history.len() as int),
                    ..self
                }
            },
            WritableStep::Finish => WritableSystem {
                memory: self.memory.finished(self.writer->Written_0),
                writer: WriterPhase::Idle,
                published: self.history.len() - 1,
                ..self
            },
            WritableStep::Load { seen } => WritableSystem {
                reader: if seen.has(ControlBit::HasNewData) {
                    ReaderPhase::Waiting(seen)
                } else {
                    ReaderPhase::Reading(seen.read_slot())
                },
                owed: if seen.has(ControlBit::HasNewData) == self.memory.has_new_data() {
                    self.published
                } else {
                    self.owed
                },
                ..self
            },
            WritableStep::Swap => WritableSystem {
                memory: self.memory.swapped(),
                reader: ReaderPhase::Reading(self.memory.control.write_slot()),
                ..self
            },
            WritableStep::Retry { seen } => WritableSystem {
                reader: ReaderPhase::Waiting(seen),
                ..self
            },
            WritableStep::Release => {
                let read = self.versions[self.reader->Reading_0];
                WritableSystem {
                    reader: ReaderPhase::Idle,
                    owed: read,
                    reads: self.reads.push(read),
                    ..self
                }
            },
        }
    }

    /// The system after a number of accesses, the first of them first.
    pub open spec fn after_all(self, steps: Seq<WritableStep<T>>) -> Self
        decreases steps.len(),
    {
        if steps.len() == 0 {
            self
        } else {
            self.after_all(steps.drop_last()).after(steps.last())
        }
    }

    /// Whether the threads can make these accesses in this order.
    pub open spec fn schedulable(self, steps: Seq<WritableStep<T>>) -> bool
        decreases steps.len(),
    {
        steps.len() > 0 ==> {
            &&& self.schedulable(steps.drop_last())
            &&& self.after_all(steps.drop_last()).enabled(steps.last())
        }
    }

    /// The place in `history` of the value in the writer's slot.
    pub open spec fn write_version(self) -> int {
        self.versions[self.memory.control.write_slot()]
    }

    /// The place in `history` of the value in the reader's slot.
    pub open spec fn read_version(self) -> int {
        self.versions[self.memory.control.read_slot()]
    }

    /// The control byte that the writer found when it began, or the one that it would find.
    pub open spec fn found(self) -> ControlBits {
        match self.writer {
            WriterPhase::Idle => self.memory.control,
            WriterPhase::Busy(control) => control,
            WriterPhase::Vacated(control) => control,
            WriterPhase::Written(control) => control,
        }
    }

    /// Every value in either slot.
    pub open spec fn in_slots(self) -> Multiset<T> {
        held(self.memory.values[0]).add(held(self.memory.values[1]))
    }

    /// What every access of the writer and the reader keeps of the writer's phase.
    pub open spec fn writer_inv(self) -> bool {
        match self.writer {
            WriterPhase::Idle => {
                &&& !self.memory.busy()
                &&& self.memory.settled()
                &&& self.published == self.history.len() - 1
                &&& self.memory.has_new_data() ==> self.write_version() == self.published
            },
            WriterPhase::Busy(control) => {
                &&& self.memory.control == control.with(ControlBit::IsWriterBusy)
                &&& !control.has(ControlBit::IsWriterBusy)
                &&& self.published == self.history.len() - 1
                &&& self.memory.has_new_data() ==> self.write_version() == self.published
                &&& self.memory.accurate()
            },
            WriterPhase::Vacated(control) => {
                &&& self.memory.control == control.with(ControlBit::IsWriterBusy)
                &&& !control.has(ControlBit::IsWriterBusy)
                &&& self.published == self.history.len() - 1
                &&& self.memory.values[control.write_slot()] is None
            },
            WriterPhase::Written(control) => {
                &&& self.memory.control == control.with(ControlBit::IsWriterBusy)
                &&& !control.has(ControlBit::IsWriterBusy)
                &&& self.published == self.history.len() - 2
                &&& self.memory.values[control.write_slot()] is Some
                &&& self.write_version() == self.history.len() - 1
            },
        }
    }

    /// What every access of the writer and the reader keeps of the reader's phase.
    pub open spec fn reader_inv(self) -> bool {
        match self.reader {
            ReaderPhase::Idle => self.owed <= self.read_version(),
            ReaderPhase::Waiting(seen) => {
                &&& seen.has(ControlBit::HasNewData)
                &&& self.memory.has_new_data()
                &&& seen.write_slot() == self.memory.control.write_slot()
            },
            ReaderPhase::Reading(slot) => {
                &&& slot == self.memory.control.read_slot()
                &&& self.owed <= self.read_version()
            },
        }
    }

    /// What every access keeps.
    pub open spec fn inv(self) -> bool {
        &&& self.memory.wf()
        &&& self.versions.len() == 2
        &&& forall|i: int|
            #![trigger self.memory.values[i]]
            0 <= i < 2 && self.memory.values[i] is Some ==> {
                &&& 0 <= self.versions[i] < self.history.len()
                &&& self.memory.values[i] == Some(self.history[self.versions[i]])
            }
        &&& if self.memory.has_new_data() {
            self.read_version() < self.published
        } else {
            self.read_version() == self.published
        }
        &&& self.writer_inv()
        &&& self.reader_inv()
        &&& 0 <= self.owed <= self.published
        &&& forall|i: int, j: int|
            0 <= i <= j < self.reads.len() ==> 0 <= #[trigger] self.reads[i]
                <= #[trigger] self.reads[j]
        &&& self.reads.len() > 0 ==> self.reads.last() <= self.owed
        &&& self.reads.len() > 0 ==> self.reads.last() <= self.read_version()
        &&& self.history.to_multiset() == self.reclaimed.to_multiset().add(self.in_slots())
    }
}

/// The memory says that the writer is busy exactly if it is writing, and the slots are as the
/// writer found them.
proof fn lemma_found<T>(s: WritableSystem<T>)
    requires
        s.writer_inv(),
    ensures
        s.memory.busy() == (s.writer !is Idle),
        s.memory.control.write_slot() == s.found().write_slot(),
{
    lemma_begun(s.found());
}

/// Every access keeps the invariant.
proof fn lemma_step<T>(s: WritableSystem<T>, step: WritableStep<T>)
    requires
        s.inv(),
        s.enabled(step),
    ensures
        s.after(step).inv(),
{
    let t = s.after(step);
    match step {
        WritableStep::Begin => {
            lemma_begun(s.memory.control);
            lemma_begun_wf(s.memory);
            assert(t.memory.values == s.memory.values);
        },
        WritableStep::Reclaim => {
            let control = s.writer->Busy_0;
            lemma_begun(control);
            lemma_vacated_wf(s.memory);
            s.reclaimed.to_multiset_ensures();
            assert(t.history.to_multiset() =~= t.reclaimed.to_multiset().add(t.in_slots()));
        },
        WritableStep::Write { value } => {
            let control = s.writer->Vacated_0;
            lemma_begun(control);
            lemma_written_wf(s.memory, value);
            s.history.to_multiset_ensures();
            assert(t.history.to_multiset() =~= t.reclaimed.to_multiset().add(t.in_slots()));
        },
        WritableStep::Finish => {
            let control = s.writer->Written_0;
            lemma_begun(control);
            lemma_published(control);
            lemma_finished_wf(s.memory, control);
            assert(t.memory.values == s.memory.values);
        },
        WritableStep::Load { seen } => {},
        WritableStep::Swap => {
            let seen = s.reader->Waiting_0;
            lemma_without(seen, ControlBit::IsWriterBusy);
            lemma_found(s);
            lemma_swapped(s.memory.control);
            lemma_updated_wf(s.memory);
            assert(t.memory.values == s.memory.values);
        },
        WritableStep::Retry { seen } => {},
        WritableStep::Release => {},
    }
}

/// The invariant holds after every schedule.
pub proof fn lemma_schedule<T>(value: T, steps: Seq<WritableStep<T>>)
    requires
        WritableSystem::new(value).schedulable(steps),
    ensures
        WritableSystem::new(value).after_all(steps).inv(),
    decreases steps.len(),
{
    let start = WritableSystem::new(value);
    if steps.len() == 0 {
        lemma_new_wf(value);
        Seq::<T>::empty().to_multiset_ensures();
        assert(start.history =~= Seq::<T>::empty().push(value));
        assert(start.history.to_multiset() =~= start.reclaimed.to_multiset().add(
            start.in_slots(),
        ));
    } else {
        lemma_schedule(value, steps.drop_last());
        lemma_step(start.after_all(steps.drop_last()), steps.last());
    }
}

/// Whenever a thread can make an access, the memory is as that access needs it, whatever the
/// other thread has done in between: in particular, no access of the reader's gets in between the
/// control byte that the writer found and the one that it leaves.
pub proof fn law_next_access_is_safe<T>(
    value: T,
    steps: Seq<WritableStep<T>>,
    next: WritableStep<T>,
)
    requires
        WritableSystem::new(value).schedulable(steps),
        WritableSystem::new(value).after_all(steps).enabled(next),
    ensures
        ({
            let s = WritableSystem::new(value).after_all(steps);
            &&& s.memory.wf()
            &&& next is Begin ==> s.memory.settled()
            &&& next is Reclaim ==> {
                &&& s.memory.control == s.writer->Busy_0.with(ControlBit::IsWriterBusy)
                &&& s.memory.accurate()
            }
            &&& next is Write ==> {
                let control = s.writer->Vacated_0;
                &&& s.memory.control == control.with(ControlBit::IsWriterBusy)
                &&& s.memory.values[control.write_slot()] is None
            }
            &&& next is Finish ==> {
                let control = s.writer->Written_0;
                &&& s.memory.control == control.with(ControlBit::IsWriterBusy)
                &&& !control.has(ControlBit::IsWriterBusy)
                &&& s.memory.values[control.write_slot()] is Some
            }
            &&& next is Swap ==> s.writer is Idle && s.memory.has_new_data()
            &&& next is Release ==> s.memory.values[s.reader->Reading_0] is Some
        }),
{
    lemma_schedule(value, steps);
    let s = WritableSystem::new(value).after_all(steps);
    if next is Swap {
        lemma_without(s.reader->Waiting_0, ControlBit::IsWriterBusy);
        lemma_found(s);
    }
}

/// The slot that the writer is writing to is never the slot that the reader has a reference to.
pub proof fn law_threads_use_different_slots<T>(value: T, steps: Seq<WritableStep<T>>)
    requires
        WritableSystem::new(value).schedulable(steps),
    ensures
        ({
            let s = WritableSystem::new(value).after_all(steps);
            s.reader is Reading ==> s.found().write_slot() != s.reader->Reading_0
        }),
{
    lemma_schedule(value, steps);
    lemma_found(WritableSystem::new(value).after_all(steps));
}

/// A reference that the reader has is to a whole value that it has been told about, and nothing
/// that the writer does next changes that.
pub proof fn law_reference_stays_valid<T>(
    value: T,
    steps: Seq<WritableStep<T>>,
    next: WritableStep<T>,
)
    requires
        WritableSystem::new(value).schedulable(steps),
        WritableSystem::new(value).after_all(steps).reader is Reading,
        WritableSystem::new(value).after_all(steps).enabled(next),
        next is Begin || next is Reclaim || next is Write || next is Finish,
    ensures
        ({
            let s = WritableSystem::new(value).after_all(steps);
            let t = s.after(next);
            let slot = s.reader->Reading_0;
            &&& 0 <= s.versions[slot] <= s.published
            &&& s.memory.values[slot] == Some(s.history[s.versions[slot]])
            &&& t.reader == s.reader
            &&& t.memory.values[slot] == s.memory.values[slot]
        }),
{
    lemma_schedule(value, steps);
    lemma_found(WritableSystem::new(value).after_all(steps));
}

/// What is read never goes back: a later read gives the same value as an earlier one, or a value
/// that was set later. Every value that is read has been set.
pub proof fn law_reads_never_go_back<T>(value: T, steps: Seq<WritableStep<T>>)
    requires
        WritableSystem::new(value).schedulable(steps),
    ensures
        ({
            let s = WritableSystem::new(value).after_all(steps);
            &&& forall|i: int, j: int|
                0 <= i <= j < s.reads.len() ==> #[trigger] s.reads[i] <= #[trigger] s.reads[j]
            &&& forall|i: int|
                0 <= i < s.reads.len() ==> 0 <= #[trigger] s.reads[i] <= s.published
                    < s.history.len()
        }),
{
    lemma_schedule(value, steps);
}

/// What the reader owes stays what it was when the read began, until the read is over.
proof fn lemma_owed_during_read<T>(s: WritableSystem<T>, steps: Seq<WritableStep<T>>)
    requires
        s.reader !is Idle,
        s.schedulable(steps),
        forall|i: int| 0 <= i < steps.len() ==> #[trigger] steps[i] !is Load,
    ensures
        s.after_all(steps).reader !is Idle ==> s.after_all(steps).owed == s.owed,
    decreases steps.len(),
{
    if steps.len() > 0 {
        assert forall|i: int|
            0 <= i < steps.drop_last().len() implies #[trigger] steps.drop_last()[i] !is Load by {
            assert(steps.drop_last()[i] == steps[i]);
        }
        lemma_owed_during_read(s, steps.drop_last());
        assert(steps.last() == steps[steps.len() - 1]);
    }
}

/// The invariant holds after accesses that follow a schedule.
proof fn lemma_continue<T>(s: WritableSystem<T>, steps: Seq<WritableStep<T>>)
    requires
        s.inv(),
        s.schedulable(steps),
    ensures
        s.after_all(steps).inv(),
    decreases steps.len(),
{
    if steps.len() > 0 {
        lemma_continue(s, steps.drop_last());
        lemma_step(s.after_all(steps.drop_last()), steps.last());
    }
}

/// A read that begins by seeing the control byte as it is gives the last value that the reader
/// had been told about by then, or one that was set later, whatever happens during the read.
pub proof fn law_reads_are_fresh<T>(
    value: T,
    before: Seq<WritableStep<T>>,
    during: Seq<WritableStep<T>>,
)
    requires
        ({
            let s = WritableSystem::new(value).after_all(before);
            let load = WritableStep::Load { seen: s.memory.control };
            &&& WritableSystem::new(value).schedulable(before)
            &&& s.enabled(load)
            &&& s.after(load).schedulable(during)
            &&& forall|i: int| 0 <= i < during.len() ==> #[trigger] during[i] !is Load
        }),
    ensures
        ({
            let s = WritableSystem::new(value).after_all(before);
            let load = WritableStep::Load { seen: s.memory.control };
            let t = s.after(load).after_all(during);
            t.reader is Reading ==> s.published <= t.versions[t.reader->Reading_0]
        }),
{
    lemma_schedule(value, before);
    let s = WritableSystem::new(value).after_all(before);
    let load = WritableStep::Load { seen: s.memory.control };
    lemma_step(s, load);
    lemma_continue(s.after(load), during);
    lemma_owed_during_read(s.after(load), during);
}

/// Between two writes, the latest value in memory is the one that was set last.
pub proof fn law_latest_is_last_set<T>(value: T, steps: Seq<WritableStep<T>>)
    requires
        WritableSystem::new(value).schedulable(steps),
        WritableSystem::new(value).after_all(steps).writer is Idle,
    ensures
        WritableSystem::new(value).after_all(steps).memory.latest() == WritableSystem::new(
            value,
        ).after_all(steps).history.last(),
{
    lemma_schedule(value, steps);
    let s = WritableSystem::new(value).after_all(steps);
    assert(s.memory.values[s.memory.control.write_slot()] is Some || !s.memory.has_new_data());
    assert(s.memory.values[s.memory.control.read_slot()] is Some);
}

/// Between two writes, a slot holds a value exactly if the control byte says so: those values are
/// what is dropped with the memory.
pub proof fn law_initialised_slots_hold_values<T>(
    value: T,
    steps: Seq<WritableStep<T>>,
    slot: int,
)
    requires
        WritableSystem::new(value).schedulable(steps),
        WritableSystem::new(value).after_all(steps).writer is Idle,
        0 <= slot < 2,
    ensures
        ({
            let s = WritableSystem::new(value).after_all(steps);
            s.memory.values[slot] is Some <==> s.memory.control.initialised(slot)
        }),
{
    lemma_schedule(value, steps);
}

/// Every value that has been in a slot is in a slot still, or has been taken out of it again, and
/// that once: none is lost, and none is dropped twice.
pub proof fn law_every_value_is_reclaimed_once<T>(value: T, steps: Seq<WritableStep<T>>)
    requires
        WritableSystem::new(value).schedulable(steps),
    ensures
        ({
            let s = WritableSystem::new(value).after_all(steps);
            s.history.to_multiset() == s.reclaimed.to_multiset().add(held(s.memory.values[0])).add(
                held(s.memory.values[1]),
            )
        }),
{
    lemma_schedule(value, steps);
    let s = WritableSystem::new(value).after_all(steps);
    assert(s.reclaimed.to_multiset().add(s.in_slots()) =~= s.reclaimed.to_multiset().add(
        held(s.memory.values[0]),
    ).add(held(s.memory.values[1])));
}

/// The writer never waits: whatever the reader is doing, the writer can make its next access.
pub proof fn law_writer_never_waits<T>(s: WritableSystem<T>, value: T)
    ensures
        s.enabled(WritableStep::Begin) || s.enabled(WritableStep::Reclaim) || s.enabled(
            WritableStep::Write { value },
        ) || s.enabled(WritableStep::Finish),
{
}

/// Failing to swap the slots, however often, changes nothing but what the reader has seen, and
/// there stays new data to take over.
pub proof fn law_retrying_changes_nothing<T>(
    value: T,
    steps: Seq<WritableStep<T>>,
    seen: ControlBits,
)
    requires
        WritableSystem::new(value).schedulable(steps),
        WritableSystem::new(value).after_all(steps).enabled(WritableStep::Retry { seen }),
    ensures
        ({
            let s = WritableSystem::new(value).after_all(steps);
            let t = s.after(WritableStep::Retry { seen });
            &&& t == (WritableSystem { reader: ReaderPhase::Waiting(seen), ..s })
            &&& t.memory.has_new_data()
        }),
{
    lemma_schedule(value, steps);
}

/// The reader waits for nothing but the writer: if the writer is between two writes, then a
/// reader that has seen the control byte as it is can swap the slots.
pub proof fn law_reader_waits_only_while_busy<T>(value: T, steps: Seq<WritableStep<T>>)
    requires
        WritableSystem::new(value).schedulable(steps),
        ({
            let s = WritableSystem::new(value).after_all(steps);
            &&& s.writer is Idle
            &&& s.reader is Waiting
        }),
    ensures
        ({
            let s = WritableSystem::new(value).after_all(steps);
            let retry = WritableStep::Retry { seen: s.memory.control };
            &&& s.enabled(retry)
            &&& s.after(retry).enabled(WritableStep::Swap)
        }),
{
    lemma_schedule(value, steps);
    let s = WritableSystem::new(value).after_all(steps);
    lemma_without_unset(s.memory.control, ControlBit::IsWriterBusy);
}

/// A whole write, undisturbed, is four accesses in a row. It takes out the value that was in the
/// writer's slot before it writes the new one.
pub proof fn law_set_is_a_schedule<T>(s: WritableSystem<T>, value: T)
    requires
        s.inv(),
        s.writer is Idle,
    ensures
        ({
            let steps = seq![
                WritableStep::Begin,
                WritableStep::Reclaim,
                WritableStep::Write { value },
                WritableStep::Finish,
            ];
            &&& s.schedulable(steps)
            &&& s.after_all(steps).memory == s.memory.set(value)
            &&& s.after_all(steps).history == s.history.push(value)
            &&& s.after_all(steps).published == s.history.len()
            &&& s.after_all(steps).reclaimed
                == match s.memory.values[s.memory.control.write_slot()] {
                Some(previous) => s.reclaimed.push(previous),
                None => s.reclaimed,
            }
        }),
{
    let a: WritableStep<T> = WritableStep::Begin;
    let b: WritableStep<T> = WritableStep::Reclaim;
    let c: WritableStep<T> = WritableStep::Write { value };
    let d: WritableStep<T> = WritableStep::Finish;
    assert(seq![a, b, c, d].drop_last() =~= seq![a, b, c]);
    assert(seq![a, b, c].drop_last() =~= seq![a, b]);
    assert(seq![a, b].drop_last() =~= seq![a]);
    assert(seq![a].drop_last() =~= Seq::<WritableStep<T>>::empty());
    reveal_with_fuel(WritableSystem::after_all, 5);
    reveal_with_fuel(WritableSystem::schedulable, 5);
}

/// A whole read, undisturbed, is two accesses in a row if there is no new data, and three if
/// there is. It gives the value that was set last.
pub proof fn law_get_is_a_schedule<T>(s: WritableSystem<T>)
    requires
        s.inv(),
        s.writer is Idle,
        s.reader is Idle,
    ensures
        ({
            let load = WritableStep::<T>::Load { seen: s.memory.control };
            let steps = if s.memory.has_new_data() {
                seq![load, WritableStep::Swap, WritableStep::Release]
            } else {
                seq![load, WritableStep::Release]
            };
            &&& s.schedulable(steps)
            &&& s.after_all(steps).memory == s.memory.updated()
            &&& s.after_all(steps).reads == s.reads.push(s.history.len() - 1)
        }),
{
    let a: WritableStep<T> = WritableStep::Load { seen: s.memory.control };
    let b: WritableStep<T> = WritableStep::Swap;
    let c: WritableStep<T> = WritableStep::Release;
    assert(seq![a, b, c].drop_last() =~= seq![a, b]);
    assert(seq![a, c].drop_last() =~= seq![a]);
    assert(seq![a, b].drop_last() =~= seq![a]);
    assert(seq![a].drop_last() =~= Seq::<WritableStep<T>>::empty());
    reveal_with_fuel(WritableSystem::after_all, 4);
    reveal_with_fuel(WritableSystem::schedulable, 4);
    lemma_without_unset(s.memory.control, ControlBit::IsWriterBusy);
}

} // verus!

//! What holds of a readable value in whatever order the writer's and the reader's accesses take
//! effect.

use crate::reader::state::{ReadableState, NULL};
use vstd::prelude::*;

verus! {

/// Where the writer is between two of its accesses.
pub enum WriterPhase {
    /// Between two writes.
    Idle,
    /// It has put a value in the box at `to`, to be offered in place of the one at `from`.
    Prepared { from: usize, to: usize },
    /// It has offered the reader the box at `to` in place of the one at `from`.
    Exchanged { from: usize, to: usize },
}

/// Where the reader is between two of its accesses.
pub enum ReaderPhase {
    /// It has no guard.
    Idle,
    /// It has a guard on the box at this address.
    Holding(usize),
}

/// A readable value together with the two threads that use it.
///
/// `history` is every value that the reader has been offered, the one that the readable value was
/// made with first. `reads` is the place in `history` of each value that the reader has had a
/// guard on. `returned` is every value that the writer has taken back.
pub struct ReadableSystem<T> {
    pub memory: ReadableState<T>,
    pub writer: WriterPhase,
    pub reader: ReaderPhase,
    pub history: Seq<T>,
    pub reads: Seq<int>,
    pub returned: Seq<T>,
}

/// An access by one of the threads.
pub enum ReadableStep<T> {
    /// The writer puts a value in a box of its own.
    Prepare { value: Box<T> },
    /// The writer offers the reader that box in place of the old one.
    Exchange,
    /// The writer fails to do so.
    Retry,
    /// The writer takes the old box back.
    Finish,
    /// The reader takes the address that it is offered.
    Lock,
    /// The reader gives it back.
    Unlock,
}

impl<T> ReadableSystem<T> {
    /// A new readable value, which neither thread has used yet.
    pub open spec fn new(value: T) -> Self {
        ReadableSystem {
            memory: ReadableState::new(value),
            writer: WriterPhase::Idle,
            reader: ReaderPhase::Idle,
            history: seq![value],
            reads: Seq::empty(),
            returned: Seq::empty(),
        }
    }

    /// Whether a thread can make an access next.
    pub open spec fn enabled(self, step: ReadableStep<T>) -> bool {
        match step {
            ReadableStep::Prepare { value } => self.writer is Idle,
            ReadableStep::Exchange => {
                &&& self.writer is Prepared
                &&& self.memory.live == self.writer->Prepared_from
            },
            ReadableStep::Retry => self.writer is Prepared,
            ReadableStep::Finish => self.writer is Exchanged,
            ReadableStep::Lock => self.reader is Idle && !self.memory.locked(),
            ReadableStep::Unlock => self.reader is Holding,
        }
    }

    /// The system after an access.
    pub open spec fn after(self, step: ReadableStep<T>) -> Self {
        match step {
            ReadableStep::Prepare { value } => ReadableSystem {
                memory: self.memory.prepared(value),
                writer: WriterPhase::Prepared {
                    from: self.memory.storage,
                    to: self.memory.spare(),
                },
                ..self
            },
            ReadableStep::Exchange => {
                let to = self.writer->Prepared_to;
                ReadableSystem {
                    memory: self.memory.exchanged(to),
                    writer: WriterPhase::Exchanged { from: self.writer->Prepared_from, to },
                    history: self.history.push(*self.memory.at(to)->0),
                    ..self
                }
            },
            ReadableStep::Retry => self,
            ReadableStep::Finish => {
                let from = self.writer->Exchanged_from;
                ReadableSystem {
                    memory: self.memory.finished(from, self.writer->Exchanged_to),
                    writer: WriterPhase::Idle,
                    returned: self.returned.push(*self.memory.at(from)->0),
                    ..self
                }
            },
            ReadableStep::Lock => ReadableSystem {
                memory: self.memory.taken(),
                reader: ReaderPhase::Holding(self.memory.live),
                reads: self.reads.push(self.history.len() - 1),
                ..self
            },
            ReadableStep::Unlock => ReadableSystem {
                memory: self.memory.given_back(self.reader->Holding_0),
                reader: ReaderPhase::Idle,
                ..self
            },
        }
    }

    /// The system after a number of accesses, the first of them first.
    pub open spec fn after_all(self, steps: Seq<ReadableStep<T>>) -> Self
        decreases steps.len(),
    {
        if steps.len() == 0 {
            self
        } else {
            self.after_all(steps.drop_last()).after(steps.last())
        }
    }

    /// Whether the threads can make these accesses in this order.
    pub open spec fn schedulable(self, steps: Seq<ReadableStep<T>>) -> bool
        decreases steps.len(),
    {
        steps.len() > 0 ==> {
            &&& self.schedulable(steps.drop_last())
            &&& self.after_all(steps.drop_last()).enabled(steps.last())
        }
    }

    /// The address that the reader has a guard on, or else that it is offered.
    pub open spec fn readable(self) -> usize {
        match self.reader {
            ReaderPhase::Idle => self.memory.live,
            ReaderPhase::Holding(address) => address,
        }
    }

    /// What every access keeps: the writer's box and the reader's are where the phases say, the
    /// reader's holds the last value that it has been offered, and every value that it has been
    /// offered is either the writer's or has been taken back.
    pub open spec fn inv(self) -> bool {
        &&& self.memory.wf()
        &&& self.reader is Holding ==> self.memory.locked()
        &&& self.reader is Idle ==> !self.memory.locked()
        &&& self.history.len() > 0
        &&& forall|i: int, j: int|
            0 <= i <= j < self.reads.len() ==> 0 <= #[trigger] self.reads[i]
                <= #[trigger] self.reads[j]
        &&& forall|i: int|
            0 <= i < self.reads.len() ==> #[trigger] self.reads[i] < self.history.len()
        &&& match self.writer {
            WriterPhase::Idle => {
                &&& self.memory.at(self.memory.spare()) is None
                &&& self.readable() == self.memory.storage
                &&& self.memory.value() == self.history.last()
                &&& self.returned == self.history.drop_last()
            },
            WriterPhase::Prepared { from, to } => {
                &&& from == self.memory.storage
                &&& to == self.memory.spare()
                &&& self.memory.at(to) is Some
                &&& self.readable() == from
                &&& self.memory.value() == self.history.last()
                &&& self.returned == self.history.drop_last()
            },
            WriterPhase::Exchanged { from, to } => {
                &&& from == self.memory.storage
                &&& to == self.memory.spare()
                &&& self.memory.at(to) is Some
                &&& self.readable() == to
                &&& *self.memory.at(to)->0 == self.history.last()
                &&& self.returned.push(self.memory.value()) == self.history.drop_last()
            },
        }
    }
}

/// Every access keeps the invariant.
proof fn lemma_step<T>(s: ReadableSystem<T>, step: ReadableStep<T>)
    requires
        s.inv(),
        s.enabled(step),
    ensures
        s.after(step).inv(),
{
    let t = s.after(step);
    match step {
        ReadableStep::Exchange => {
            assert(t.history.drop_last() =~= s.history);
            assert(s.returned.push(s.memory.value()) =~= s.history);
        },
        _ => {},
    }
}

/// The invariant holds after every schedule.
pub proof fn lemma_schedule<T>(value: T, steps: Seq<ReadableStep<T>>)
    requires
        ReadableSystem::new(value).schedulable(steps),
    ensures
        ReadableSystem::new(value).after_all(steps).inv(),
    decreases steps.len(),
{
    let start = ReadableSystem::new(value);
    if steps.len() == 0 {
        assert(start.returned =~= start.history.drop_last());
    } else {
        lemma_schedule(value, steps.drop_last());
        lemma_step(start.after_all(steps.drop_last()), steps.last());
    }
}

/// Whenever a thread can make an access, the memory is as that access needs it, whatever the
/// other thread has done in between.
pub proof fn law_next_access_is_safe<T>(
    value: T,
    steps: Seq<ReadableStep<T>>,
    next: ReadableStep<T>,
)
    requires
        ReadableSystem::new(value).schedulable(steps),
        ReadableSystem::new(value).after_all(steps).enabled(next),
    ensures
        ({
            let s = ReadableSystem::new(value).after_all(steps);
            &&& s.memory.wf()
            &&& next is Prepare ==> s.memory.settled()
            &&& next is Exchange ==> {
                let to = s.writer->Prepared_to;
                &&& 1 <= to <= 2
                &&& s.memory.at(to) is Some
            }
            &&& next is Finish ==> {
                let from = s.writer->Exchanged_from;
                let to = s.writer->Exchanged_to;
                &&& from == s.memory.storage
                &&& to == s.memory.spare()
                &&& s.memory.at(to) is Some
                &&& s.memory.live != from
            }
            &&& next is Unlock ==> {
                let address = s.reader->Holding_0;
                &&& s.memory.locked()
                &&& address == 1 || address == 2
                &&& s.memory.at(address) is Some
            }
        }),
{
    lemma_schedule(value, steps);
}

/// The reader never waits: whatever the writer is doing, a reader that has no guard is offered a
/// box, and can take it.
pub proof fn law_reader_never_waits<T>(value: T, steps: Seq<ReadableStep<T>>)
    requires
        ReadableSystem::new(value).schedulable(steps),
        ReadableSystem::new(value).after_all(steps).reader is Idle,
    ensures
        ReadableSystem::new(value).after_all(steps).memory.live != NULL,
        ReadableSystem::new(value).after_all(steps).enabled(ReadableStep::Lock),
{
    lemma_schedule(value, steps);
}

/// A guard is on the last value that the reader has been offered.
pub proof fn law_guard_has_the_latest<T>(value: T, steps: Seq<ReadableStep<T>>)
    requires
        ReadableSystem::new(value).schedulable(steps),
        ReadableSystem::new(value).after_all(steps).reader is Holding,
    ensures
        ({
            let s = ReadableSystem::new(value).after_all(steps);
            let address = s.reader->Holding_0;
            &&& address == 1 || address == 2
            &&& s.memory.at(address) == Some(Box::new(s.history.last()))
        }),
{
    lemma_schedule(value, steps);
}

/// While the reader has a guard, nothing that the writer does next changes the box that it is on,
/// takes it away, or offers the reader another.
pub proof fn law_guard_stays_valid<T>(value: T, steps: Seq<ReadableStep<T>>, next: ReadableStep<T>)
    requires
        ReadableSystem::new(value).schedulable(steps),
        ReadableSystem::new(value).after_all(steps).reader is Holding,
        ReadableSystem::new(value).after_all(steps).enabled(next),
        next is Prepare || next is Exchange || next is Retry || next is Finish,
    ensures
        ({
            let s = ReadableSystem::new(value).after_all(steps);
            let t = s.after(next);
            let address = s.reader->Holding_0;
            &&& next !is Exchange
            &&& t.reader == s.reader
            &&& t.history == s.history
            &&& t.memory.live == NULL
            &&& t.memory.at(address) == s.memory.at(address)
        }),
{
    lemma_schedule(value, steps);
}

/// A box that the writer takes back is one that the reader has no guard on and is not offered,
/// and it holds the value that was replaced.
pub proof fn law_box_is_returned_unused<T>(value: T, steps: Seq<ReadableStep<T>>)
    requires
        ReadableSystem::new(value).schedulable(steps),
        ReadableSystem::new(value).after_all(steps).writer is Exchanged,
    ensures
        ({
            let s = ReadableSystem::new(value).after_all(steps);
            let from = s.writer->Exchanged_from;
            &&& s.memory.live != from
            &&& s.reader is Holding ==> s.reader->Holding_0 != from
            &&& s.history.len() >= 2
            &&& s.memory.at(from) == Some(Box::new(s.history[s.history.len() - 2]))
        }),
{
    lemma_schedule(value, steps);
    let s = ReadableSystem::new(value).after_all(steps);
    assert(s.returned.push(s.memory.value()).last() == s.history.drop_last().last());
}

/// What is read never goes back: a later guard is on the same value as an earlier one, or on a
/// value that was offered later. Every value that is read has been offered.
pub proof fn law_reads_never_go_back<T>(value: T, steps: Seq<ReadableStep<T>>)
    requires
        ReadableSystem::new(value).schedulable(steps),
    ensures
        ({
            let s = ReadableSystem::new(value).after_all(steps);
            &&& forall|i: int, j: int|
                0 <= i <= j < s.reads.len() ==> #[trigger] s.reads[i] <= #[trigger] s.reads[j]
            &&& forall|i: int|
                0 <= i < s.reads.len() ==> 0 <= #[trigger] s.reads[i] < s.history.len()
        }),
{
    lemma_schedule(value, steps);
}

/// Between two writes, every value but the last has been taken back, once and in order, and the
/// last one is in the only box that there is: that one is what is dropped with the memory.
pub proof fn law_every_box_is_returned<T>(value: T, steps: Seq<ReadableStep<T>>)
    requires
        ReadableSystem::new(value).schedulable(steps),
        ReadableSystem::new(value).after_all(steps).writer is Idle,
    ensures
        ({
            let s = ReadableSystem::new(value).after_all(steps);
            &&& s.returned == s.history.drop_last()
            &&& s.memory.at(s.memory.storage) == Some(Box::new(s.history.last()))
            &&& s.memory.at(s.memory.spare()) is None
        }),
{
    lemma_schedule(value, steps);
}

/// The writer waits for nothing but a guard: if the reader has none, a writer that has a value to
/// offer can offer it.
pub proof fn law_writer_waits_only_for_a_guard<T>(value: T, steps: Seq<ReadableStep<T>>)
    requires
        ReadableSystem::new(value).schedulable(steps),
        ReadableSystem::new(value).after_all(steps).writer is Prepared,
    ensures
        ({
            let s = ReadableSystem::new(value).after_all(steps);
            s.reader is Idle <==> s.enabled(ReadableStep::Exchange)
        }),
{
    lemma_schedule(value, steps);
}

/// Attempts of the writer that fail, and whatever the reader does, leave the boxes and the writer
/// as they are, and the reader is offered nothing new.
proof fn lemma_reader_continues<T>(s: ReadableSystem<T>, steps: Seq<ReadableStep<T>>)
    requires
        s.inv(),
        s.schedulable(steps),
        forall|i: int|
            0 <= i < steps.len() ==> #[trigger] steps[i] is Retry || steps[i] is Lock
                || steps[i] is Unlock,
    ensures
        s.after_all(steps).inv(),
        s.after_all(steps).writer == s.writer,
        s.after_all(steps).memory.boxes == s.memory.boxes,
        s.after_all(steps).memory.storage == s.memory.storage,
        s.after_all(steps).history == s.history,
        s.after_all(steps).returned == s.returned,
    decreases steps.len(),
{
    if steps.len() > 0 {
        assert forall|i: int|
            0 <= i < steps.drop_last().len() implies #[trigger] steps.drop_last()[i] is Retry
                || steps.drop_last()[i] is Lock || steps.drop_last()[i] is Unlock by {
            assert(steps.drop_last()[i] == steps[i]);
        }
        lemma_reader_continues(s, steps.drop_last());
        assert(steps.last() == steps[steps.len() - 1]);
        lemma_step(s.after_all(steps.drop_last()), steps.last());
    }
}

/// A swap goes on, whatever the reader does and however often an attempt fails, with the value
/// that it was given and with the value that is replaced, and the reader is offered nothing else
/// meanwhile. What it is offered in the end is the value given, once.
pub proof fn law_swap_offers_its_value<T>(
    value: T,
    before: Seq<ReadableStep<T>>,
    given: Box<T>,
    during: Seq<ReadableStep<T>>,
)
    requires
        ({
            let s = ReadableSystem::new(value).after_all(before);
            &&& ReadableSystem::new(value).schedulable(before)
            &&& s.writer is Idle
            &&& s.after(ReadableStep::Prepare { value: given }).schedulable(during)
            &&& forall|i: int|
                0 <= i < during.len() ==> #[trigger] during[i] is Retry || during[i] is Lock
                    || during[i] is Unlock
        }),
    ensures
        ({
            let s = ReadableSystem::new(value).after_all(before);
            let t = s.after(ReadableStep::Prepare { value: given }).after_all(during);
            let from = s.memory.storage;
            let to = s.memory.spare();
            &&& t.writer == (WriterPhase::Prepared { from, to })
            &&& t.memory.at(to) == Some(given)
            &&& t.memory.at(from) == Some(Box::new(s.memory.value()))
            &&& t.history == s.history
            &&& t.returned == s.returned
            &&& t.enabled(ReadableStep::Exchange) ==> {
                let u = t.after(ReadableStep::Exchange);
                &&& u.writer == (WriterPhase::Exchanged { from, to })
                &&& u.history == s.history.push(*given)
                &&& u.returned == s.returned
                &&& u.after(ReadableStep::Finish).history == s.history.push(*given)
                &&& u.after(ReadableStep::Finish).returned == s.returned.push(s.memory.value())
                &&& u.after(ReadableStep::Finish).memory.value() == *given
            }
        }),
{
    lemma_schedule(value, before);
    let s = ReadableSystem::new(value).after_all(before);
    let p = s.after(ReadableStep::Prepare { value: given });
    lemma_step(s, ReadableStep::Prepare { value: given });
    lemma_reader_continues(p, during);
}

/// A swap that has offered its value returns the value that it replaced, whatever the reader does
/// until then.
pub proof fn law_swap_returns_the_previous<T>(
    value: T,
    before: Seq<ReadableStep<T>>,
    during: Seq<ReadableStep<T>>,
)
    requires
        ({
            let s = ReadableSystem::new(value).after_all(before);
            &&& ReadableSystem::new(value).schedulable(before)
            &&& s.enabled(ReadableStep::Exchange)
            &&& s.after(ReadableStep::Exchange).schedulable(during)
            &&& forall|i: int|
                0 <= i < during.len() ==> #[trigger] during[i] is Lock || during[i] is Unlock
        }),
    ensures
        ({
            let s = ReadableSystem::new(value).after_all(before);
            let t = s.after(ReadableStep::Exchange).after_all(during);
            let u = t.after(ReadableStep::Finish);
            &&& t.enabled(ReadableStep::Finish)
            &&& t.history == s.after(ReadableStep::Exchange).history
            &&& u.history == t.history
            &&& u.returned == s.returned.push(s.memory.value())
            &&& u.memory.value() == u.history.last()
            &&& u.writer is Idle
        }),
{
    lemma_schedule(value, before);
    let s = ReadableSystem::new(value).after_all(before);
    lemma_step(s, ReadableStep::Exchange);
    lemma_reader_continues(s.after(ReadableStep::Exchange), during);
    lemma_step(s.after(ReadableStep::Exchange).after_all(during), ReadableStep::Finish);
}

/// A whole swap, undisturbed, is three accesses in a row.
pub proof fn law_swap_is_a_schedule<T>(s: ReadableSystem<T>, value: Box<T>)
    requires
        s.inv(),
        s.writer is Idle,
        s.reader is Idle,
    ensures
        ({
            let steps = seq![
                ReadableStep::Prepare { value },
                ReadableStep::Exchange,
                ReadableStep::Finish,
            ];
            &&& s.schedulable(steps)
            &&& s.after_all(steps).memory == s.memory.swapped(value)
            &&& s.after_all(steps).history == s.history.push(*value)
            &&& s.after_all(steps).returned == s.returned.push(s.memory.value())
        }),
{
    let a: ReadableStep<T> = ReadableStep::Prepare { value };
    let b: ReadableStep<T> = ReadableStep::Exchange;
    let c: ReadableStep<T> = ReadableStep::Finish;
    assert(seq![a, b, c].drop_last() =~= seq![a, b]);
    assert(seq![a, b].drop_last() =~= seq![a]);
    assert(seq![a].drop_last() =~= Seq::<ReadableStep<T>>::empty());
    reveal_with_fuel(ReadableSystem::after_all, 4);
    reveal_with_fuel(ReadableSystem::schedulable, 4);
}

/// A whole read, undisturbed, is two accesses in a row, which change nothing. It gives the last
/// value that the reader has been offered.
pub proof fn law_get_is_a_schedule<T>(s: ReadableSystem<T>)
    requires
        s.inv(),
        s.reader is Idle,
    ensures
        ({
            let steps = seq![ReadableStep::<T>::Lock, ReadableStep::Unlock];
            &&& s.schedulable(steps)
            &&& s.after_all(steps).memory == s.memory
            &&& s.after_all(steps).reads == s.reads.push(s.history.len() - 1)
        }),
{
    let a: ReadableStep<T> = ReadableStep::Lock;
    let b: ReadableStep<T> = ReadableStep::Unlock;
    assert(seq![a, b].drop_last() =~= seq![a]);
    assert(seq![a].drop_last() =~= Seq::<ReadableStep<T>>::empty());
    reveal_with_fuel(ReadableSystem::after_all, 3);
    reveal_with_fuel(ReadableSystem::schedulable, 3);
}

} // verus!

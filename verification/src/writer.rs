//! Write shared data on the real-time thread.
//!
//! The value is kept in two slots. The writer writes to one of them while the reader reads from
//! the other, and only the reader swaps them, at a time when the writer is not writing.

pub mod account;
pub mod control;
pub mod schedule;
pub mod state;

pub use control::{ControlBit, ControlBits};

use crate::backoff::{raised, Backoff, SPIN_LIMIT};
use crate::ledger::{gone, held_in, Ledger};
use crate::word::Byte;
use crate::writer::account::{lemma_emptied, lemma_new_balanced, lemma_set_balanced};
use crate::writer::control::lemma_without_unset;
use crate::writer::state::{
    lemma_begun, lemma_begun_wf, lemma_finished_wf, lemma_new_wf, lemma_updated_wf,
    lemma_vacated_wf, lemma_written_wf, WritableState,
};
use crate::PhantomUnsync;
use std::marker::PhantomData;
use vstd::multiset::Multiset;
use vstd::prelude::*;

verus! {

/// `From::from`, from a type to the type itself. It returns its argument, as it is. So a value that
/// is of the type that it is converted to stays what it is.
pub assume_specification<X>[ <X as std::convert::From<X>>::from ](given: X) -> (returned: X)
    ensures
        returned == given,
;

/// The memory of a writable value, which the writer and the reader share.
pub struct Shared<T> {
    values: [Option<T>; 2],
    control: Byte,
    ledger: Ledger<T>,
}

impl<T> View for Shared<T> {
    type V = WritableState<T>;

    closed spec fn view(&self) -> WritableState<T> {
        WritableState { values: self.values@, control: ControlBits(self.control@) }
    }
}

impl<T> Shared<T> {
    /// The values that the memory has been given, and those that have been dropped.
    pub closed spec fn ledger(self) -> Ledger<T> {
        self.ledger
    }

    /// Every value that the memory has been given is in a slot, or among those that have been taken
    /// out, or has been dropped, and is so once.
    pub open spec fn balanced(self, out: Multiset<T>) -> bool {
        self.ledger().balanced(held_in(self@.values).to_multiset(), out)
    }

    /// What every access keeps.
    pub open spec fn wf(self) -> bool {
        self@.wf()
    }

    /// What is in a slot.
    pub fn get(&self, index: usize) -> (slot: &Option<T>)
        requires
            index < self@.values.len(),
        ensures
            *slot == self@.values[index as int],
    {
        &self.values[index]
    }

    /// Puts something in a slot, and returns what was there.
    fn replace(&mut self, index: usize, slot: Option<T>) -> (previous: Option<T>)
        requires
            index < old(self)@.values.len(),
        ensures
            previous == old(self)@.values[index as int],
            final(self)@ == (WritableState {
                values: old(self)@.values.update(index as int, slot),
                ..old(self)@
            }),
            final(self).ledger() == old(self).ledger(),
    {
        let mut previous: Option<T> = slot;
        std::mem::swap(&mut self.values[index], &mut previous);
        previous
    }

    /// Reads the control byte.
    pub fn control(&self) -> (control: ControlBits)
        ensures
            control == self@.control,
    {
        self.control.load().into()
    }

    /// Drops the value in each slot that holds one.
    pub fn drop(&mut self)
        requires
            old(self).wf(),
            old(self)@.settled(),
        ensures
            final(self)@.values == seq![None::<T>, None::<T>],
            final(self)@.control == old(self)@.control,
            final(self).ledger().received() == old(self).ledger().received(),
            final(self).ledger().dropped() == old(self).ledger().dropped() + held_in(
                old(self)@.values,
            ),
            forall|i: int|
                0 <= i < held_in(old(self)@.values).len() ==> gone(
                    #[trigger] held_in(old(self)@.values)[i],
                ),
            forall|out: Multiset<T>|
                #![trigger old(self).balanced(out)]
                #![trigger final(self).balanced(out)]
                old(self).balanced(out) ==> final(self).balanced(out),
    {
        let control = self.control();
        let mut slot: usize = 0;
        while slot < 2
            invariant
                slot <= 2,
                old(self).wf(),
                old(self)@.settled(),
                control == old(self)@.control,
                self@.control == control,
                self@.values.len() == 2,
                forall|j: int| 0 <= j < slot ==> #[trigger] self@.values[j] is None,
                forall|j: int| slot <= j < 2 ==> #[trigger] self@.values[j]
                    == old(self)@.values[j],
                self.ledger().received() == old(self).ledger().received(),
                self.ledger().dropped() == old(self).ledger().dropped() + held_in(
                    old(self)@.values.take(slot as int),
                ),
                forall|i: int|
                    0 <= i < held_in(old(self)@.values.take(slot as int)).len() ==> gone(
                        #[trigger] held_in(old(self)@.values.take(slot as int))[i],
                    ),
            decreases 2 - slot,
        {
            if control.is_slot_initialised(slot) {
                let value: Option<T> = self.replace(slot, None);
                assert(value is Some);
                self.ledger.discard(value.unwrap());
            }
            assert(old(self)@.values.take(slot as int + 1).drop_last() =~= old(self)@.values.take(
                slot as int,
            ));
            slot = slot + 1;
        }
        assert(self@.values =~= seq![None::<T>, None::<T>]);
        assert(old(self)@.values.take(2) =~= old(self)@.values);
        proof {
            lemma_emptied(old(self).ledger(), self.ledger(), old(self)@.values, self@.values);
        }
    }
}

/// A shared value that can read on a non-real-time thread.
pub struct LockingReader<T> {
    marker: PhantomData<T>,
    unsync: PhantomUnsync,
}

/// A shared value that can be mutated on the real-time thread without blocking.
pub struct RealtimeWriter<T> {
    marker: PhantomData<T>,
    unsync: PhantomUnsync,
}

/// Creates a shared value that can be mutated on the real-time thread without
/// blocking.
pub fn writable<T>(value: T) -> (handles: (
    Shared<T>,
    RealtimeWriter<T>,
    LockingReader<T>,
)) where T: Send
    ensures
        handles.0.wf(),
        handles.0@.settled(),
        handles.0@ == WritableState::new(value),
        handles.0@.latest() == value,
        handles.0.ledger().received() == seq![value],
        handles.0.ledger().dropped() == Seq::<T>::empty(),
        handles.0.balanced(Multiset::empty()),
{
    let control = ControlBits::default();
    let mut ledger = Ledger::new();
    ledger.receive(&value);
    let shared = Shared { values: [None, Some(value)], control: Byte::new(control.into()), ledger };
    proof {
        lemma_new_wf(value);
        assert(shared@.values =~= seq![None, Some(value)]);
        assert(shared.ledger().received() =~= seq![value]);
        lemma_new_balanced(shared.ledger(), value);
    }
    (
        shared,
        RealtimeWriter { marker: PhantomData, unsync: PhantomData },
        LockingReader { marker: PhantomData, unsync: PhantomData },
    )
}

impl<T> LockingReader<T> {
    /// Tries to swap the slots, having found `control`. It works if the control byte is what it
    /// was found to be but that the writer is not busy, and returns the slot that is now the
    /// reader's. Otherwise it returns what the control byte is.
    pub fn try_swap(&self, shared: &mut Shared<T>, control: ControlBits) -> (result: Result<
        usize,
        ControlBits,
    >)
        ensures
            old(shared)@.control == control.without(ControlBit::IsWriterBusy) ==> {
                &&& result is Ok
                &&& result->Ok_0 == old(shared)@.control.write_slot()
                &&& final(shared)@ == old(shared)@.swapped()
            },
            old(shared)@.control != control.without(ControlBit::IsWriterBusy) ==> {
                &&& result == Err::<usize, ControlBits>(old(shared)@.control)
                &&& final(shared)@ == old(shared)@
            },
            final(shared).ledger() == old(shared).ledger(),
    {
        let (current, new) = control.swap();
        match shared.control.compare_exchange(current.into(), new.into()) {
            Ok(previous) => {
                let previous: ControlBits = previous.into();
                Ok(previous.write_slot_index())
            },
            Err(actual) => Err(actual.into()),
        }
    }

    /// Tries to swap the slots, having found `control`, and if that fails, waits for a while before
    /// it says so.
    pub fn swap_or_wait(
        &self,
        shared: &mut Shared<T>,
        control: ControlBits,
        backoff: &mut Backoff,
    ) -> (result: Result<usize, ControlBits>)
        ensures
            old(shared)@.control == control.without(ControlBit::IsWriterBusy) ==> {
                &&& result is Ok
                &&& result->Ok_0 == old(shared)@.control.write_slot()
                &&& final(shared)@ == old(shared)@.swapped()
                &&& final(backoff).step() == old(backoff).step()
            },
            old(shared)@.control != control.without(ControlBit::IsWriterBusy) ==> {
                &&& result == Err::<usize, ControlBits>(old(shared)@.control)
                &&& final(shared)@ == old(shared)@
                &&& final(backoff).step() == raised(old(backoff).step(), SPIN_LIMIT)
            },
            final(shared).ledger() == old(shared).ledger(),
    {
        let result = self.try_swap(shared, control);
        if result.is_err() {
            backoff.spin();
        }
        result
    }

    /// Swaps the slots, having found `control` at an earlier time, and returns the slot that is
    /// now the reader's. If the control byte has changed since, it starts again from what it is
    /// now. It waits for the writer to be done with what it is writing: with the memory to itself,
    /// while the writer is busy, it would never return. One round of its wait, on any memory, is
    /// [`LockingReader::swap_or_wait`].
    pub fn take_over(&self, shared: &mut Shared<T>, control: ControlBits) -> (slot: usize)
        requires
            old(shared).wf(),
            old(shared)@.has_new_data(),
            !old(shared)@.busy(),
        ensures
            final(shared).wf(),
            old(shared)@.settled() ==> final(shared)@.settled(),
            final(shared)@ == old(shared)@.swapped(),
            slot == old(shared)@.control.write_slot(),
            slot == final(shared)@.control.read_slot(),
            final(shared)@.values[slot as int] == Some(old(shared)@.latest()),
            final(shared)@.latest() == old(shared)@.latest(),
            final(shared).ledger() == old(shared).ledger(),
    {
        proof {
            lemma_updated_wf(shared@);
            lemma_without_unset(shared@.control, ControlBit::IsWriterBusy);
        }
        let mut control: ControlBits = control;
        let mut backoff = Backoff::default();
        let mut slot: usize = 0;
        loop
            invariant_except_break
                shared@ == old(shared)@,
            invariant
                shared.ledger() == old(shared).ledger(),
                old(shared)@.control.without(ControlBit::IsWriterBusy) == old(shared)@.control,
            ensures
                shared@ == old(shared)@.swapped(),
                slot == old(shared)@.control.write_slot(),
            decreases
                    (if control.without(ControlBit::IsWriterBusy) == old(shared)@.control {
                        0int
                    } else {
                        1int
                    }),
        {
            match self.swap_or_wait(shared, control, &mut backoff) {
                Ok(previous) => {
                    slot = previous;
                    break;
                },
                Err(actual) => {
                    control = actual;
                },
            }
        }
        slot
    }

    /// Takes over the new data, if there is any, and returns the slot that the latest value is
    /// in. If there is new data, it waits for the writer to be done with what it is writing: with
    /// the memory to itself, while the writer is busy, it would never return.
    pub fn acquire(&self, shared: &mut Shared<T>) -> (slot: usize)
        requires
            old(shared).wf(),
            old(shared)@.has_new_data() ==> !old(shared)@.busy(),
        ensures
            final(shared).wf(),
            old(shared)@.settled() ==> final(shared)@.settled(),
            final(shared)@ == old(shared)@.updated(),
            slot == final(shared)@.control.read_slot(),
            final(shared)@.values[slot as int] == Some(old(shared)@.latest()),
            final(shared)@.latest() == old(shared)@.latest(),
            final(shared).ledger() == old(shared).ledger(),
    {
        proof {
            lemma_updated_wf(shared@);
        }
        let control: ControlBits = shared.control();
        if control.is_set(ControlBit::HasNewData) {
            self.take_over(shared, control)
        } else {
            control.read_slot_index()
        }
    }

    /// Takes over the new data, if there is any, and returns the latest value.
    pub fn update<'a>(&self, shared: &'a mut Shared<T>) -> (value: &'a T)
        requires
            old(shared).wf(),
            old(shared)@.has_new_data() ==> !old(shared)@.busy(),
        ensures
            final(shared).wf(),
            old(shared)@.settled() ==> final(shared)@.settled(),
            final(shared)@ == old(shared)@.updated(),
            *value == old(shared)@.latest(),
            final(shared)@.latest() == old(shared)@.latest(),
            final(shared).ledger() == old(shared).ledger(),
    {
        let slot: usize = self.acquire(shared);
        shared.get(slot).as_ref().unwrap()
    }

    /// Get the latest value.
    pub fn get(&self, shared: &mut Shared<T>) -> (value: T) where T: Clone
        requires
            old(shared).wf(),
            old(shared)@.has_new_data() ==> !old(shared)@.busy(),
        ensures
            final(shared).wf(),
            old(shared)@.settled() ==> final(shared)@.settled(),
            final(shared)@ == old(shared)@.updated(),
            cloned(old(shared)@.latest(), value),
            final(shared)@.latest() == old(shared)@.latest(),
            final(shared).ledger() == old(shared).ledger(),
    {
        self.update(shared).clone()
    }

    /// Get a reference to the latest value.
    ///
    /// This method requires a unique borrow of the reader to ensure that the
    /// reference isn't invalidated.
    pub fn get_ref<'a>(&'a mut self, shared: &'a mut Shared<T>) -> (value: &'a T)
        requires
            old(shared).wf(),
            old(shared)@.has_new_data() ==> !old(shared)@.busy(),
        ensures
            final(shared).wf(),
            old(shared)@.settled() ==> final(shared)@.settled(),
            final(shared)@ == old(shared)@.updated(),
            *value == old(shared)@.latest(),
            final(shared)@.latest() == old(shared)@.latest(),
            final(shared).ledger() == old(shared).ledger(),
    {
        self.update(shared)
    }
}

impl<T> RealtimeWriter<T> {
    /// Says that the writer is busy, so that the reader does not swap the slots whilst it is
    /// writing, and returns what the control byte was.
    pub fn begin(&self, shared: &mut Shared<T>) -> (control: ControlBits)
        requires
            old(shared).wf(),
        ensures
            final(shared).wf(),
            final(shared)@ == old(shared)@.begun(),
            old(shared)@.accurate() ==> final(shared)@.accurate(),
            final(shared)@.latest() == old(shared)@.latest(),
            control == old(shared)@.control,
            final(shared).ledger() == old(shared).ledger(),
    {
        proof {
            lemma_begun_wf(shared@);
        }
        shared.control.fetch_or(ControlBit::IsWriterBusy.into()).into()
    }

    /// Takes out the value that the writer's slot holds, if it holds one, having found `control`.
    pub fn reclaim(&self, shared: &mut Shared<T>, control: ControlBits) -> (reclaimed: Option<T>)
        requires
            old(shared).wf(),
            old(shared)@.accurate(),
            old(shared)@.control == control.with(ControlBit::IsWriterBusy),
        ensures
            final(shared).wf(),
            final(shared)@ == old(shared)@.vacated(control.write_slot()),
            reclaimed == old(shared)@.values[control.write_slot()],
            final(shared).ledger() == old(shared).ledger(),
    {
        proof {
            lemma_begun(control);
            lemma_vacated_wf(shared@);
        }
        let write_slot_index: usize = control.write_slot_index();
        if control.is_slot_initialised(write_slot_index) {
            shared.replace(write_slot_index, None)
        } else {
            assert(shared@.values =~= shared@.values.update(write_slot_index as int, None));
            None
        }
    }

    /// Writes a value to the writer's slot, which is empty, having found `control`.
    pub fn write(&self, shared: &mut Shared<T>, control: ControlBits, value: T)
        requires
            old(shared).wf(),
            old(shared)@.control == control.with(ControlBit::IsWriterBusy),
            old(shared)@.values[control.write_slot()] is None,
        ensures
            final(shared).wf(),
            final(shared)@ == old(shared)@.written(control.write_slot(), value),
            final(shared).ledger().received() == old(shared).ledger().received().push(value),
            final(shared).ledger().dropped() == old(shared).ledger().dropped(),
    {
        proof {
            lemma_begun(control);
            lemma_written_wf(shared@, value);
        }
        let write_slot_index: usize = control.write_slot_index();
        shared.ledger.receive(&value);
        let _ = shared.replace(write_slot_index, Some(value));
    }

    /// Tells the reader that there is new data, and that the writer is no longer busy, having
    /// found `control`.
    pub fn finish(&self, shared: &mut Shared<T>, control: ControlBits)
        requires
            old(shared).wf(),
            old(shared)@.control == control.with(ControlBit::IsWriterBusy),
            !control.has(ControlBit::IsWriterBusy),
            old(shared)@.values[control.write_slot()] is Some,
        ensures
            final(shared).wf(),
            final(shared)@.settled(),
            final(shared)@ == old(shared)@.finished(control),
            final(shared)@.latest() == old(shared)@.values[control.write_slot()]->0,
            final(shared).ledger() == old(shared).ledger(),
    {
        proof {
            lemma_begun(control);
            lemma_finished_wf(shared@, control);
        }
        shared.control.store(control.publish().into());
    }

    /// Writes a value to the writer's slot, which is empty, and tells the reader about it, having
    /// found `control`.
    pub fn complete(&self, shared: &mut Shared<T>, control: ControlBits, value: T)
        requires
            old(shared).wf(),
            old(shared)@.control == control.with(ControlBit::IsWriterBusy),
            !control.has(ControlBit::IsWriterBusy),
            old(shared)@.values[control.write_slot()] is None,
        ensures
            final(shared).wf(),
            final(shared)@.settled(),
            final(shared)@ == old(shared)@.written(control.write_slot(), value).finished(control),
            final(shared)@.latest() == value,
            final(shared).ledger().received() == old(shared).ledger().received().push(value),
            final(shared).ledger().dropped() == old(shared).ledger().dropped(),
    {
        proof {
            lemma_begun(control);
        }
        self.write(shared, control, value);
        self.finish(shared, control);
    }

    /// Set the shared value and make the update immediately available to any
    /// non-real-time threads.
    ///
    /// The value that is replaced is dropped first, and `value` is converted after that.
    pub fn set<V>(&self, shared: &mut Shared<T>, value: V) where V: Into<T>, T: Send
        requires
            old(shared).wf(),
            old(shared)@.settled(),
        ensures
            final(shared).wf(),
            final(shared)@.settled(),
            exists|t: T|
                #![trigger old(shared)@.set(t)]
                {
                    &&& call_ensures(<V as Into<T>>::into, (value,), t)
                    &&& final(shared)@ == old(shared)@.set(t)
                    &&& final(shared)@.latest() == t
                    &&& final(shared).ledger().received() == old(shared).ledger().received().push(t)
                },
            final(shared).ledger().dropped()
                == match old(shared)@.values[old(shared)@.control.write_slot()] {
                Some(previous) => old(shared).ledger().dropped().push(previous),
                None => old(shared).ledger().dropped(),
            },
            old(shared)@.values[old(shared)@.control.write_slot()] is Some ==> gone(
                old(shared)@.values[old(shared)@.control.write_slot()]->0,
            ),
            forall|out: Multiset<T>|
                #![trigger old(shared).balanced(out)]
                #![trigger final(shared).balanced(out)]
                old(shared).balanced(out) ==> final(shared).balanced(out),
    {
        let control = self.begin(shared);
        proof {
            lemma_begun(control);
        }
        if let Some(previous) = self.reclaim(shared, control) {
            shared.ledger.discard(previous);
        }
        let value: T = value.into();
        self.complete(shared, control, value);
        assert(shared@ == old(shared)@.set(value));
        assert(shared@.values =~= old(shared)@.values.update(control.write_slot(), Some(value)));
        proof {
            lemma_set_balanced(
                old(shared).ledger(),
                shared.ledger(),
                old(shared)@.values,
                control.write_slot(),
                value,
            );
        }
    }
}

} // verus!

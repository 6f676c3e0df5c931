//! What the memory of a writable value holds, and what each access does to it.

use crate::writer::control::{lemma_flipped, lemma_with, lemma_without, ControlBit, ControlBits};
use vstd::prelude::*;

verus! {

/// What the memory of a writable value holds: two slots, and the byte that says which of them is
/// the writer's.
pub struct WritableState<T> {
    pub values: Seq<Option<T>>,
    pub control: ControlBits,
}

impl<T> WritableState<T> {
    /// The memory of a new writable value. The value is in the reader's slot.
    pub open spec fn new(value: T) -> Self {
        WritableState { values: seq![None, Some(value)], control: ControlBits(0) }
    }

    /// Whether the writer is writing.
    pub open spec fn busy(self) -> bool {
        self.control.has(ControlBit::IsWriterBusy)
    }

    /// Whether the writer has written a value that the reader has not seen.
    pub open spec fn has_new_data(self) -> bool {
        self.control.has(ControlBit::HasNewData)
    }

    /// What every access keeps: there are two slots, a slot that is said to hold a value does,
    /// unless the writer is just replacing that value, the reader's slot is said to hold a value,
    /// and so is the writer's if there is new data.
    pub open spec fn wf(self) -> bool {
        &&& self.values.len() == 2
        &&& forall|i: int|
            #![trigger self.values[i]]
            0 <= i < 2 && self.control.initialised(i) && !(self.busy() && i
                == self.control.write_slot()) ==> self.values[i] is Some
        &&& self.control.initialised(self.control.read_slot())
        &&& self.has_new_data() ==> self.control.initialised(self.control.write_slot())
    }

    /// The slots that are said to hold a value do, and no others.
    pub open spec fn accurate(self) -> bool {
        forall|i: int|
            #![trigger self.values[i]]
            0 <= i < 2 ==> (self.values[i] is Some <==> self.control.initialised(i))
    }

    /// The writer is between two writes, and only the slots that are said to hold a value do.
    pub open spec fn settled(self) -> bool {
        &&& !self.busy()
        &&& self.accurate()
    }

    /// The value that was set last.
    pub open spec fn latest(self) -> T {
        if self.has_new_data() {
            self.values[self.control.write_slot()]->0
        } else {
            self.values[self.control.read_slot()]->0
        }
    }

    /// The writer says that it is busy.
    pub open spec fn begun(self) -> Self {
        WritableState { control: self.control.with(ControlBit::IsWriterBusy), ..self }
    }

    /// The writer takes out what is in a slot.
    pub open spec fn vacated(self, slot: int) -> Self {
        WritableState { values: self.values.update(slot, None), ..self }
    }

    /// The writer writes a value to a slot.
    pub open spec fn written(self, slot: int, value: T) -> Self {
        WritableState { values: self.values.update(slot, Some(value)), ..self }
    }

    /// The writer says that there is new data, having found `control` when it began.
    pub open spec fn finished(self, control: ControlBits) -> Self {
        WritableState { control: control.published(), ..self }
    }

    /// The reader swaps the slots.
    pub open spec fn swapped(self) -> Self {
        WritableState { control: self.control.swapped(), ..self }
    }

    /// The writer sets a value, undisturbed.
    pub open spec fn set(self, value: T) -> Self {
        let slot = self.control.write_slot();
        self.begun().vacated(slot).written(slot, value).finished(self.control)
    }

    /// The reader takes over new data, if there is any.
    pub open spec fn updated(self) -> Self {
        if self.has_new_data() {
            self.swapped()
        } else {
            self
        }
    }
}

/// What the bits are once the writer has published, having found `control`.
pub proof fn lemma_published(control: ControlBits)
    ensures
        ({
            let p = control.published();
            &&& p.has(ControlBit::HasNewData)
            &&& p.has(ControlBit::IsWriterBusy) == control.has(ControlBit::IsWriterBusy)
            &&& p.write_slot() == control.write_slot()
            &&& p.read_slot() == control.read_slot()
            &&& p.initialised(control.write_slot())
            &&& p.initialised(control.read_slot()) == control.initialised(control.read_slot())
        }),
{
    lemma_with(control, ControlBit::IsSlot0Initialised);
    lemma_with(control.with_initialised(control.write_slot()), ControlBit::HasNewData);
}

/// What the bits are once the reader has swapped the slots, having found `control`.
pub proof fn lemma_swapped(control: ControlBits)
    ensures
        ({
            let s = control.swapped();
            &&& !s.has(ControlBit::HasNewData)
            &&& s.has(ControlBit::IsWriterBusy) == control.has(ControlBit::IsWriterBusy)
            &&& s.write_slot() == control.read_slot()
            &&& s.read_slot() == control.write_slot()
            &&& s.initialised(0) == control.initialised(0)
            &&& s.initialised(1) == control.initialised(1)
        }),
{
    lemma_without(control, ControlBit::HasNewData);
    lemma_flipped(control.without(ControlBit::HasNewData), ControlBit::WriteSlotIndex);
}

/// What the bits are once the writer has said that it is busy, having found `control`.
pub proof fn lemma_begun(control: ControlBits)
    ensures
        ({
            let b = control.with(ControlBit::IsWriterBusy);
            &&& b.has(ControlBit::IsWriterBusy)
            &&& b.has(ControlBit::HasNewData) == control.has(ControlBit::HasNewData)
            &&& b.write_slot() == control.write_slot()
            &&& b.read_slot() == control.read_slot()
            &&& b.initialised(0) == control.initialised(0)
            &&& b.initialised(1) == control.initialised(1)
        }),
{
    lemma_with(control, ControlBit::IsWriterBusy);
}

/// A new writable value is well-formed, and the value that it was made with is the latest.
pub proof fn lemma_new_wf<T>(value: T)
    ensures
        WritableState::new(value).wf(),
        WritableState::new(value).settled(),
        WritableState::new(value).latest() == value,
        !WritableState::new(value).has_new_data(),
{
    assert(0u8 & 1u8 == 0 && 0u8 & 2u8 == 0 && 0u8 & 4u8 == 0 && 0u8 & 8u8 == 0) by (bit_vector);
}

/// Saying that the writer is busy keeps the memory well-formed.
pub proof fn lemma_begun_wf<T>(s: WritableState<T>)
    requires
        s.wf(),
    ensures
        s.begun().wf(),
        s.accurate() ==> s.begun().accurate(),
        s.begun().latest() == s.latest(),
{
    lemma_begun(s.control);
}

/// Taking out what is in the writer's slot, while the writer is busy, keeps the memory well-formed.
pub proof fn lemma_vacated_wf<T>(s: WritableState<T>)
    requires
        s.wf(),
        s.busy(),
    ensures
        s.vacated(s.control.write_slot()).wf(),
{
}

/// Writing to the writer's slot keeps the memory well-formed.
pub proof fn lemma_written_wf<T>(s: WritableState<T>, value: T)
    requires
        s.wf(),
    ensures
        s.written(s.control.write_slot(), value).wf(),
{
}

/// Saying that there is new data, once it has been written, keeps the memory well-formed, and
/// makes that data the latest value.
pub proof fn lemma_finished_wf<T>(s: WritableState<T>, control: ControlBits)
    requires
        s.wf(),
        s.control == control.with(ControlBit::IsWriterBusy),
        !control.has(ControlBit::IsWriterBusy),
        s.values[control.write_slot()] is Some,
    ensures
        s.finished(control).wf(),
        s.finished(control).settled(),
        s.finished(control).has_new_data(),
        s.finished(control).latest() == s.values[control.write_slot()]->0,
{
    lemma_begun(control);
    lemma_published(control);
}

/// Taking over new data keeps the memory well-formed, and the latest value is then in the
/// reader's slot.
pub proof fn lemma_updated_wf<T>(s: WritableState<T>)
    requires
        s.wf(),
        s.has_new_data() ==> !s.busy(),
    ensures
        s.updated().wf(),
        s.settled() ==> s.updated().settled(),
        !s.updated().has_new_data(),
        s.updated().latest() == s.latest(),
        s.updated().values == s.values,
        s.updated().busy() == s.busy(),
        s.updated().control.read_slot() == if s.has_new_data() {
            s.control.write_slot()
        } else {
            s.control.read_slot()
        },
        s.values[s.updated().control.read_slot()] == Some(s.latest()),
{
    lemma_swapped(s.control);
}

} // verus!

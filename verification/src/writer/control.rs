//! The byte by which the two threads of a writable value agree who uses which slot.

use vstd::prelude::*;

verus! {

/// One bit of the control byte.
#[derive(Debug, Copy, Clone, PartialEq, Eq, Structural)]
pub enum ControlBit {
    /// The slot that the writer writes to; the reader reads from the other one.
    WriteSlotIndex,
    /// The writer is writing to its slot.
    IsWriterBusy,
    /// The writer's slot holds a value that the reader has not seen.
    HasNewData,
    /// The first slot holds a value.
    IsSlot0Initialised,
}

/// The byte in which only this bit is set.
pub open spec fn mask(bit: ControlBit) -> u8 {
    match bit {
        ControlBit::WriteSlotIndex => 0b001,
        ControlBit::IsWriterBusy => 0b010,
        ControlBit::HasNewData => 0b100,
        ControlBit::IsSlot0Initialised => 0b1000,
    }
}

impl From<ControlBit> for u8 {
    fn from(bit: ControlBit) -> (byte: u8) {
        match bit {
            ControlBit::WriteSlotIndex => 0b001,
            ControlBit::IsWriterBusy => 0b010,
            ControlBit::HasNewData => 0b100,
            ControlBit::IsSlot0Initialised => 0b1000,
        }
    }
}

impl vstd::std_specs::convert::FromSpecImpl<ControlBit> for u8 {
    open spec fn obeys_from_spec() -> bool {
        true
    }

    open spec fn from_spec(bit: ControlBit) -> u8 {
        mask(bit)
    }
}

/// The control byte.
#[derive(Debug, Copy, Clone, PartialEq, Eq, Structural)]
pub struct ControlBits(pub u8);

impl Default for ControlBits {
    fn default() -> (control: Self)
        ensures
            control == ControlBits(0),
    {
        ControlBits(0)
    }
}

impl From<ControlBits> for u8 {
    fn from(bits: ControlBits) -> (byte: u8) {
        bits.0
    }
}

impl vstd::std_specs::convert::FromSpecImpl<ControlBits> for u8 {
    open spec fn obeys_from_spec() -> bool {
        true
    }

    open spec fn from_spec(bits: ControlBits) -> u8 {
        bits.0
    }
}

impl From<u8> for ControlBits {
    fn from(byte: u8) -> (bits: ControlBits) {
        ControlBits(byte)
    }
}

impl vstd::std_specs::convert::FromSpecImpl<u8> for ControlBits {
    open spec fn obeys_from_spec() -> bool {
        true
    }

    open spec fn from_spec(byte: u8) -> ControlBits {
        ControlBits(byte)
    }
}

/// Whether a byte is the mask of a control bit.
spec fn is_mask(m: u8) -> bool {
    m == 1 || m == 2 || m == 4 || m == 8
}

proof fn lemma_or_mask(x: u8, m: u8, k: u8)
    requires
        is_mask(m),
        is_mask(k),
    ensures
        (x | m) & k != 0 <==> (m == k || x & k != 0),
{
    assert((x | m) & k != 0 <==> (m == k || x & k != 0)) by (bit_vector)
        requires
            m == 1 || m == 2 || m == 4 || m == 8,
            k == 1 || k == 2 || k == 4 || k == 8,
    ;
}

proof fn lemma_clear_mask(x: u8, m: u8, k: u8)
    requires
        is_mask(m),
        is_mask(k),
    ensures
        (x & !m) & k != 0 <==> (m != k && x & k != 0),
{
    assert((x & !m) & k != 0 <==> (m != k && x & k != 0)) by (bit_vector)
        requires
            m == 1 || m == 2 || m == 4 || m == 8,
            k == 1 || k == 2 || k == 4 || k == 8,
    ;
}

proof fn lemma_flip_mask(x: u8, m: u8, k: u8)
    requires
        is_mask(m),
        is_mask(k),
    ensures
        (x ^ m) & k != 0 <==> (m == k) != (x & k != 0),
{
    assert((x ^ m) & k != 0 <==> (m == k) != (x & k != 0)) by (bit_vector)
        requires
            m == 1 || m == 2 || m == 4 || m == 8,
            k == 1 || k == 2 || k == 4 || k == 8,
    ;
}

proof fn lemma_only_mask(x: u8, m: u8, k: u8)
    requires
        is_mask(m),
        is_mask(k),
    ensures
        (x & m) & k != 0 <==> (m == k && x & k != 0),
        x & m == 0 || x & m == m,
{
    assert((x & m) & k != 0 <==> (m == k && x & k != 0)) by (bit_vector)
        requires
            m == 1 || m == 2 || m == 4 || m == 8,
            k == 1 || k == 2 || k == 4 || k == 8,
    ;
    assert(x & m == 0 || x & m == m) by (bit_vector)
        requires
            m == 1 || m == 2 || m == 4 || m == 8,
    ;
}

/// Setting a bit sets that bit and no other.
pub proof fn lemma_with(control: ControlBits, bit: ControlBit)
    ensures
        forall|b: ControlBit|
            #[trigger] control.with(bit).has(b) == (b == bit || control.has(b)),
{
    assert forall|b: ControlBit|
        #[trigger] control.with(bit).has(b) == (b == bit || control.has(b)) by {
        lemma_or_mask(control.0, mask(bit), mask(b));
    }
}

/// Clearing a bit clears that bit and no other.
pub proof fn lemma_without(control: ControlBits, bit: ControlBit)
    ensures
        forall|b: ControlBit|
            #[trigger] control.without(bit).has(b) == (b != bit && control.has(b)),
{
    assert forall|b: ControlBit|
        #[trigger] control.without(bit).has(b) == (b != bit && control.has(b)) by {
        lemma_clear_mask(control.0, mask(bit), mask(b));
    }
}

/// Flipping a bit flips that bit and no other.
pub proof fn lemma_flipped(control: ControlBits, bit: ControlBit)
    ensures
        forall|b: ControlBit|
            #[trigger] control.flipped(bit).has(b) == ((b == bit) != control.has(b)),
{
    assert forall|b: ControlBit|
        #[trigger] control.flipped(bit).has(b) == ((b == bit) != control.has(b)) by {
        lemma_flip_mask(control.0, mask(bit), mask(b));
    }
}

/// Clearing a bit that is not set changes nothing, and neither does setting it and clearing it
/// again.
pub proof fn lemma_without_unset(control: ControlBits, bit: ControlBit)
    requires
        !control.has(bit),
    ensures
        control.without(bit) == control,
        control.with(bit).without(bit) == control,
{
    let x = control.0;
    let m = mask(bit);
    assert(x & !m == x && (x | m) & !m == x) by (bit_vector)
        requires
            x & m == 0,
    ;
}

impl ControlBits {
    /// Whether a bit is set.
    pub open spec fn has(self, bit: ControlBit) -> bool {
        self.0 & mask(bit) != 0
    }

    /// The slot that the writer writes to.
    pub open spec fn write_slot(self) -> int {
        if self.has(ControlBit::WriteSlotIndex) {
            1
        } else {
            0
        }
    }

    /// The slot that the reader reads from.
    pub open spec fn read_slot(self) -> int {
        1 - self.write_slot()
    }

    /// Whether a slot holds a value, as far as the control byte tells: the second slot always
    /// does.
    pub open spec fn initialised(self, slot: int) -> bool {
        slot == 1 || self.has(ControlBit::IsSlot0Initialised)
    }

    /// With one bit set.
    pub open spec fn with(self, bit: ControlBit) -> Self {
        ControlBits(self.0 | mask(bit))
    }

    /// With one bit cleared.
    pub open spec fn without(self, bit: ControlBit) -> Self {
        ControlBits(self.0 & !mask(bit))
    }

    /// With one bit flipped.
    pub open spec fn flipped(self, bit: ControlBit) -> Self {
        ControlBits(self.0 ^ mask(bit))
    }

    /// Having recorded that a slot holds a value.
    pub open spec fn with_initialised(self, slot: int) -> Self {
        if slot == 0 {
            self.with(ControlBit::IsSlot0Initialised)
        } else {
            self
        }
    }

    /// Whether a bit is set.
    pub fn is_set(&self, bit: ControlBit) -> (set: bool)
        ensures
            set == self.has(bit),
    {
        let byte: u8 = bit.into();
        self.0 & byte != 0
    }

    /// With one bit set.
    pub fn set(self, bit: ControlBit) -> (control: Self)
        ensures
            control == self.with(bit),
            forall|b: ControlBit| #[trigger] control.has(b) == (b == bit || self.has(b)),
    {
        let byte: u8 = bit.into();
        let control = ControlBits(self.0 | byte);
        proof {
            assert(control == self.with(bit));
            lemma_with(self, bit);
        }
        control
    }

    /// With one bit cleared.
    pub fn clear(self, bit: ControlBit) -> (control: Self)
        ensures
            control == self.without(bit),
            forall|b: ControlBit| #[trigger] control.has(b) == (b != bit && self.has(b)),
    {
        let byte: u8 = bit.into();
        let control = ControlBits(self.0 & !byte);
        proof {
            assert(control == self.without(bit));
            lemma_without(self, bit);
        }
        control
    }

    /// With one bit flipped.
    pub fn flip(self, bit: ControlBit) -> (control: Self)
        ensures
            control == self.flipped(bit),
            forall|b: ControlBit| #[trigger] control.has(b) == ((b == bit) != self.has(b)),
    {
        let byte: u8 = bit.into();
        let control = ControlBits(self.0 ^ byte);
        proof {
            assert(control == self.flipped(bit));
            lemma_flipped(self, bit);
        }
        control
    }

    /// With every bit but one cleared.
    pub fn bitwise_and(self, bit: ControlBit) -> (control: Self)
        ensures
            control.0 == self.0 & mask(bit),
            control.0 == if self.has(bit) {
                mask(bit)
            } else {
                0
            },
            forall|b: ControlBit| #[trigger] control.has(b) == (b == bit && self.has(b)),
    {
        let byte: u8 = bit.into();
        let control = ControlBits(self.0 & byte);
        assert forall|b: ControlBit| #[trigger] control.has(b) == (b == bit && self.has(b)) by {
            lemma_only_mask(self.0, mask(bit), mask(b));
        }
        proof {
            lemma_only_mask(self.0, mask(bit), mask(bit));
        }
        control
    }

    /// The slot that the writer writes to.
    pub fn write_slot_index(self) -> (slot: usize)
        ensures
            slot == self.write_slot(),
    {
        self.bitwise_and(ControlBit::WriteSlotIndex).0 as usize
    }

    /// The slot that the reader reads from.
    pub fn read_slot_index(self) -> (slot: usize)
        ensures
            slot == self.read_slot(),
    {
        assert(0u8 ^ 1u8 == 1u8 && 1u8 ^ 1u8 == 0u8) by (bit_vector);
        self.bitwise_and(ControlBit::WriteSlotIndex).flip(ControlBit::WriteSlotIndex).0 as usize
    }

    /// Whether a slot holds a value.
    pub fn is_slot_initialised(self, slot: usize) -> (initialised: bool)
        requires
            slot < 2,
        ensures
            initialised == self.initialised(slot as int),
    {
        match slot {
            0 => self.is_set(ControlBit::IsSlot0Initialised),
            1 => true,
            _ => false,
        }
    }

    /// Having recorded that a slot holds a value.
    pub fn set_slot_initialised(self, slot: usize) -> (control: Self)
        requires
            slot < 2,
        ensures
            control == self.with_initialised(slot as int),
            control.initialised(slot as int),
            forall|b: ControlBit|
                b != ControlBit::IsSlot0Initialised ==> #[trigger] control.has(b) == self.has(b),
    {
        match slot {
            0 => self.set(ControlBit::IsSlot0Initialised),
            _ => self,
        }
    }

    /// What the writer leaves once it has written to its slot, having found this control byte.
    pub open spec fn published(self) -> Self {
        self.with_initialised(self.write_slot()).with(ControlBit::HasNewData)
    }

    /// What the reader leaves once it has swapped the slots, having found this control byte.
    pub open spec fn swapped(self) -> Self {
        self.without(ControlBit::HasNewData).flipped(ControlBit::WriteSlotIndex)
    }

    /// What the writer stores once it has written to its slot: the slot holds a value, there is
    /// new data, and the writer is not busy.
    pub fn publish(self) -> (control: Self)
        ensures
            control == self.published(),
    {
        self.set_slot_initialised(self.write_slot_index()).set(ControlBit::HasNewData)
    }

    /// What the reader expects to find once the writer is not busy, and what it replaces that by:
    /// the slots are swapped, and there is no new data.
    pub fn swap(self) -> (exchange: (Self, Self))
        ensures
            exchange.0 == self.without(ControlBit::IsWriterBusy),
            exchange.1 == exchange.0.swapped(),
    {
        // Wait until the writer has finished writing...
        let current = self.clear(ControlBit::IsWriterBusy);

        // ...and then swap the read and write slots, also clearing the new data
        // bit.
        let new = current.clear(ControlBit::HasNewData).flip(ControlBit::WriteSlotIndex);
        (current, new)
    }
}

} // verus!

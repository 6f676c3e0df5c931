//! What becomes of the values that a memory is given.

use vstd::multiset::Multiset;
use vstd::prelude::*;

verus! {

/// The value has been dropped: it has been handed, as an error, to `Result::ok`, which discards
/// the error. Nothing but that call shows this of a value.
pub open spec fn gone<T>(value: T) -> bool {
    call_ensures(Result::<(), T>::ok, (Err::<(), T>(value),), None::<()>)
}

/// The values in the slots that hold one, in the order of the slots.
pub open spec fn held_in<T>(slots: Seq<Option<T>>) -> Seq<T>
    decreases slots.len(),
{
    if slots.len() == 0 {
        Seq::empty()
    } else {
        match slots.last() {
            Some(value) => held_in(slots.drop_last()).push(value),
            None => held_in(slots.drop_last()),
        }
    }
}

/// If the first slots hold these values, and the others none, then these are the values held.
pub proof fn lemma_held_in<T>(slots: Seq<Option<T>>, values: Seq<T>)
    requires
        values.len() <= slots.len(),
        forall|i: int|
            0 <= i < slots.len() ==> #[trigger] slots[i] == if i < values.len() {
                Some(values[i])
            } else {
                None
            },
    ensures
        held_in(slots) == values,
    decreases slots.len(),
{
    if slots.len() > 0 {
        assert(slots.last() == slots[slots.len() - 1]);
        if values.len() == slots.len() {
            lemma_held_in(slots.drop_last(), values.drop_last());
            assert(values.drop_last().push(values.last()) =~= values);
        } else {
            lemma_held_in(slots.drop_last(), values);
        }
    } else {
        assert(values =~= Seq::empty());
    }
}

/// A record of the values that a memory has been given, and of those that have been dropped, both
/// in the order in which that happened. It takes up no memory.
pub struct Ledger<T> {
    received: Ghost<Seq<T>>,
    dropped: Ghost<Seq<T>>,
}

impl<T> Ledger<T> {
    /// Every value that the memory has been given.
    pub closed spec fn received(self) -> Seq<T> {
        self.received@
    }

    /// Every value that has been dropped.
    pub closed spec fn dropped(self) -> Seq<T> {
        self.dropped@
    }

    /// Every value that the memory has been given is among those that it holds, or that have been
    /// taken out of it, or has been dropped, and is so once.
    pub open spec fn balanced(self, held: Multiset<T>, out: Multiset<T>) -> bool {
        &&& self.received().to_multiset() == self.dropped().to_multiset().add(held).add(out)
        &&& forall|i: int| 0 <= i < self.dropped().len() ==> gone(#[trigger] self.dropped()[i])
    }

    /// A record with nothing in it.
    pub fn new() -> (ledger: Self)
        ensures
            ledger.received() == Seq::<T>::empty(),
            ledger.dropped() == Seq::<T>::empty(),
    {
        Ledger { received: Ghost(Seq::empty()), dropped: Ghost(Seq::empty()) }
    }

    /// Records that the memory is given a value.
    pub fn receive(&mut self, value: &T)
        ensures
            final(self).received() == old(self).received().push(*value),
            final(self).dropped() == old(self).dropped(),
    {
        self.received = Ghost(self.received@.push(*value));
    }

    /// Drops a value, and records that.
    pub fn discard(&mut self, value: T)
        ensures
            final(self).received() == old(self).received(),
            final(self).dropped() == old(self).dropped().push(value),
            gone(value),
    {
        self.dropped = Ghost(self.dropped@.push(value));
        let _ = Err::<(), T>(value).ok();
    }
}

} // verus!

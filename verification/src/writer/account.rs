//! What becomes of the values that are set.

use crate::ledger::{gone, held_in, Ledger};
use crate::writer::schedule::held;
use crate::writer::Shared;
use vstd::multiset::Multiset;
use vstd::prelude::*;
use vstd::seq_lib::lemma_multiset_commutative;

verus! {

/// What two slots hold is what the one and the other hold.
proof fn lemma_held<T>(slots: Seq<Option<T>>)
    requires
        slots.len() == 2,
    ensures
        held_in(slots).to_multiset() == held(slots[0]).add(held(slots[1])),
{
    reveal_with_fuel(held_in, 3);
    let first = slots.drop_last();
    assert(first.last() == slots[0]);
    Seq::<T>::empty().to_multiset_ensures();
    held_in(first).to_multiset_ensures();
    assert(Seq::<T>::empty().to_multiset() =~= Multiset::empty());
    assert(held_in(first).to_multiset() =~= held(slots[0]));
    assert(held_in(slots).to_multiset() =~= held(slots[0]).add(held(slots[1])));
}

/// A new writable value holds the only value that it has been given.
pub(crate) proof fn lemma_new_balanced<T>(ledger: Ledger<T>, value: T)
    requires
        ledger.received() == seq![value],
        ledger.dropped() == Seq::<T>::empty(),
    ensures
        ledger.balanced(held_in(seq![None, Some(value)]).to_multiset(), Multiset::empty()),
{
    lemma_held(seq![None, Some(value)]);
    Seq::<T>::empty().to_multiset_ensures();
    assert(Seq::<T>::empty().push(value) =~= seq![value]);
    assert(ledger.received().to_multiset() =~= ledger.dropped().to_multiset().add(
        held_in(seq![None, Some(value)]).to_multiset(),
    ).add(Multiset::empty()));
}

/// A set that drops what was in the slot that it writes to loses nothing.
pub(crate) proof fn lemma_set_balanced<T>(
    before: Ledger<T>,
    after: Ledger<T>,
    slots: Seq<Option<T>>,
    slot: int,
    value: T,
)
    requires
        slots.len() == 2,
        0 <= slot < 2,
        after.received() == before.received().push(value),
        after.dropped() == match slots[slot] {
            Some(previous) => before.dropped().push(previous),
            None => before.dropped(),
        },
        slots[slot] is Some ==> gone(slots[slot]->0),
    ensures
        forall|out: Multiset<T>|
            before.balanced(held_in(slots).to_multiset(), out) ==> #[trigger] after.balanced(
                held_in(slots.update(slot, Some(value))).to_multiset(),
                out,
            ),
{
    lemma_held(slots);
    lemma_held(slots.update(slot, Some(value)));
    before.received().to_multiset_ensures();
    before.dropped().to_multiset_ensures();
    assert forall|out: Multiset<T>|
        before.balanced(held_in(slots).to_multiset(), out) implies #[trigger] after.balanced(
        held_in(slots.update(slot, Some(value))).to_multiset(),
        out,
    ) by {
        assert(after.received().to_multiset() =~= after.dropped().to_multiset().add(
            held_in(slots.update(slot, Some(value))).to_multiset(),
        ).add(out));
        assert forall|i: int| 0 <= i < after.dropped().len() implies gone(
            #[trigger] after.dropped()[i],
        ) by {
            if i < before.dropped().len() {
                assert(gone(before.dropped()[i]));
            }
        }
    }
}

/// Emptying the slots, where what they held is dropped, loses nothing.
pub(crate) proof fn lemma_emptied<T>(
    before: Ledger<T>,
    after: Ledger<T>,
    slots: Seq<Option<T>>,
    emptied: Seq<Option<T>>,
)
    requires
        emptied == seq![None::<T>, None::<T>],
        after.received() == before.received(),
        after.dropped() == before.dropped() + held_in(slots),
        forall|i: int| 0 <= i < held_in(slots).len() ==> gone(#[trigger] held_in(slots)[i]),
    ensures
        forall|out: Multiset<T>|
            before.balanced(held_in(slots).to_multiset(), out) ==> #[trigger] after.balanced(
                held_in(emptied).to_multiset(),
                out,
            ),
{
    lemma_held(emptied);
    lemma_multiset_commutative(before.dropped(), held_in(slots));
    assert forall|out: Multiset<T>|
        before.balanced(held_in(slots).to_multiset(), out) implies #[trigger] after.balanced(
        held_in(emptied).to_multiset(),
        out,
    ) by {
        assert(after.received().to_multiset() =~= after.dropped().to_multiset().add(
            held_in(emptied).to_multiset(),
        ).add(out));
        assert forall|i: int| 0 <= i < after.dropped().len() implies gone(
            #[trigger] after.dropped()[i],
        ) by {
            if i < before.dropped().len() {
                assert(gone(before.dropped()[i]));
            } else {
                assert(gone(held_in(slots)[i - before.dropped().len()]));
            }
        }
    }
}

/// Of the values that have been set, all but those in the slots have been dropped: so at most two
/// are left, and a value that has been set and is in neither slot is gone.
pub proof fn law_values_are_dropped_or_in_a_slot<T>(shared: Shared<T>, value: T)
    requires
        shared.wf(),
        shared.balanced(Multiset::empty()),
        shared.ledger().received().contains(value),
    ensures
        ({
            ||| shared@.values[0] == Some(value)
            ||| shared@.values[1] == Some(value)
            ||| shared.ledger().dropped().contains(value) && gone(value)
        }),
        shared.ledger().dropped().len() <= shared.ledger().received().len()
            <= shared.ledger().dropped().len() + 2,
{
    let received = shared.ledger().received();
    let dropped = shared.ledger().dropped();
    lemma_held(shared@.values);
    received.to_multiset_ensures();
    dropped.to_multiset_ensures();
    held_in(shared@.values).to_multiset_ensures();
    assert(received.to_multiset().count(value) > 0);
    let in_slots = held(shared@.values[0]).add(held(shared@.values[1]));
    assert(received.to_multiset() =~= dropped.to_multiset().add(in_slots));
    assert(in_slots.len() <= 2);
    if dropped.contains(value) {
        let i = choose|i: int| 0 <= i < dropped.len() && dropped[i] == value;
        assert(gone(dropped[i]));
    }
}

/// Once the memory has been dropped, so has every value that was ever set, each of them once.
pub proof fn law_every_value_is_dropped_with_the_memory<T>(shared: Shared<T>)
    requires
        shared.balanced(Multiset::empty()),
        shared@.values == seq![None::<T>, None::<T>],
    ensures
        shared.ledger().dropped().to_multiset() == shared.ledger().received().to_multiset(),
        forall|i: int|
            0 <= i < shared.ledger().received().len() ==> gone(
                #[trigger] shared.ledger().received()[i],
            ),
{
    let received = shared.ledger().received();
    let dropped = shared.ledger().dropped();
    lemma_held(shared@.values);
    assert(dropped.to_multiset() =~= received.to_multiset());
    assert forall|i: int| 0 <= i < received.len() implies gone(#[trigger] received[i]) by {
        received.to_multiset_ensures();
        dropped.to_multiset_ensures();
        assert(received.contains(received[i]));
        assert(dropped.to_multiset().count(received[i]) > 0);
        let j = choose|j: int| 0 <= j < dropped.len() && dropped[j] == received[i];
        assert(gone(dropped[j]));
    }
}

} // verus!

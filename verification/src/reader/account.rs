//! What becomes of the values that are set.

use crate::ledger::{gone, held_in, Ledger};
use crate::reader::state::ReadableState;
use crate::reader::Shared;
use vstd::multiset::Multiset;
use vstd::prelude::*;

verus! {

/// Between two writes, the memory holds one box.
proof fn lemma_one_box<T>(s: ReadableState<T>)
    requires
        s.wf(),
        s.settled(),
    ensures
        held_in(s.boxes).to_multiset() == Multiset::singleton(s.at(s.storage)->0),
{
    reveal_with_fuel(held_in, 3);
    assert(s.boxes.drop_last().last() == s.boxes[0]);
    let none = Seq::<Box<T>>::empty();
    none.to_multiset_ensures();
    assert(held_in(s.boxes) =~= none.push(s.at(s.storage)->0));
    assert(none.to_multiset() =~= Multiset::empty());
    assert(held_in(s.boxes).to_multiset() =~= Multiset::singleton(s.at(s.storage)->0));
}

/// A new readable value holds the only box that it has been given.
pub(crate) proof fn lemma_new_balanced<T>(ledger: Ledger<Box<T>>, s: ReadableState<T>)
    requires
        s.wf(),
        s.settled(),
        ledger.received() == seq![s.at(s.storage)->0],
        ledger.dropped() == Seq::<Box<T>>::empty(),
    ensures
        ledger.balanced(held_in(s.boxes).to_multiset(), Multiset::empty()),
{
    lemma_one_box(s);
    let none = Seq::<Box<T>>::empty();
    none.to_multiset_ensures();
    assert(none.push(s.at(s.storage)->0) =~= ledger.received());
    assert(ledger.received().to_multiset() =~= ledger.dropped().to_multiset().add(
        held_in(s.boxes).to_multiset(),
    ).add(Multiset::empty()));
}

/// A swap loses nothing but the box that it hands back.
pub(crate) proof fn lemma_swapped<T>(
    before: Ledger<Box<T>>,
    after: Ledger<Box<T>>,
    s: ReadableState<T>,
    t: ReadableState<T>,
    value: Box<T>,
)
    requires
        s.wf(),
        s.settled(),
        t.wf(),
        t.settled(),
        t.value() == *value,
        after.received() == before.received().push(value),
        after.dropped() == before.dropped(),
    ensures
        forall|out: Multiset<Box<T>>|
            #![trigger before.balanced(held_in(s.boxes).to_multiset(), out)]
            before.balanced(held_in(s.boxes).to_multiset(), out) ==> after.balanced(
                held_in(t.boxes).to_multiset(),
                out.insert(Box::new(s.value())),
            ),
{
    lemma_one_box(s);
    lemma_one_box(t);
    before.received().to_multiset_ensures();
    assert forall|out: Multiset<Box<T>>|
        #![trigger before.balanced(held_in(s.boxes).to_multiset(), out)]
        before.balanced(held_in(s.boxes).to_multiset(), out) implies after.balanced(
        held_in(t.boxes).to_multiset(),
        out.insert(Box::new(s.value())),
    ) by {
        assert(after.received().to_multiset() =~= after.dropped().to_multiset().add(
            held_in(t.boxes).to_multiset(),
        ).add(out.insert(Box::new(s.value()))));
    }
}

/// Dropping a box that has been handed back loses nothing.
pub(crate) proof fn lemma_dropped<T>(
    before: Ledger<Box<T>>,
    after: Ledger<Box<T>>,
    s: ReadableState<T>,
    value: Box<T>,
)
    requires
        after.received() == before.received(),
        after.dropped() == before.dropped().push(value),
        gone(value),
    ensures
        forall|out: Multiset<Box<T>>|
            before.balanced(held_in(s.boxes).to_multiset(), #[trigger] out.insert(value))
                ==> after.balanced(held_in(s.boxes).to_multiset(), out),
{
    before.dropped().to_multiset_ensures();
    assert forall|out: Multiset<Box<T>>|
        before.balanced(
            held_in(s.boxes).to_multiset(),
            #[trigger] out.insert(value),
        ) implies after.balanced(held_in(s.boxes).to_multiset(), out) by {
        assert(after.received().to_multiset() =~= after.dropped().to_multiset().add(
            held_in(s.boxes).to_multiset(),
        ).add(out));
        assert forall|i: int| 0 <= i < after.dropped().len() implies gone(
            #[trigger] after.dropped()[i],
        ) by {
            if i < before.dropped().len() {
                assert(gone(before.dropped()[i]));
            }
        }
    }
}

/// Emptying the memory, where the box in it is dropped, loses nothing.
pub(crate) proof fn lemma_emptied<T>(
    before: Ledger<Box<T>>,
    after: Ledger<Box<T>>,
    s: ReadableState<T>,
    emptied: Seq<Option<Box<T>>>,
)
    requires
        s.wf(),
        s.settled(),
        emptied == seq![None::<Box<T>>, None::<Box<T>>],
        after.received() == before.received(),
        after.dropped() == before.dropped().push(Box::new(s.value())),
        gone(Box::new(s.value())),
    ensures
        forall|out: Multiset<Box<T>>|
            before.balanced(held_in(s.boxes).to_multiset(), out) ==> #[trigger] after.balanced(
                held_in(emptied).to_multiset(),
                out,
            ),
{
    let none = Seq::<Box<T>>::empty();
    lemma_one_box(s);
    reveal_with_fuel(held_in, 3);
    none.to_multiset_ensures();
    before.dropped().to_multiset_ensures();
    assert(held_in(emptied) =~= none);
    assert(none.to_multiset() =~= Multiset::empty());
    assert forall|out: Multiset<Box<T>>|
        before.balanced(held_in(s.boxes).to_multiset(), out) implies #[trigger] after.balanced(
        held_in(emptied).to_multiset(),
        out,
    ) by {
        assert(after.received().to_multiset() =~= after.dropped().to_multiset().add(
            held_in(emptied).to_multiset(),
        ).add(out));
        assert forall|i: int| 0 <= i < after.dropped().len() implies gone(
            #[trigger] after.dropped()[i],
        ) by {
            if i < before.dropped().len() {
                assert(gone(before.dropped()[i]));
            }
        }
    }
}

/// Between two writes, every value that has been set, but the one that is there and those that the
/// writer was handed back, has been dropped: a value that has been replaced by setting another is
/// gone.
pub proof fn law_replaced_values_are_dropped<T>(
    shared: Shared<T>,
    out: Multiset<Box<T>>,
    value: Box<T>,
)
    requires
        shared.wf(),
        shared@.settled(),
        shared.balanced(out),
        shared.ledger().received().contains(value),
    ensures
        ({
            ||| *value == shared@.value()
            ||| out.count(value) > 0
            ||| shared.ledger().dropped().contains(value) && gone(value)
        }),
        shared.ledger().received().len() == shared.ledger().dropped().len() + 1 + out.len(),
{
    let received = shared.ledger().received();
    let dropped = shared.ledger().dropped();
    lemma_one_box(shared@);
    received.to_multiset_ensures();
    dropped.to_multiset_ensures();
    assert(received.to_multiset().count(value) > 0);
    if dropped.contains(value) {
        let i = choose|i: int| 0 <= i < dropped.len() && dropped[i] == value;
        assert(gone(dropped[i]));
    }
}

/// Once the memory has been dropped, so has every value that was ever set, each of them once, but
/// for those that the writer was handed back.
pub proof fn law_every_value_is_dropped_with_the_memory<T>(
    shared: Shared<T>,
    out: Multiset<Box<T>>,
)
    requires
        shared.balanced(out),
        shared@.boxes == seq![None::<Box<T>>, None::<Box<T>>],
    ensures
        shared.ledger().received().to_multiset()
            == shared.ledger().dropped().to_multiset().add(out),
        forall|i: int|
            0 <= i < shared.ledger().dropped().len() ==> gone(
                #[trigger] shared.ledger().dropped()[i],
            ),
{
    reveal_with_fuel(held_in, 3);
    let none = Seq::<Box<T>>::empty();
    none.to_multiset_ensures();
    assert(held_in(shared@.boxes) =~= none);
    assert(none.to_multiset() =~= Multiset::empty());
    assert(shared.ledger().received().to_multiset()
        =~= shared.ledger().dropped().to_multiset().add(out));
}

/// An update replaces the value by what the updater makes of it: where the updater computes `f`,
/// and cloning the value gives that value, the new value is `f` of the old one, and it is the only
/// one that the memory is given.
pub proof fn law_update_applies_the_updater<T, F>(
    before: Shared<T>,
    after: Shared<T>,
    updater: F,
    f: spec_fn(T) -> T,
) where T: Clone, F: FnOnce(T) -> T
    requires
        exists|value: T, updated: T|
            {
                &&& cloned(before@.value(), value)
                &&& #[trigger] call_ensures(updater, (value,), updated)
                &&& after@.value() == updated
                &&& after.ledger().received() == before.ledger().received().push(Box::new(updated))
            },
        forall|value: T, updated: T| #[trigger]
            call_ensures(updater, (value,), updated) ==> updated == f(value),
        forall|value: T| #[trigger] cloned(before@.value(), value) ==> value == before@.value(),
    ensures
        after@.value() == f(before@.value()),
        after.ledger().received() == before.ledger().received().push(
            Box::new(f(before@.value())),
        ),
{
}

} // verus!

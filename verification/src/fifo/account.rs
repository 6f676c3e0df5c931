//! What becomes of the elements that go into a FIFO.

use crate::fifo::ring::{lemma_ring_size, ring_size};
use crate::fifo::state::{lemma_slot_in_ring, FifoState};
use crate::fifo::Shared;
use crate::ledger::{gone, held_in, lemma_held_in};
use vstd::prelude::*;
use vstd::seq_lib::lemma_multiset_commutative;

verus! {

/// What is in the FIFO is what went in, without what has come out, in the same order. What has been
/// dropped is what went in first: only elements that have come out, and all but the last round of
/// those that went in.
pub proof fn law_elements_are_kept_for_a_round<T, const N: usize>(shared: Shared<T, N>)
    requires
        shared.wf(),
        shared.recorded(),
    ensures
        shared@.contents() == shared.ledger().received().skip(shared@.head as int),
        shared.ledger().dropped().len() <= shared@.head <= shared.ledger().received().len(),
        shared.ledger().dropped().is_prefix_of(shared.ledger().received()),
        shared.ledger().dropped().len() == if shared.ledger().received().len() > ring_size(
            N as nat,
        ) {
            shared.ledger().received().len() - ring_size(N as nat)
        } else {
            0
        },
        forall|i: int|
            0 <= i < shared.ledger().dropped().len() ==> gone(
                #[trigger] shared.ledger().received()[i],
            ),
{
    lemma_ring_size(N as nat);
    let received = shared.ledger().received();
    let dropped = shared.ledger().dropped();
    assert forall|i: int| 0 <= i < shared@.contents().len() implies shared@.contents()[i]
        == received.skip(shared@.head as int)[i] by {
        let c = (shared@.head + i) as nat;
        assert(shared@.slot(c) == Some(received[c as int]));
    }
    assert(shared@.contents() =~= received.skip(shared@.head as int));
    assert forall|i: int| 0 <= i < dropped.len() implies gone(#[trigger] received[i]) by {
        assert(gone(dropped[i]));
    }
}

/// A push into a FIFO that `k` elements have gone into drops the element that went in a whole round
/// before, which has come out, and no other, however many rounds there have been. In the first
/// round, it drops none.
pub proof fn law_push_drops_the_element_of_a_round_before<T, const N: usize>(
    before: Shared<T, N>,
    after: Shared<T, N>,
    value: T,
)
    requires
        before.wf(),
        before.recorded(),
        before@.contents().len() < N,
        after.wf(),
        after.recorded(),
        after.ledger().received() == before.ledger().received().push(value),
    ensures
        ({
            let k = before.ledger().received().len();
            let size = ring_size(N as nat);
            if k >= size {
                let element = before.ledger().received()[k - size];
                &&& k - size < before@.head
                &&& after.ledger().dropped() == before.ledger().dropped().push(element)
                &&& gone(element)
            } else {
                after.ledger().dropped() == before.ledger().dropped()
            }
        }),
{
    lemma_ring_size(N as nat);
    let k = before.ledger().received().len();
    let size = ring_size(N as nat);
    if k >= size {
        let element = before.ledger().received()[k - size];
        assert(after.ledger().dropped() =~= before.ledger().dropped().push(element));
        assert(gone(after.ledger().dropped()[k - size]));
    } else {
        assert(after.ledger().dropped() =~= before.ledger().dropped());
    }
}

/// The elements in the slots, in the order of the slots, are those of the last round: first those
/// since the ring last began anew, then the others.
pub(crate) proof fn lemma_round<T>(
    s: FifoState<T>,
    n: nat,
    received: Seq<T>,
    dropped: Seq<T>,
)
    requires
        s.wf(n),
        s.settled(),
        s.accounts_for(received, dropped),
    ensures
        (dropped + held_in(s.slots)).to_multiset() == received.to_multiset(),
{
    lemma_ring_size(n);
    let size = s.slots.len();
    let k = s.tail;
    if k <= size {
        assert forall|i: int| 0 <= i < size implies #[trigger] s.slots[i] == if i < received.len() {
            Some(received[i])
        } else {
            None
        } by {
            if i < k {
                lemma_slot_in_ring(s, n, i as nat);
                assert(s.slot(i as nat) == Some(received[i]));
            }
        }
        lemma_held_in(s.slots, received);
        assert(dropped + received =~= received);
    } else {
        let r = k % size;
        let q = k / size;
        vstd::arithmetic::div_mod::lemma_fundamental_div_mod(k as int, size as int);
        vstd::arithmetic::mul::lemma_mul_is_commutative(size as int, q as int);
        vstd::arithmetic::mul::lemma_mul_is_distributive_sub(size as int, q as int, 1);
        let newer = received.subrange(k - r, k as int);
        let older = received.subrange(k - size, k - r);
        assert forall|i: int| 0 <= i < size implies #[trigger] s.slots[i] == if i < (newer
            + older).len() {
            Some((newer + older)[i])
        } else {
            None
        } by {
            let c: int = if i < r {
                k - r + i
            } else {
                k - r - size + i
            };
            let turns: int = if i < r {
                q as int
            } else {
                q - 1
            };
            assert(c == i + size * turns);
            vstd::arithmetic::div_mod::lemma_mod_multiples_vanish(turns, i, size as int);
            vstd::arithmetic::div_mod::lemma_small_mod(i as nat, size);
            assert(s.slot(c as nat) == Some(received[c]));
        }
        lemma_held_in(s.slots, newer + older);
        assert(received =~= dropped + (older + newer));
        lemma_multiset_commutative(dropped, newer + older);
        lemma_multiset_commutative(dropped, older + newer);
        lemma_multiset_commutative(newer, older);
        lemma_multiset_commutative(older, newer);
        assert((newer + older).to_multiset() =~= (older + newer).to_multiset());
    }
}

/// Once the memory has been dropped, so has every element that ever went in, each of them once,
/// whether it had come out or not.
pub proof fn law_every_element_is_dropped_with_the_memory<T, const N: usize>(
    before: Shared<T, N>,
    after: Shared<T, N>,
)
    requires
        before.wf(),
        before@.settled(),
        before.recorded(),
        after.ledger().received() == before.ledger().received(),
        after.ledger().dropped() == before.ledger().dropped() + held_in(before@.slots),
        forall|i: int|
            0 <= i < held_in(before@.slots).len() ==> gone(#[trigger] held_in(before@.slots)[i]),
    ensures
        after.ledger().dropped().to_multiset() == after.ledger().received().to_multiset(),
        forall|i: int|
            0 <= i < after.ledger().received().len() ==> gone(
                #[trigger] after.ledger().received()[i],
            ),
{
    let received = before.ledger().received();
    let dropped = after.ledger().dropped();
    lemma_round(before@, N as nat, received, before.ledger().dropped());
    assert forall|i: int| 0 <= i < received.len() implies gone(#[trigger] received[i]) by {
        received.to_multiset_ensures();
        dropped.to_multiset_ensures();
        assert(received.contains(received[i]));
        assert(dropped.to_multiset().count(received[i]) > 0);
        assert(dropped.contains(received[i]));
        let j = choose|j: int| 0 <= j < dropped.len() && dropped[j] == received[i];
        if j < before.ledger().dropped().len() {
            assert(gone(before.ledger().dropped()[j]));
        } else {
            assert(gone(held_in(before@.slots)[j - before.ledger().dropped().len()]));
        }
    }
}

} // verus!

//! What the memory of a FIFO holds, and what each access does to it.

use crate::fifo::ring::{lemma_distinct_slots, lemma_ring_size, ring_size};
use vstd::prelude::*;

verus! {

/// What the memory of a FIFO holds.
///
/// `head` counts the elements that have come out and `tail` those that have gone in.
/// `cached_head` and `cached_tail` are what the producer and the consumer last saw of the other's
/// cursor. The element counted next by a cursor `c` is in slot `c % slots.len()`.
pub struct FifoState<T> {
    pub slots: Seq<Option<T>>,
    pub head: nat,
    pub tail: nat,
    pub cached_head: nat,
    pub cached_tail: nat,
}

impl<T> FifoState<T> {
    /// The memory of a new FIFO of capacity `n`: a ring of slots with nothing in them.
    pub open spec fn new(n: nat) -> Self {
        FifoState {
            slots: Seq::new(ring_size(n), |i: int| None),
            head: 0,
            tail: 0,
            cached_head: 0,
            cached_tail: 0,
        }
    }

    /// What is in the slot that a cursor is at.
    pub open spec fn slot(self, cursor: nat) -> Option<T> {
        self.slots[(cursor % self.slots.len()) as int]
    }

    /// The elements in the FIFO, the one that went in first at the front.
    pub open spec fn contents(self) -> Seq<T> {
        Seq::new((self.tail - self.head) as nat, |i: int| self.slot((self.head + i) as nat)->0)
    }

    /// What every access keeps, in a FIFO of capacity `n`: the ring has as many slots as a FIFO
    /// of that capacity gets, no thread has seen a cursor before it got there, at most `n`
    /// elements have gone in that the producer has not seen come out, and the slots that an
    /// element has gone into since the start are those that hold one. The slot at the tail may
    /// already hold the element that goes in next.
    pub open spec fn wf(self, n: nat) -> bool {
        &&& self.slots.len() == ring_size(n)
        &&& self.cached_head <= self.head <= self.cached_tail <= self.tail
        &&& self.tail <= self.cached_head + n
        &&& forall|i: int| #![trigger self.slots[i]] 0 <= i < self.slots.len() ==> {
            &&& i < self.tail ==> self.slots[i] is Some
            &&& i > self.tail ==> self.slots[i] is None
        }
    }

    /// Nothing has been written at the tail that has not gone in yet: the producer is between
    /// two pushes.
    pub open spec fn settled(self) -> bool {
        self.tail < self.slots.len() ==> self.slots[self.tail as int] is None
    }

    /// The producer looks for room. If there is none by the head that it last saw, it looks at
    /// the head again and sees `seen`.
    pub open spec fn reserved(self, n: nat, seen: nat) -> Self {
        if self.tail - self.cached_head < n {
            self
        } else {
            FifoState { cached_head: seen, ..self }
        }
    }

    /// Whether there is room by the head that the producer last saw.
    pub open spec fn has_room(self, n: nat) -> bool {
        self.tail - self.cached_head < n
    }

    /// The producer writes an element at the tail.
    pub open spec fn written(self, value: T) -> Self {
        FifoState {
            slots: self.slots.update((self.tail % self.slots.len()) as int, Some(value)),
            ..self
        }
    }

    /// The producer moves the tail past the element that it has written: it has gone in.
    pub open spec fn published(self) -> Self {
        FifoState { tail: self.tail + 1, ..self }
    }

    /// The consumer looks for an element. If there is none by the tail that it last saw, it looks
    /// at the tail again and sees `seen`.
    pub open spec fn sought(self, seen: nat) -> Self {
        if self.head < self.cached_tail {
            self
        } else {
            FifoState { cached_tail: seen, ..self }
        }
    }

    /// Whether there is an element by the tail that the consumer last saw.
    pub open spec fn has_elements(self) -> bool {
        self.head < self.cached_tail
    }

    /// The consumer moves the head past the element that it has read: it has come out.
    pub open spec fn released(self) -> Self {
        FifoState { head: self.head + 1, ..self }
    }

    /// A push that found room: the producer reserves, writes and publishes, undisturbed.
    pub open spec fn pushed(self, n: nat, value: T) -> Self {
        self.reserved(n, self.head).written(value).published()
    }

    /// The cursor of the oldest element that is in a slot, when the producer is between two pushes.
    pub open spec fn oldest(self) -> int {
        if self.tail > self.slots.len() {
            self.tail - self.slots.len()
        } else {
            0
        }
    }

    /// These are the elements that have gone in, and those that have been dropped, when the
    /// producer is between two pushes: those that have been dropped are the first that went in,
    /// and the others are in their slots.
    pub open spec fn accounts_for(self, received: Seq<T>, dropped: Seq<T>) -> bool {
        &&& received.len() == self.tail
        &&& dropped == received.take(self.oldest())
        &&& forall|c: nat|
            self.oldest() <= c < self.tail ==> #[trigger] self.slot(c) == Some(received[c as int])
    }

    /// A pop that found an element: the consumer seeks and releases, undisturbed.
    pub open spec fn popped(self) -> Self {
        self.sought(self.tail).released()
    }
}

/// The slot at a cursor is a slot of the ring.
pub proof fn lemma_slot_in_ring<T>(s: FifoState<T>, n: nat, cursor: nat)
    requires
        s.wf(n),
    ensures
        0 <= cursor % s.slots.len() < s.slots.len(),
        cursor < s.slots.len() ==> cursor % s.slots.len() == cursor,
{
    lemma_ring_size(n);
    if cursor < s.slots.len() {
        vstd::arithmetic::div_mod::lemma_small_mod(cursor, s.slots.len());
    }
}

/// Every element in a FIFO is in its slot.
pub proof fn lemma_elements_in_slots<T>(s: FifoState<T>, n: nat, cursor: nat)
    requires
        s.wf(n),
        cursor < s.tail,
    ensures
        s.slot(cursor) is Some,
{
    lemma_slot_in_ring(s, n, cursor);
    let i = cursor % s.slots.len();
    assert(i <= cursor) by {
        vstd::arithmetic::div_mod::lemma_mod_decreases(cursor, s.slots.len());
    }
    assert(s.slots[i as int] is Some);
}

/// Looking for room keeps the memory well-formed and takes nothing out.
pub proof fn lemma_reserved_wf<T>(s: FifoState<T>, n: nat, seen: nat)
    requires
        s.wf(n),
        s.cached_head <= seen <= s.head,
    ensures
        s.reserved(n, seen).wf(n),
        s.reserved(n, seen).contents() == s.contents(),
        s.settled() ==> s.reserved(n, seen).settled(),
{
    assert(s.reserved(n, seen).contents() =~= s.contents());
}

/// Writing at the tail, where there is room, keeps the memory well-formed and does not touch the
/// elements in the FIFO.
pub proof fn lemma_written_wf<T>(s: FifoState<T>, n: nat, value: T)
    requires
        s.wf(n),
        s.has_room(n),
    ensures
        s.written(value).wf(n),
        s.written(value).contents() == s.contents(),
        s.written(value).slot(s.tail) == Some(value),
        forall|c: nat| s.head <= c < s.tail ==> #[trigger] s.written(value).slot(c) == s.slot(c),
{
    lemma_ring_size(n);
    let w = s.written(value);
    lemma_slot_in_ring(s, n, s.tail);
    vstd::arithmetic::div_mod::lemma_mod_decreases(s.tail, s.slots.len());
    assert forall|c: nat| s.head <= c < s.tail implies #[trigger] w.slot(c) == s.slot(c) by {
        lemma_slot_in_ring(s, n, c);
        lemma_distinct_slots(c, s.tail, s.slots.len());
    }
    assert(w.contents() =~= s.contents());
}

/// Moving the tail past an element that has been written puts that element in at the back.
pub proof fn lemma_published_wf<T>(s: FifoState<T>, n: nat, value: T)
    requires
        s.wf(n),
        s.has_room(n),
        s.slot(s.tail) == Some(value),
    ensures
        s.published().wf(n),
        s.published().settled(),
        s.published().contents() == s.contents().push(value),
{
    lemma_ring_size(n);
    let p = s.published();
    lemma_slot_in_ring(s, n, s.tail);
    assert(p.contents() =~= s.contents().push(value));
}

/// Looking for an element keeps the memory well-formed and takes nothing out.
pub proof fn lemma_sought_wf<T>(s: FifoState<T>, n: nat, seen: nat)
    requires
        s.wf(n),
        s.cached_tail <= seen <= s.tail,
    ensures
        s.sought(seen).wf(n),
        s.sought(seen).contents() == s.contents(),
        s.settled() ==> s.sought(seen).settled(),
{
    assert(s.sought(seen).contents() =~= s.contents());
}

/// Moving the head past an element takes that element out of the front.
pub proof fn lemma_released_wf<T>(s: FifoState<T>, n: nat)
    requires
        s.wf(n),
        s.has_elements(),
    ensures
        s.released().wf(n),
        s.settled() ==> s.released().settled(),
        s.contents().len() > 0,
        s.slot(s.head) == Some(s.contents().first()),
        s.released().contents() == s.contents().drop_first(),
{
    lemma_elements_in_slots(s, n, s.head);
    assert(s.contents().first() == s.slot(s.head)->0);
    assert(s.released().contents() =~= s.contents().drop_first());
}

/// What has gone in and what has been dropped stays accounted for when neither the slots nor the
/// tail change.
pub proof fn lemma_accounts_kept<T>(
    s: FifoState<T>,
    t: FifoState<T>,
    received: Seq<T>,
    dropped: Seq<T>,
)
    requires
        s.accounts_for(received, dropped),
        t.slots == s.slots,
        t.tail == s.tail,
    ensures
        t.accounts_for(received, dropped),
{
    assert forall|c: nat| t.oldest() <= c < t.tail implies #[trigger] t.slot(c) == Some(
        received[c as int],
    ) by {
        assert(s.slot(c) == Some(received[c as int]));
    }
}

/// A push that drops the element in the slot that it reuses keeps all elements accounted for. From
/// the second round on, that element is the one that went in a whole round before.
pub proof fn lemma_pushed_accounts<T>(
    s: FifoState<T>,
    n: nat,
    value: T,
    received: Seq<T>,
    dropped: Seq<T>,
)
    requires
        s.wf(n),
        s.contents().len() < n,
        s.accounts_for(received, dropped),
    ensures
        s.tail < s.slots.len() ==> s.pushed(n, value).accounts_for(received.push(value), dropped),
        s.tail >= s.slots.len() ==> {
            &&& s.slot(s.tail) == Some(received[s.tail - s.slots.len()])
            &&& s.pushed(n, value).accounts_for(
                received.push(value),
                dropped.push(s.slot(s.tail)->0),
            )
        },
{
    lemma_ring_size(n);
    let size = s.slots.len();
    let r = s.reserved(n, s.head);
    lemma_reserved_wf(s, n, s.head);
    lemma_written_wf(r, n, value);
    lemma_slot_in_ring(s, n, s.tail);
    let p = s.pushed(n, value);
    assert forall|c: nat| p.oldest() <= c < p.tail implies #[trigger] p.slot(c) == Some(
        received.push(value)[c as int],
    ) by {
        lemma_slot_in_ring(s, n, c);
        if c < s.tail {
            lemma_distinct_slots(c, s.tail, size);
            assert(s.slot(c) == Some(received[c as int]));
        }
    }
    if s.tail >= size {
        let c = (s.tail - size) as nat;
        assert(s.slot(c) == Some(received[c as int]));
        assert(s.tail % size == c % size) by {
            vstd::arithmetic::div_mod::lemma_mod_add_multiples_vanish(c as int, size as int);
        }
        assert(dropped.push(received[c as int]) =~= received.push(value).take(p.oldest()));
    } else {
        assert(dropped =~= received.push(value).take(p.oldest()));
    }
}

} // verus!

//! A bounded, single-producer, single-consumer FIFO for a real-time consumer.
//!
//! An element that has come out stays where it is until the producer reuses its slot, so that it
//! is never dropped on the consumer's thread.

pub mod account;
pub mod cursor;
pub mod ring;
pub mod schedule;
pub mod state;

pub use cursor::{
    advance, elements_to_drop, has_elements, has_room, index, size, wrapped, AtomicCursor,
    AtomicHead, AtomicTail, CachedCursor, CachedHead, CachedTail, Cursor, Head, HeadRole, Tail,
    TailRole,
};

use crate::backoff::{raised, Backoff, YIELD_LIMIT};
use crate::fifo::account::law_every_element_is_dropped_with_the_memory;
use crate::fifo::ring::{
    lemma_ring_size, lemma_ring_size_bound, lemma_ring_size_fits, lemma_ring_size_unique, ring_size,
};
use crate::fifo::state::{
    lemma_accounts_kept, lemma_published_wf, lemma_pushed_accounts, lemma_released_wf,
    lemma_reserved_wf, lemma_slot_in_ring, lemma_sought_wf, lemma_written_wf, FifoState,
};
use crate::ledger::{gone, held_in, lemma_held_in, Ledger};
use crate::PhantomUnsync;
use std::marker::PhantomData;
use vstd::arithmetic::power2::is_pow2;
use vstd::prelude::*;

verus! {

/// Whether `size` values of type `T` can be in one allocation.
pub open spec fn allocatable<T>(size: nat) -> bool {
    &&& size <= usize::MAX
    &&& size * vstd::layout::size_of::<T>() <= isize::MAX
}

/// Whether the memory of a FIFO of capacity `n` can be allocated: its ring can. That is so in any
/// case if one more than twice as many slots could.
pub open spec fn fits<T>(n: nat) -> bool {
    allocatable::<T>(2 * n + 1) || allocatable::<T>(ring_size(n))
}

/// The ring of a FIFO whose memory can be allocated can be allocated.
proof fn lemma_fits<T>(n: nat)
    requires
        fits::<T>(n),
    ensures
        allocatable::<T>(ring_size(n)),
{
    lemma_ring_size_bound(n);
    let bytes = vstd::layout::size_of::<T>();
    let size = ring_size(n);
    assert(size * bytes <= (2 * n + 1) * bytes) by (nonlinear_arith)
        requires
            size <= 2 * n + 1,
            bytes >= 0,
    ;
}

/// Whether `size` values of type `T` can be laid out one after the other in one allocation.
pub fn layout_fits<T>(size: usize) -> (result: bool)
    ensures
        result == (size * vstd::layout::size_of::<T>() <= isize::MAX),
{
    match size.checked_mul(std::mem::size_of::<T>()) {
        Some(bytes) => bytes <= isize::MAX as usize,
        None => false,
    }
}

/// The size and the alignment, in bytes, of `size` values of type `T` laid out one after the
/// other.
pub fn layout_for<T>(size: usize) -> (layout: (usize, usize))
    requires
        size * vstd::layout::size_of::<T>() <= isize::MAX,
    ensures
        layout.0 == size * vstd::layout::size_of::<T>(),
        layout.1 == vstd::layout::align_of::<T>(),
{
    (size * std::mem::size_of::<T>(), std::mem::align_of::<T>())
}

/// A ring of slots for the elements of a FIFO of capacity `N`.
///
/// The slots are filled one after the other, so that those that hold an element are the first
/// ones. Only the elements take up memory: there is as much of it as `size` of them need.
pub struct Buffer<T, const N: usize> {
    elements: Vec<T>,
    size: usize,
    ledger: Ledger<T>,
}

impl<T, const N: usize> View for Buffer<T, N> {
    type V = Seq<Option<T>>;

    closed spec fn view(&self) -> Seq<Option<T>> {
        Seq::new(
            self.size as nat,
            |i: int|
                if i < self.elements@.len() {
                    Some(self.elements@[i])
                } else {
                    None
                },
        )
    }
}

impl<T, const N: usize> Buffer<T, N> {
    /// The elements that have been put in the ring, and those that have been dropped.
    pub closed spec fn ledger(self) -> Ledger<T> {
        self.ledger
    }

    /// The ring has as many slots as a FIFO of this capacity gets.
    pub open spec fn wf(self) -> bool {
        self@.len() == ring_size(N as nat)
    }

    /// The number of slots in the ring.
    pub fn size() -> (size: usize)
        requires
            N <= usize::MAX / 2 + 1,
        ensures
            size == ring_size(N as nat),
            is_pow2(size as int),
    {
        proof {
            lemma_ring_size(N as nat);
            lemma_ring_size_fits(N as nat);
        }
        let size: usize = usize::next_power_of_two(N);
        proof {
            lemma_ring_size_unique(N as nat, size as int);
        }
        size
    }

    /// A ring with nothing in its slots.
    pub fn new() -> (buffer: Self)
        requires
            fits::<T>(N as nat),
        ensures
            buffer.wf(),
            buffer@ == Seq::new(ring_size(N as nat), |i: int| None::<T>),
            buffer.ledger().received() == Seq::<T>::empty(),
            buffer.ledger().dropped() == Seq::<T>::empty(),
    {
        proof {
            lemma_fits::<T>(N as nat);
            lemma_ring_size_fits(N as nat);
        }
        let size: usize = Self::size();
        let buffer = Buffer { elements: Vec::with_capacity(size), size, ledger: Ledger::new() };
        assert(buffer@ =~= Seq::new(ring_size(N as nat), |i: int| None::<T>));
        buffer
    }

    /// The element in a slot, if it holds one.
    pub fn at(&self, index: usize) -> (slot: Option<&T>)
        requires
            index < self@.len(),
        ensures
            self@[index as int] == match slot {
                Some(element) => Some(*element),
                None => None,
            },
    {
        if index < self.elements.len() {
            Some(&self.elements[index])
        } else {
            None
        }
    }

    /// The slot that a cursor is at.
    pub fn index<Role>(&self, cursor: Cursor<Role>) -> (slot: usize)
        requires
            self.wf(),
        ensures
            slot == cursor.0 as nat % self@.len(),
            slot < self@.len(),
    {
        proof {
            lemma_ring_size(N as nat);
        }
        index(cursor, self.size)
    }

    /// The element in the slot that a cursor is at, if it holds one.
    pub fn get<Role>(&self, cursor: Cursor<Role>) -> (slot: Option<&T>)
        requires
            self.wf(),
        ensures
            self@[(cursor.0 as nat % self@.len()) as int] == match slot {
                Some(element) => Some(*element),
                None => None,
            },
    {
        self.at(self.index(cursor))
    }

    /// Whether a cursor has been all the way round the ring.
    pub fn has_wrapped<Role>(&self, cursor: Cursor<Role>) -> (round: bool)
        requires
            self.wf(),
        ensures
            round == (cursor.0 >= self@.len()),
    {
        wrapped(cursor, self.size)
    }

    /// Puts an element in a slot, where all slots before it hold one, and returns the element that
    /// was there.
    pub fn replace(&mut self, index: usize, element: T) -> (previous: Option<T>)
        requires
            index < old(self)@.len(),
            forall|i: int| 0 <= i < index ==> #[trigger] old(self)@[i] is Some,
        ensures
            previous == old(self)@[index as int],
            final(self)@ == old(self)@.update(index as int, Some(element)),
            final(self).ledger().received() == old(self).ledger().received().push(element),
            final(self).ledger().dropped() == old(self).ledger().dropped(),
    {
        self.ledger.receive(&element);
        if index < self.elements.len() {
            let mut previous: T = element;
            std::mem::swap(&mut self.elements[index], &mut previous);
            assert(self@ =~= old(self)@.update(index as int, Some(element)));
            Some(previous)
        } else {
            assert(index == self.elements@.len()) by {
                if index > self.elements@.len() {
                    assert(self@[self.elements@.len() as int] is Some);
                }
            }
            self.elements.push(element);
            assert(self@ =~= old(self)@.update(index as int, Some(element)));
            None
        }
    }

    /// Drops the element in each slot that holds one, the first slot first.
    pub fn clear(&mut self)
        ensures
            final(self)@ == Seq::new(old(self)@.len(), |i: int| None::<T>),
            final(self).ledger().received() == old(self).ledger().received(),
            final(self).ledger().dropped() == old(self).ledger().dropped() + held_in(old(self)@),
            forall|i: int|
                0 <= i < held_in(old(self)@).len() ==> gone(#[trigger] held_in(old(self)@)[i]),
    {
        let mut elements: Vec<T> = Vec::new();
        std::mem::swap(&mut self.elements, &mut elements);
        elements.truncate(self.size);
        let ghost held = elements@;
        proof {
            lemma_held_in(old(self)@, held);
        }
        for element in it: elements.into_iter()
            invariant
                it.seq() == held,
                self.elements@.len() == 0,
                self.size == old(self).size,
                self.ledger.received() == old(self).ledger.received(),
                self.ledger.dropped() == old(self).ledger.dropped() + held.take(it.index()),
                forall|i: int| 0 <= i < it.index() ==> gone(#[trigger] held[i]),
        {
            self.ledger.discard(element);
            assert(held.take(it.index() + 1) =~= held.take(it.index()).push(element));
        }
        assert(held.take(held.len() as int) =~= held);
        assert(self@ =~= Seq::new(old(self)@.len(), |i: int| None::<T>));
    }

    /// Drops an element that has been taken out of its slot.
    pub fn discard(&mut self, element: T)
        ensures
            final(self)@ == old(self)@,
            final(self).ledger().received() == old(self).ledger().received(),
            final(self).ledger().dropped() == old(self).ledger().dropped().push(element),
            gone(element),
    {
        self.ledger.discard(element);
    }
}

/// Moving the cursor of one role.
trait SetCursor<Role> {
    /// Moves the cursor that both threads access.
    fn set(&mut self, cursor: Cursor<Role>);

    /// Replaces what the other thread last saw of it.
    fn set_cached(&mut self, cursor: Cursor<Role>);
}

/// Reading the cursor of one role.
pub trait GetCursor<Role> {
    /// The cursor that both threads access.
    spec fn current(&self) -> nat;

    /// What the other thread last saw of it.
    spec fn cached(&self) -> nat;

    /// Reads the cursor that both threads access.
    fn get(&self) -> (cursor: Cursor<Role>)
        ensures
            cursor.0 == self.current(),
    ;

    /// Reads what the other thread last saw of it.
    fn get_cached(&self) -> (cursor: Cursor<Role>)
        ensures
            cursor.0 == self.cached(),
    ;
}

/// The memory of a FIFO of capacity `N`, which the producer and the consumer share.
pub struct Shared<T, const N: usize> {
    buffer: Buffer<T, N>,
    atomic_head: AtomicHead,
    cached_tail: CachedTail,
    cached_head: CachedHead,
    atomic_tail: AtomicTail,
}

impl<T, const N: usize> View for Shared<T, N> {
    type V = FifoState<T>;

    closed spec fn view(&self) -> FifoState<T> {
        FifoState {
            slots: self.buffer@,
            head: self.atomic_head@.0 as nat,
            tail: self.atomic_tail@.0 as nat,
            cached_head: self.cached_head@.0 as nat,
            cached_tail: self.cached_tail@.0 as nat,
        }
    }
}

impl<T, const N: usize> Shared<T, N> {
    /// The elements that the memory has been given, and those that have been dropped.
    pub closed spec fn ledger(self) -> Ledger<T> {
        self.buffer.ledger()
    }

    /// Every element that has gone in is in its slot or has been dropped, the first ones first.
    pub open spec fn recorded(self) -> bool {
        &&& self@.accounts_for(self.ledger().received(), self.ledger().dropped())
        &&& forall|i: int|
            0 <= i < self.ledger().dropped().len() ==> gone(#[trigger] self.ledger().dropped()[i])
    }
}

impl<T, const N: usize> SetCursor<HeadRole> for Shared<T, N> {
    fn set(&mut self, cursor: Head)
        ensures
            final(self)@ == (FifoState { head: cursor.0 as nat, ..old(self)@ }),
            final(self).ledger() == old(self).ledger(),
    {
        self.atomic_head.store(cursor);
    }

    fn set_cached(&mut self, cursor: Head)
        ensures
            final(self)@ == (FifoState { cached_head: cursor.0 as nat, ..old(self)@ }),
            final(self).ledger() == old(self).ledger(),
    {
        self.cached_head.set(cursor);
    }
}

impl<T, const N: usize> SetCursor<TailRole> for Shared<T, N> {
    fn set(&mut self, cursor: Tail)
        ensures
            final(self)@ == (FifoState { tail: cursor.0 as nat, ..old(self)@ }),
            final(self).ledger() == old(self).ledger(),
    {
        self.atomic_tail.store(cursor);
    }

    fn set_cached(&mut self, cursor: Tail)
        ensures
            final(self)@ == (FifoState { cached_tail: cursor.0 as nat, ..old(self)@ }),
            final(self).ledger() == old(self).ledger(),
    {
        self.cached_tail.set(cursor);
    }
}

impl<T, const N: usize> GetCursor<HeadRole> for Shared<T, N> {
    open spec fn current(&self) -> nat {
        self@.head
    }

    open spec fn cached(&self) -> nat {
        self@.cached_head
    }

    fn get(&self) -> Head {
        self.atomic_head.load()
    }

    fn get_cached(&self) -> Head {
        self.cached_head.get()
    }
}

impl<T, const N: usize> GetCursor<TailRole> for Shared<T, N> {
    open spec fn current(&self) -> nat {
        self@.tail
    }

    open spec fn cached(&self) -> nat {
        self@.cached_tail
    }

    fn get(&self) -> Tail {
        self.atomic_tail.load()
    }

    fn get_cached(&self) -> Tail {
        self.cached_tail.get()
    }
}

impl<T, const N: usize> Shared<T, N> {
    /// What every access keeps.
    pub open spec fn wf(self) -> bool {
        self@.wf(N as nat)
    }

    /// The memory of a FIFO with nothing in it.
    pub fn new() -> (shared: Self)
        requires
            fits::<T>(N as nat),
        ensures
            shared.wf(),
            shared@.settled(),
            shared@ == FifoState::<T>::new(N as nat),
            shared@.contents() == Seq::<T>::empty(),
            shared.ledger().received() == Seq::<T>::empty(),
            shared.ledger().dropped() == Seq::<T>::empty(),
            shared.recorded(),
    {
        let shared = Shared {
            buffer: Buffer::new(),
            atomic_head: AtomicCursor::default(),
            cached_tail: CachedCursor::default(),
            cached_head: CachedCursor::default(),
            atomic_tail: AtomicCursor::default(),
        };
        assert(shared@.contents() =~= Seq::<T>::empty());
        assert(shared.ledger().dropped() =~= shared.ledger().received().take(0));
        shared
    }

    /// Drops every element that is in a slot, whether it has come out or not: those are the slots
    /// that the tail has been past.
    pub fn drop(&mut self)
        requires
            old(self).wf(),
            old(self)@.settled(),
        ensures
            forall|i: int|
                0 <= i < old(self)@.slots.len() ==> (#[trigger] old(self)@.slots[i] is Some <==> i
                    < old(self)@.tail),
            final(self)@.slots == Seq::new(old(self)@.slots.len(), |i: int| None::<T>),
            final(self)@ == (FifoState { slots: final(self)@.slots, ..old(self)@ }),
            final(self).ledger().received() == old(self).ledger().received(),
            final(self).ledger().dropped() == old(self).ledger().dropped() + held_in(
                old(self)@.slots,
            ),
            forall|i: int|
                0 <= i < held_in(old(self)@.slots).len() ==> gone(
                    #[trigger] held_in(old(self)@.slots)[i],
                ),
            old(self).recorded() ==> {
                &&& final(self).ledger().dropped().to_multiset()
                    == final(self).ledger().received().to_multiset()
                &&& forall|i: int|
                    0 <= i < final(self).ledger().received().len() ==> gone(
                        #[trigger] final(self).ledger().received()[i],
                    )
            },
    {
        self.buffer.clear();
        proof {
            if old(self).recorded() {
                law_every_element_is_dropped_with_the_memory(*old(self), *self);
            }
        }
    }
}

impl<T, const N: usize> Shared<T, N> {
    /// Drops an element that has been taken out of its slot.
    fn discard(&mut self, element: T)
        ensures
            final(self)@ == old(self)@,
            final(self).ledger().received() == old(self).ledger().received(),
            final(self).ledger().dropped() == old(self).ledger().dropped().push(element),
            gone(element),
    {
        self.buffer.discard(element);
    }
}

/// A handle for writing values to the FIFO.
pub struct Producer<T, const N: usize> {
    marker: PhantomData<T>,
    unsync: PhantomUnsync,
}

/// A handle for reading values from the FIFO.
pub struct Consumer<T, const N: usize> {
    marker: PhantomData<T>,
    unsync: PhantomUnsync,
}

/// Create a new FIFO with the given capacity.
///
/// This FIFO is optimised for a consumer running on a real-time thread.
/// Elements are not dropped when they are popped, instead they will be dropped
/// when they are overwritten by a later push, or when the buffer is dropped.
pub fn fifo<T, const N: usize>() -> (handles: (Shared<T, N>, Producer<T, N>, Consumer<T, N>))
    requires
        fits::<T>(N as nat),
    ensures
        handles.0.wf(),
        handles.0@.settled(),
        handles.0@ == FifoState::<T>::new(N as nat),
        handles.0@.contents() == Seq::<T>::empty(),
        handles.0.ledger().received() == Seq::<T>::empty(),
        handles.0.ledger().dropped() == Seq::<T>::empty(),
        handles.0.recorded(),
{
    (
        Shared::new(),
        Producer { marker: PhantomData, unsync: PhantomData },
        Consumer { marker: PhantomData, unsync: PhantomData },
    )
}

impl<T, const N: usize> Producer<T, N> {
    /// Push a value into the FIFO.
    ///
    /// If the FIFO is full, this method waits until there is space available. It is for a FIFO
    /// that the consumer has made room in: nothing else runs while it has the memory to itself,
    /// so that on a full FIFO it would never return. One round of its wait, on any FIFO, is
    /// [`Producer::push_or_wait`].
    pub fn push_blocking(&self, shared: &mut Shared<T, N>, value: T)
        requires
            old(shared).wf(),
            old(shared)@.settled(),
            old(shared)@.contents().len() < N,
            old(shared)@.tail < usize::MAX,
        ensures
            final(shared).wf(),
            final(shared)@.settled(),
            final(shared)@ == old(shared)@.pushed(N as nat, value),
            final(shared)@.contents() == old(shared)@.contents().push(value),
            final(shared).ledger().received() == old(shared).ledger().received().push(value),
            old(shared)@.tail < old(shared)@.slots.len() ==> final(shared).ledger().dropped()
                == old(shared).ledger().dropped(),
            old(shared)@.tail >= old(shared)@.slots.len() ==> {
                let element = old(shared)@.slot(old(shared)@.tail)->0;
                &&& final(shared).ledger().dropped() == old(shared).ledger().dropped().push(element)
                &&& gone(element)
            },
            old(shared).recorded() ==> final(shared).recorded(),
    {
        let mut backoff = Backoff::default();
        let mut value: T = value;
        let ghost given = value;
        loop
            invariant_except_break
                value == given,
                *shared == *old(shared),
            invariant
                old(shared).wf(),
                old(shared)@.settled(),
                old(shared)@.contents().len() < N,
                old(shared)@.tail < usize::MAX,
            ensures
                shared@ == old(shared)@.pushed(N as nat, given),
                shared@.contents() == old(shared)@.contents().push(given),
                shared.wf(),
                shared@.settled(),
                shared.ledger().received() == old(shared).ledger().received().push(given),
                old(shared)@.tail < old(shared)@.slots.len() ==> shared.ledger().dropped()
                    == old(shared).ledger().dropped(),
                old(shared)@.tail >= old(shared)@.slots.len() ==> {
                    let element = old(shared)@.slot(old(shared)@.tail)->0;
                    &&& shared.ledger().dropped() == old(shared).ledger().dropped().push(element)
                    &&& gone(element)
                },
                old(shared).recorded() ==> shared.recorded(),
            decreases 0int,
        {
            match self.push_or_wait(shared, value, &mut backoff) {
                Ok(()) => {
                    break;
                },
                Err(value_failed_to_push) => {
                    value = value_failed_to_push;
                },
            }
        }
    }

    /// Push a value into the FIFO.
    ///
    /// If the FIFO is full, this method waits for a while, and then returns the value to the
    /// caller, who can try again with it.
    pub fn push_or_wait(
        &self,
        shared: &mut Shared<T, N>,
        value: T,
        backoff: &mut Backoff,
    ) -> (result: Result<(), T>)
        requires
            old(shared).wf(),
            old(shared)@.settled(),
            old(shared)@.contents().len() < N ==> old(shared)@.tail < usize::MAX,
        ensures
            final(shared).wf(),
            final(shared)@.settled(),
            old(shared)@.contents().len() < N ==> {
                &&& result == Ok::<(), T>(())
                &&& final(shared)@ == old(shared)@.pushed(N as nat, value)
                &&& final(shared)@.contents() == old(shared)@.contents().push(value)
                &&& final(shared).ledger().received() == old(shared).ledger().received().push(value)
                &&& old(shared)@.tail < old(shared)@.slots.len() ==>
                    final(shared).ledger().dropped() == old(shared).ledger().dropped()
                &&& old(shared)@.tail >= old(shared)@.slots.len() ==> {
                    let element = old(shared)@.slot(old(shared)@.tail)->0;
                    &&& final(shared).ledger().dropped() == old(shared).ledger().dropped().push(
                        element,
                    )
                    &&& gone(element)
                }
                &&& final(backoff).step() == old(backoff).step()
            },
            old(shared)@.contents().len() >= N ==> {
                &&& result == Err::<(), T>(value)
                &&& final(shared)@ == old(shared)@.reserved(N as nat, old(shared)@.head)
                &&& final(shared)@.contents() == old(shared)@.contents()
                &&& final(shared).ledger() == old(shared).ledger()
                &&& final(backoff).step() == raised(old(backoff).step(), YIELD_LIMIT)
            },
            old(shared).recorded() ==> final(shared).recorded(),
    {
        let result: Result<(), T> = self.push(shared, value);
        if result.is_err() {
            backoff.snooze();
        }
        result
    }

    /// Push a value into the FIFO.
    ///
    /// If the FIFO is full, this method will not block, and instead returns the
    /// value to the caller.
    pub fn push(&self, shared: &mut Shared<T, N>, value: T) -> (result: Result<(), T>)
        requires
            old(shared).wf(),
            old(shared)@.settled(),
            old(shared)@.contents().len() < N ==> old(shared)@.tail < usize::MAX,
        ensures
            final(shared).wf(),
            final(shared)@.settled(),
            old(shared)@.contents().len() < N ==> {
                &&& result == Ok::<(), T>(())
                &&& final(shared)@ == old(shared)@.pushed(N as nat, value)
                &&& final(shared)@.contents() == old(shared)@.contents().push(value)
                &&& final(shared).ledger().received() == old(shared).ledger().received().push(value)
                &&& old(shared)@.tail < old(shared)@.slots.len() ==>
                    final(shared).ledger().dropped() == old(shared).ledger().dropped()
                &&& old(shared)@.tail >= old(shared)@.slots.len() ==> {
                    let element = old(shared)@.slot(old(shared)@.tail)->0;
                    &&& final(shared).ledger().dropped() == old(shared).ledger().dropped().push(
                        element,
                    )
                    &&& gone(element)
                }
            },
            old(shared)@.contents().len() >= N ==> {
                &&& result == Err::<(), T>(value)
                &&& final(shared)@ == old(shared)@.reserved(N as nat, old(shared)@.head)
                &&& final(shared)@.contents() == old(shared)@.contents()
                &&& final(shared).ledger() == old(shared).ledger()
            },
            old(shared).recorded() ==> final(shared).recorded(),
    {
        proof {
            if shared@.contents().len() < N && shared.recorded() {
                lemma_pushed_accounts(
                    shared@,
                    N as nat,
                    value,
                    shared.ledger().received(),
                    shared.ledger().dropped(),
                );
            }
        }
        match self.reserve(shared) {
            None => Err(value),
            Some(tail) => {
                proof {
                    lemma_ring_size(N as nat);
                    lemma_slot_in_ring(shared@, N as nat, shared@.tail);
                }
                let reclaimed: Option<T> = self.write(shared, tail, value);
                if let Some(element) = reclaimed {
                    shared.discard(element);
                }
                self.publish(shared, tail);
                Ok(())
            },
        }
    }

    /// Looks for room in the FIFO, and returns the position that the next element goes to if
    /// there is.
    pub fn reserve(&self, shared: &mut Shared<T, N>) -> (position: Option<Tail>)
        requires
            old(shared).wf(),
        ensures
            final(shared).wf(),
            old(shared)@.settled() ==> final(shared)@.settled(),
            final(shared)@ == old(shared)@.reserved(N as nat, old(shared)@.head),
            final(shared)@.contents() == old(shared)@.contents(),
            position is Some <==> old(shared)@.contents().len() < N,
            position is Some <==> final(shared)@.has_room(N as nat),
            position is Some ==> (position->0).0 == old(shared)@.tail,
            final(shared).ledger() == old(shared).ledger(),
            old(shared).recorded() ==> final(shared).recorded(),
    {
        proof {
            lemma_reserved_wf(shared@, N as nat, shared@.head);
            if old(shared).recorded() {
                lemma_accounts_kept(
                    old(shared)@,
                    shared@.reserved(N as nat, shared@.head),
                    shared.ledger().received(),
                    shared.ledger().dropped(),
                );
            }
        }
        let tail: Tail = shared.get();
        let mut head: Head = shared.get_cached();
        if !has_room::<N>(head, tail) {
            head = shared.get();
            shared.set_cached(head);
        }
        if has_room::<N>(head, tail) {
            Some(tail)
        } else {
            None
        }
    }

    /// Writes a value to a position that there is room at, and returns the element from an
    /// earlier round that was there.
    pub fn write(&self, shared: &mut Shared<T, N>, tail: Tail, value: T) -> (reclaimed: Option<T>)
        requires
            old(shared).wf(),
            old(shared)@.has_room(N as nat),
            tail.0 == old(shared)@.tail,
        ensures
            final(shared).wf(),
            final(shared)@ == old(shared)@.written(value),
            final(shared)@.contents() == old(shared)@.contents(),
            final(shared)@.slot(old(shared)@.tail) == Some(value),
            reclaimed == old(shared)@.slot(old(shared)@.tail),
            final(shared).ledger().received() == old(shared).ledger().received().push(value),
            final(shared).ledger().dropped() == old(shared).ledger().dropped(),
    {
        proof {
            lemma_written_wf(shared@, N as nat, value);
        }
        let index: usize = shared.buffer.index(tail);
        assert forall|i: int| 0 <= i < index implies #[trigger] shared@.slots[i] is Some by {
            vstd::arithmetic::div_mod::lemma_mod_decreases(shared@.tail, shared@.slots.len());
        }
        shared.buffer.replace(index, value)
    }

    /// Moves the tail past the value that has been written, so that the consumer can see it.
    pub fn publish(&self, shared: &mut Shared<T, N>, tail: Tail)
        requires
            old(shared).wf(),
            old(shared)@.has_room(N as nat),
            old(shared)@.slot(old(shared)@.tail) is Some,
            tail.0 == old(shared)@.tail,
            tail.0 < usize::MAX,
        ensures
            final(shared).wf(),
            final(shared)@.settled(),
            final(shared)@ == old(shared)@.published(),
            final(shared)@.contents() == old(shared)@.contents().push(
                old(shared)@.slot(old(shared)@.tail)->0,
            ),
            final(shared).ledger() == old(shared).ledger(),
    {
        proof {
            lemma_published_wf(shared@, N as nat, shared@.slot(shared@.tail)->0);
        }
        shared.set(advance(tail));
    }
}

impl<T, const N: usize> Consumer<T, N> {
    /// Pop a value from the FIFO.
    pub fn pop(&self, shared: &mut Shared<T, N>) -> (value: Option<T>) where T: Copy
        requires
            old(shared).wf(),
        ensures
            final(shared).wf(),
            old(shared)@.settled() ==> final(shared)@.settled(),
            old(shared)@.contents().len() > 0 ==> {
                &&& value == Some(old(shared)@.contents().first())
                &&& final(shared)@ == old(shared)@.popped()
                &&& final(shared)@.contents() == old(shared)@.contents().drop_first()
            },
            old(shared)@.contents().len() == 0 ==> {
                &&& value is None
                &&& final(shared)@ == old(shared)@.sought(old(shared)@.tail)
                &&& final(shared)@.contents() == old(shared)@.contents()
            },
            final(shared).ledger() == old(shared).ledger(),
            old(shared).recorded() ==> final(shared).recorded(),
    {
        match self.pop_head_impl(shared) {
            Some(popped) => {
                let value: T = *popped.deref(shared);
                popped.drop(shared);
                Some(value)
            },
            None => None,
        }
    }

    /// Pop a value from the FIFO by reference.
    ///
    /// This method is useful when the elements in the FIFO do not implement
    /// `Copy`.
    pub fn pop_ref(&mut self, shared: &mut Shared<T, N>) -> (popped: Option<PopRef<'_, T, N>>)
        requires
            old(shared).wf(),
        ensures
            final(shared).wf(),
            old(shared)@.settled() ==> final(shared)@.settled(),
            final(shared)@ == old(shared)@.sought(old(shared)@.tail),
            final(shared)@.contents() == old(shared)@.contents(),
            popped is Some <==> old(shared)@.contents().len() > 0,
            popped is Some ==> popped->0.holds(final(shared)@),
            final(shared).ledger() == old(shared).ledger(),
            old(shared).recorded() ==> final(shared).recorded(),
    {
        self.pop_head_impl(shared)
    }

    /// Looks for an element in the FIFO, and returns a reference to the one at the front if there
    /// is.
    pub fn pop_head_impl(&self, shared: &mut Shared<T, N>) -> (popped: Option<PopRef<'_, T, N>>)
        requires
            old(shared).wf(),
        ensures
            final(shared).wf(),
            old(shared)@.settled() ==> final(shared)@.settled(),
            final(shared)@ == old(shared)@.sought(old(shared)@.tail),
            final(shared)@.contents() == old(shared)@.contents(),
            popped is Some <==> old(shared)@.contents().len() > 0,
            popped is Some ==> popped->0.holds(final(shared)@),
            final(shared).ledger() == old(shared).ledger(),
            old(shared).recorded() ==> final(shared).recorded(),
    {
        proof {
            lemma_sought_wf(shared@, N as nat, shared@.tail);
            if old(shared).recorded() {
                lemma_accounts_kept(
                    old(shared)@,
                    shared@.sought(shared@.tail),
                    shared.ledger().received(),
                    shared.ledger().dropped(),
                );
            }
        }
        let head: Head = shared.get();
        let mut tail: Tail = shared.get_cached();
        if !has_elements(head, tail) {
            tail = shared.get();
            shared.set_cached(tail);
        }
        if has_elements(head, tail) {
            Some(PopRef { head, consumer: self })
        } else {
            None
        }
    }
}

/// A reference to a value that has been popped from the FIFO.
///
/// The value stays at the front of the FIFO, where the producer does not touch it, until
/// [`PopRef::drop`] is called with the memory: a reference that merely goes out of scope leaves it
/// there.
pub struct PopRef<'a, T, const N: usize> {
    head: Head,
    consumer: &'a Consumer<T, N>,
}

impl<'a, T, const N: usize> PopRef<'a, T, N> {
    /// The position of the value that has been popped.
    pub closed spec fn position(self) -> nat {
        self.head.0 as nat
    }

    /// The reference is to the element at the front of this FIFO.
    pub open spec fn holds(self, s: FifoState<T>) -> bool {
        &&& self.position() == s.head
        &&& s.has_elements()
    }

    /// The value that has been popped.
    pub fn deref<'b>(&self, shared: &'b Shared<T, N>) -> (value: &'b T)
        requires
            shared.wf(),
            self.holds(shared@),
        ensures
            shared@.contents().len() > 0,
            *value == shared@.contents().first(),
    {
        proof {
            lemma_released_wf(shared@, N as nat);
        }
        shared.buffer.get(self.head).unwrap()
    }

    /// Moves the head past the value, so that the producer can reuse its slot.
    pub fn drop(self, shared: &mut Shared<T, N>)
        requires
            old(shared).wf(),
            self.holds(old(shared)@),
        ensures
            final(shared).wf(),
            old(shared)@.settled() ==> final(shared)@.settled(),
            final(shared)@ == old(shared)@.released(),
            final(shared)@.contents() == old(shared)@.contents().drop_first(),
            final(shared).ledger() == old(shared).ledger(),
            old(shared).recorded() ==> final(shared).recorded(),
    {
        proof {
            lemma_released_wf(shared@, N as nat);
            if old(shared).recorded() {
                lemma_accounts_kept(
                    old(shared)@,
                    shared@.released(),
                    shared.ledger().received(),
                    shared.ledger().dropped(),
                );
            }
        }
        shared.set(advance(self.head));
    }
}

} // verus!

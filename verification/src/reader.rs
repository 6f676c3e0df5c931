//! Read shared data on the real-time thread.
//!
//! The reader is offered the address of a box, which it takes while it reads and gives back
//! afterwards. The writer offers the address of a new box in exchange for that of the old one,
//! which it can only do while the reader has not taken it; the old box is then its own again.

pub mod account;
pub mod schedule;
pub mod state;

use crate::backoff::{raised, Backoff, SPIN_LIMIT};
use crate::ledger::{gone, held_in, Ledger};
use crate::reader::account::{lemma_dropped, lemma_emptied, lemma_new_balanced, lemma_swapped};
use crate::reader::state::{ReadableState, NULL};
use crate::word::Word;
use crate::PhantomUnsync;
use std::marker::PhantomData;
use vstd::multiset::Multiset;
use vstd::prelude::*;

verus! {

/// The memory of a readable value, which the writer and the reader share.
pub struct Shared<T> {
    boxes: [Option<Box<T>>; 2],
    storage: Word,
    live: Word,
    ledger: Ledger<Box<T>>,
}

impl<T> View for Shared<T> {
    type V = ReadableState<T>;

    closed spec fn view(&self) -> ReadableState<T> {
        ReadableState { boxes: self.boxes@, storage: self.storage@, live: self.live@ }
    }
}

impl<T> Shared<T> {
    /// The boxes that the memory has been given, and those that have been dropped.
    pub closed spec fn ledger(self) -> Ledger<Box<T>> {
        self.ledger
    }

    /// Every box that the memory has been given is in it, or among those that have been handed
    /// back, or has been dropped, and is so once.
    pub open spec fn balanced(self, out: Multiset<Box<T>>) -> bool {
        self.ledger().balanced(held_in(self@.boxes).to_multiset(), out)
    }

    /// What every access keeps.
    pub open spec fn wf(self) -> bool {
        self@.wf()
    }

    /// What is in the box at an address.
    pub fn get(&self, address: usize) -> (value: &T)
        requires
            1 <= address <= self@.boxes.len(),
            self@.at(address) is Some,
        ensures
            *value == *self@.at(address)->0,
    {
        &**self.boxes[address - 1].as_ref().unwrap()
    }

    /// Puts a box at an address, or takes it away, and returns the box that was there.
    fn replace(&mut self, address: usize, value: Option<Box<T>>) -> (previous: Option<Box<T>>)
        requires
            1 <= address <= old(self)@.boxes.len(),
        ensures
            previous == old(self)@.at(address),
            final(self)@ == (ReadableState {
                boxes: old(self)@.boxes.update(address - 1, value),
                ..old(self)@
            }),
            final(self).ledger() == old(self).ledger(),
    {
        let mut previous: Option<Box<T>> = value;
        std::mem::swap(&mut self.boxes[address - 1], &mut previous);
        previous
    }

    /// Drops the value.
    pub fn drop(&mut self)
        requires
            old(self).wf(),
            old(self)@.settled(),
        ensures
            final(self)@ == (ReadableState {
                boxes: seq![None::<Box<T>>, None::<Box<T>>],
                ..old(self)@
            }),
            final(self).ledger().received() == old(self).ledger().received(),
            final(self).ledger().dropped() == old(self).ledger().dropped().push(
                Box::new(old(self)@.value()),
            ),
            gone(Box::new(old(self)@.value())),
            forall|out: Multiset<Box<T>>|
                #![trigger old(self).balanced(out)]
                #![trigger final(self).balanced(out)]
                old(self).balanced(out) ==> final(self).balanced(out),
    {
        let address: usize = self.storage.load();
        let value: Option<Box<T>> = self.replace(address, None);
        assert(value is Some);
        self.ledger.discard(value.unwrap());
        assert(self@.boxes =~= seq![None::<Box<T>>, None::<Box<T>>]);
        proof {
            lemma_emptied(old(self).ledger(), self.ledger(), old(self)@, self@.boxes);
        }
    }
}

/// A shared value that can be read on the real-time thread without blocking.
pub struct RealtimeReader<T> {
    marker: PhantomData<T>,
    unsync: PhantomUnsync,
}

/// A shared value that can be mutated on a non-real-time thread.
pub struct LockingWriter<T> {
    marker: PhantomData<T>,
    unsync: PhantomUnsync,
}

/// A guard that allows reading the shared value on the real-time thread.
///
/// The value stays taken until [`RealtimeReadGuard::drop`] is called with the memory: a guard that
/// merely goes out of scope does not give it back.
pub struct RealtimeReadGuard<'a, T> {
    reader: &'a RealtimeReader<T>,
    value: usize,
}

/// Creates a shared value that can be read on the real-time thread without blocking.
pub fn realtime_reader<T>(value: T) -> (handles: (
    Shared<T>,
    LockingWriter<T>,
    RealtimeReader<T>,
)) where T: Send
    ensures
        handles.0.wf(),
        handles.0@.settled(),
        !handles.0@.locked(),
        handles.0@ == ReadableState::new(value),
        handles.0@.value() == value,
        handles.0.ledger().received() == seq![Box::new(value)],
        handles.0.ledger().dropped() == Seq::<Box<T>>::empty(),
        handles.0.balanced(Multiset::empty()),
{
    let value: Box<T> = Box::new(value);
    let mut ledger = Ledger::new();
    ledger.receive(&value);
    let shared = Shared {
        boxes: [Some(value), None],
        storage: Word::new(1),
        live: Word::new(1),
        ledger,
    };
    assert(shared@.boxes =~= ReadableState::new(*value).boxes);
    assert(shared.ledger().received() =~= seq![value]);
    proof {
        lemma_new_balanced(shared.ledger(), shared@);
    }
    (
        shared,
        LockingWriter { marker: PhantomData, unsync: PhantomData },
        RealtimeReader { marker: PhantomData, unsync: PhantomData },
    )
}

impl<T> RealtimeReader<T> {
    /// Read the shared value on the real-time thread.
    pub fn lock(&self, shared: &mut Shared<T>) -> (guard: RealtimeReadGuard<'_, T>)
        requires
            old(shared).wf(),
            !old(shared)@.locked(),
        ensures
            final(shared).wf(),
            old(shared)@.settled() ==> final(shared)@.settled(),
            final(shared)@ == old(shared)@.taken(),
            final(shared)@.value() == old(shared)@.value(),
            guard.address() == old(shared)@.live,
            guard.holds(final(shared)@),
            final(shared).ledger() == old(shared).ledger(),
    {
        let value: usize = shared.live.swap(NULL);
        RealtimeReadGuard { reader: self, value }
    }

    /// Clone the shared value and return it.
    ///
    /// The value is given back once it has been cloned, which it is not if cloning panics.
    pub fn get(&self, shared: &mut Shared<T>) -> (value: T) where T: Clone
        requires
            old(shared).wf(),
            !old(shared)@.locked(),
        ensures
            final(shared)@ == old(shared)@,
            cloned(*old(shared)@.at(old(shared)@.live)->0, value),
            final(shared).ledger() == old(shared).ledger(),
    {
        let guard = self.lock(shared);
        let value: T = guard.deref(shared).clone();
        guard.drop(shared);
        value
    }
}

impl<'a, T> RealtimeReadGuard<'a, T> {
    /// The address that the guard has taken.
    pub closed spec fn address(self) -> usize {
        self.value
    }

    /// The guard has taken the address of a box in this memory.
    pub open spec fn holds(self, s: ReadableState<T>) -> bool {
        &&& s.locked()
        &&& self.address() == 1 || self.address() == 2
        &&& s.at(self.address()) is Some
    }

    /// Gives the address back.
    pub fn drop(self, shared: &mut Shared<T>)
        requires
            old(shared).wf(),
            self.holds(old(shared)@),
        ensures
            final(shared).wf(),
            !final(shared)@.locked(),
            final(shared)@ == old(shared)@.given_back(self.address()),
            final(shared)@.value() == old(shared)@.value(),
            final(shared).ledger() == old(shared).ledger(),
    {
        shared.live.store(self.value);
    }

    /// The shared value.
    pub fn deref<'b>(&self, shared: &'b Shared<T>) -> (value: &'b T)
        requires
            shared.wf(),
            self.holds(shared@),
        ensures
            *value == *shared@.at(self.address())->0,
    {
        shared.get(self.value)
    }
}

impl<T> LockingWriter<T> {
    /// Set the value.
    pub fn set(&self, shared: &mut Shared<T>, value: T) where T: Send
        requires
            old(shared).wf(),
            old(shared)@.settled(),
            !old(shared)@.locked(),
        ensures
            final(shared).wf(),
            final(shared)@.settled(),
            !final(shared)@.locked(),
            final(shared)@ == old(shared)@.swapped(Box::new(value)),
            final(shared)@.value() == value,
            final(shared).ledger().received() == old(shared).ledger().received().push(
                Box::new(value),
            ),
            final(shared).ledger().dropped() == old(shared).ledger().dropped().push(
                Box::new(old(shared)@.value()),
            ),
            gone(Box::new(old(shared)@.value())),
            forall|out: Multiset<Box<T>>|
                #![trigger old(shared).balanced(out)]
                #![trigger final(shared).balanced(out)]
                old(shared).balanced(out) ==> final(shared).balanced(out),
    {
        let previous: Box<T> = self.swap(shared, Box::new(value));
        let ghost swapped = shared.ledger();
        shared.ledger.discard(previous);
        proof {
            lemma_dropped(swapped, shared.ledger(), shared@, previous);
        }
    }

    /// Update the value.
    ///
    /// The updater is called once, and is used up by that: a closure that changes what it has
    /// captured is left as one call leaves it.
    pub fn update(&self, shared: &mut Shared<T>, updater: impl FnOnce(T) -> T) where
        T: Clone + Send + Sync,

        requires
            old(shared).wf(),
            old(shared)@.settled(),
            !old(shared)@.locked(),
            forall|value: T| #[trigger]
                cloned(old(shared)@.value(), value) ==> call_requires(updater, (value,)),
        ensures
            final(shared).wf(),
            final(shared)@.settled(),
            !final(shared)@.locked(),
            exists|value: T, updated: T|
                {
                    &&& cloned(old(shared)@.value(), value)
                    &&& #[trigger] call_ensures(updater, (value,), updated)
                    &&& final(shared)@ == old(shared)@.swapped(Box::new(updated))
                    &&& final(shared)@.value() == updated
                    &&& final(shared).ledger().received() == old(shared).ledger().received().push(
                        Box::new(updated),
                    )
                },
            final(shared).ledger().dropped() == old(shared).ledger().dropped().push(
                Box::new(old(shared)@.value()),
            ),
            gone(Box::new(old(shared)@.value())),
            forall|out: Multiset<Box<T>>|
                #![trigger old(shared).balanced(out)]
                #![trigger final(shared).balanced(out)]
                old(shared).balanced(out) ==> final(shared).balanced(out),
    {
        let address: usize = shared.storage.load();
        let value: T = shared.get(address).clone();
        assert(cloned(shared@.value(), value));
        let updated: T = updater(value);
        self.set(shared, updated);
    }

    /// Update the value and return the previous value.
    ///
    /// If the reader has a guard, this method waits until it is dropped. It is for a memory that
    /// the reader has no guard on: nothing else runs while it has the memory to itself, so that
    /// it would otherwise never return. One round of its wait, on any memory, is
    /// [`LockingWriter::exchange_or_wait`].
    pub fn swap(&self, shared: &mut Shared<T>, value: Box<T>) -> (previous: Box<T>) where T: Send
        requires
            old(shared).wf(),
            old(shared)@.settled(),
            !old(shared)@.locked(),
        ensures
            final(shared).wf(),
            final(shared)@.settled(),
            !final(shared)@.locked(),
            final(shared)@ == old(shared)@.swapped(value),
            final(shared)@.value() == *value,
            *previous == old(shared)@.value(),
            final(shared).ledger().received() == old(shared).ledger().received().push(value),
            final(shared).ledger().dropped() == old(shared).ledger().dropped(),
            forall|out: Multiset<Box<T>>|
                #![trigger old(shared).balanced(out)]
                old(shared).balanced(out) ==> final(shared).balanced(out.insert(previous)),
    {
        let from: usize = self.current(shared);
        let to: usize = self.prepare(shared, value);
        let mut backoff = Backoff::default();
        let ghost prepared = shared@;
        let ghost recorded = shared.ledger();
        loop
            invariant_except_break
                shared@ == prepared,
            invariant
                shared.ledger() == recorded,
                from != NULL,
                1 <= to <= 2,
                prepared.wf(),
                prepared.at(to) is Some,
                prepared.live == from,
            ensures
                shared@ == prepared.exchanged(to),
            decreases 0int,
        {
            if self.exchange_or_wait(shared, from, to, &mut backoff) {
                break;
            }
        }
        let previous: Box<T> = self.finish(shared, from, to);
        proof {
            lemma_swapped(old(shared).ledger(), shared.ledger(), old(shared)@, shared@, value);
        }
        previous
    }

    /// The address of the value.
    pub fn current(&self, shared: &Shared<T>) -> (address: usize)
        ensures
            address == shared@.storage,
    {
        shared.storage.load()
    }

    /// Puts a value in a box of the writer's own, and returns its address.
    pub fn prepare(&self, shared: &mut Shared<T>, value: Box<T>) -> (address: usize)
        requires
            old(shared).wf(),
            old(shared)@.settled(),
        ensures
            final(shared).wf(),
            final(shared)@ == old(shared)@.prepared(value),
            final(shared)@.value() == old(shared)@.value(),
            final(shared)@.at(address) == Some(value),
            address == old(shared)@.spare(),
            final(shared).ledger().received() == old(shared).ledger().received().push(value),
            final(shared).ledger().dropped() == old(shared).ledger().dropped(),
    {
        let address: usize = if self.current(shared) == 1 {
            2
        } else {
            1
        };
        shared.ledger.receive(&value);
        let _ = shared.replace(address, Some(value));
        address
    }

    /// Tries to offer the reader the box at `to` in exchange for the one at `from`. It works if
    /// the reader is offered the one at `from` and has not taken it.
    pub fn try_exchange(&self, shared: &mut Shared<T>, from: usize, to: usize) -> (exchanged: bool)
        requires
            from != NULL,
            1 <= to <= 2,
            old(shared).wf(),
            old(shared)@.at(to) is Some,
        ensures
            final(shared).wf(),
            exchanged == (old(shared)@.live == from),
            final(shared)@ == if exchanged {
                old(shared)@.exchanged(to)
            } else {
                old(shared)@
            },
            final(shared).ledger() == old(shared).ledger(),
    {
        shared.live.compare_exchange(from, to).is_ok()
    }

    /// Tries to offer the reader the box at `to` in exchange for the one at `from`, and if that
    /// fails, waits for a while before it says so.
    pub fn exchange_or_wait(
        &self,
        shared: &mut Shared<T>,
        from: usize,
        to: usize,
        backoff: &mut Backoff,
    ) -> (exchanged: bool)
        requires
            from != NULL,
            1 <= to <= 2,
            old(shared).wf(),
            old(shared)@.at(to) is Some,
        ensures
            final(shared).wf(),
            exchanged == (old(shared)@.live == from),
            final(shared)@ == if exchanged {
                old(shared)@.exchanged(to)
            } else {
                old(shared)@
            },
            final(backoff).step() == if exchanged {
                old(backoff).step()
            } else {
                raised(old(backoff).step(), SPIN_LIMIT)
            },
            final(shared).ledger() == old(shared).ledger(),
    {
        let exchanged: bool = self.try_exchange(shared, from, to);
        if !exchanged {
            backoff.spin();
        }
        exchanged
    }

    /// Takes the box at `from` back, once the reader has been offered the one at `to` instead.
    pub fn finish(&self, shared: &mut Shared<T>, from: usize, to: usize) -> (previous: Box<T>)
        requires
            old(shared).wf(),
            from == old(shared)@.storage,
            to == old(shared)@.spare(),
            old(shared)@.at(to) is Some,
            old(shared)@.live != from,
        ensures
            final(shared).wf(),
            final(shared)@.settled(),
            final(shared)@ == old(shared)@.finished(from, to),
            final(shared)@.value() == *old(shared)@.at(to)->0,
            *previous == old(shared)@.value(),
            final(shared).ledger() == old(shared).ledger(),
    {
        shared.storage.store(to);
        shared.replace(from, None).unwrap()
    }
}

} // verus!

//! Cursors: how many elements have gone into a FIFO, and how many have come out.

use crate::fifo::ring::lemma_mask_is_remainder;
use crate::word::Word;
use std::marker::PhantomData;
use vstd::arithmetic::power2::is_pow2;
use vstd::prelude::*;

verus! {

/// A count of elements: those that have come out of a FIFO, or those that have gone in.
#[derive(Debug)]
pub struct Cursor<Role>(pub usize, pub PhantomData<Role>);

/// The role of a cursor that counts the elements that have come out.
#[derive(Debug, Copy, Clone)]
pub struct HeadRole;

/// The role of a cursor that counts the elements that have gone in.
#[derive(Debug, Copy, Clone)]
pub struct TailRole;

/// The position that the consumer is at.
pub type Head = Cursor<HeadRole>;

/// The position that the producer is at.
pub type Tail = Cursor<TailRole>;

impl<Role> Cursor<Role> {
    /// The cursor at a position.
    pub open spec fn at(pos: usize) -> Self {
        Cursor(pos, PhantomData)
    }
}

impl<Role> Clone for Cursor<Role> {
    fn clone(&self) -> (cursor: Self)
        ensures
            cursor == *self,
    {
        Cursor(self.0, PhantomData)
    }
}

impl<Role> Copy for Cursor<Role> {

}

impl<RoleA, RoleB> PartialEq<Cursor<RoleA>> for Cursor<RoleB> {
    fn eq(&self, other: &Cursor<RoleA>) -> (equal: bool) {
        self.0 == other.0
    }
}

impl<RoleA, RoleB> vstd::std_specs::cmp::PartialEqSpecImpl<Cursor<RoleA>> for Cursor<RoleB> {
    open spec fn obeys_eq_spec() -> bool {
        true
    }

    open spec fn eq_spec(&self, other: &Cursor<RoleA>) -> bool {
        self.0 == other.0
    }
}

impl<RoleA, RoleB> PartialOrd<Cursor<RoleA>> for Cursor<RoleB> {
    fn partial_cmp(&self, other: &Cursor<RoleA>) -> (ordering: Option<std::cmp::Ordering>) {
        self.0.partial_cmp(&other.0)
    }
}

impl<RoleA, RoleB> vstd::std_specs::cmp::PartialOrdSpecImpl<Cursor<RoleA>> for Cursor<RoleB> {
    open spec fn obeys_partial_cmp_spec() -> bool {
        true
    }

    open spec fn partial_cmp_spec(&self, other: &Cursor<RoleA>) -> Option<std::cmp::Ordering> {
        if self.0 < other.0 {
            Some(std::cmp::Ordering::Less)
        } else if self.0 == other.0 {
            Some(std::cmp::Ordering::Equal)
        } else {
            Some(std::cmp::Ordering::Greater)
        }
    }
}

impl<Role> From<usize> for Cursor<Role> {
    fn from(value: usize) -> (cursor: Self) {
        Cursor(value, PhantomData)
    }
}

impl<Role> vstd::std_specs::convert::FromSpecImpl<usize> for Cursor<Role> {
    open spec fn obeys_from_spec() -> bool {
        true
    }

    open spec fn from_spec(value: usize) -> Self {
        Cursor::at(value)
    }
}

impl<Role> From<Cursor<Role>> for usize {
    fn from(cursor: Cursor<Role>) -> (value: usize) {
        cursor.0
    }
}

impl<Role> vstd::std_specs::convert::FromSpecImpl<Cursor<Role>> for usize {
    open spec fn obeys_from_spec() -> bool {
        true
    }

    open spec fn from_spec(cursor: Cursor<Role>) -> usize {
        cursor.0
    }
}

/// A cursor that both threads access.
pub struct AtomicCursor<Role>(Word, PhantomData<Role>);

/// The head, which the consumer stores and the producer loads.
pub type AtomicHead = AtomicCursor<HeadRole>;

/// The tail, which the producer stores and the consumer loads.
pub type AtomicTail = AtomicCursor<TailRole>;

impl<Role> View for AtomicCursor<Role> {
    type V = Cursor<Role>;

    closed spec fn view(&self) -> Cursor<Role> {
        Cursor::at(self.0@)
    }
}

impl<Role> Default for AtomicCursor<Role> {
    fn default() -> (atomic: Self)
        ensures
            atomic@ == Cursor::<Role>::at(0),
    {
        AtomicCursor(Word::new(0), PhantomData)
    }
}

impl<Role> AtomicCursor<Role> {
    /// Reads the cursor.
    pub fn load(&self) -> (cursor: Cursor<Role>)
        ensures
            cursor == self@,
    {
        Cursor(self.0.load(), PhantomData)
    }

    /// Moves the cursor.
    pub fn store(&mut self, cursor: Cursor<Role>)
        ensures
            final(self)@ == cursor,
    {
        self.0.store(cursor.0);
    }
}

/// What one thread last saw of the other thread's cursor. Only the thread that saw it accesses
/// it.
pub struct CachedCursor<Role>(Word, PhantomData<Role>);

/// The head as the producer last saw it.
pub type CachedHead = CachedCursor<HeadRole>;

/// The tail as the consumer last saw it.
pub type CachedTail = CachedCursor<TailRole>;

impl<Role> View for CachedCursor<Role> {
    type V = Cursor<Role>;

    closed spec fn view(&self) -> Cursor<Role> {
        Cursor::at(self.0@)
    }
}

impl<Role> Default for CachedCursor<Role> {
    fn default() -> (cached: Self)
        ensures
            cached@ == Cursor::<Role>::at(0),
    {
        CachedCursor(Word::new(0), PhantomData)
    }
}

impl<Role> CachedCursor<Role> {
    /// Reads the cursor.
    pub fn get(&self) -> (cursor: Cursor<Role>)
        ensures
            cursor == self@,
    {
        Cursor(self.0.load(), PhantomData)
    }

    /// Replaces the cursor.
    pub fn set(&mut self, cursor: Cursor<Role>)
        ensures
            final(self)@ == cursor,
    {
        self.0.store(cursor.0);
    }
}

/// The number of elements between two cursors.
pub fn size(head: Head, tail: Tail) -> (elements: usize)
    requires
        head.0 <= tail.0,
    ensures
        elements == tail.0 - head.0,
{
    tail.0 - head.0
}

/// The cursor one element further on.
pub fn advance<Role>(cursor: Cursor<Role>) -> (next: Cursor<Role>)
    requires
        cursor.0 < usize::MAX,
    ensures
        next.0 == cursor.0 + 1,
{
    Cursor(cursor.0 + 1, PhantomData)
}

/// The slot, in a ring of `size` slots, that the element counted next is in.
pub fn index<Role>(cursor: Cursor<Role>, size: usize) -> (slot: usize)
    requires
        is_pow2(size as int),
    ensures
        slot == cursor.0 % size,
        slot < size,
{
    proof {
        lemma_mask_is_remainder(cursor.0, size);
    }
    cursor.0 & (size - 1)
}

/// Whether a cursor has been all the way round a ring of `size` slots, so that the slot that it
/// is at holds an element from an earlier round.
pub fn wrapped<Role>(cursor: Cursor<Role>, size: usize) -> (round: bool)
    ensures
        round == (cursor.0 >= size),
{
    cursor.0 >= size
}

/// How many slots of a ring of `size` slots hold an element, counted from the first, when the
/// tail is at `tail`.
pub fn elements_to_drop(tail: Tail, size: usize) -> (elements: usize)
    ensures
        elements == if tail.0 < size {
            tail.0
        } else {
            size
        },
{
    if wrapped(tail, size) {
        size
    } else {
        tail.into()
    }
}

/// Whether a FIFO of capacity `N` has room for another element, as far as the cursors tell.
pub fn has_room<const N: usize>(head: Head, tail: Tail) -> (room: bool)
    requires
        head.0 <= tail.0,
    ensures
        room == (tail.0 - head.0 < N),
{
    size(head, tail) < N
}

/// Whether there is an element to take out of a FIFO, as far as the cursors tell.
pub fn has_elements(head: Head, tail: Tail) -> (elements: bool)
    requires
        head.0 <= tail.0,
    ensures
        elements == (head.0 < tail.0),
{
    size(head, tail) != 0
}

} // verus!

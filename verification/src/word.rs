//! Words of shared memory.

use crossbeam_utils::CachePadded;
use vstd::prelude::*;

verus! {

/// The type `crossbeam_utils::CachePadded`: a value alone on its cache line.
#[verifier::external_type_specification]
#[verifier::external_body]
#[verifier::reject_recursive_types(T)]
pub struct ExCachePadded<T>(CachePadded<T>);

/// The word that a `crossbeam_utils::CachePadded` holds.
pub uninterp spec fn padded_word(padded: CachePadded<usize>) -> usize;

/// Calls `crossbeam_utils::CachePadded::new`: the padded value holds the word given.
#[verifier::external_body]
fn padded_new(word: usize) -> (padded: CachePadded<usize>)
    ensures
        padded_word(padded) == word,
{
    CachePadded::new(word)
}

/// Reads through `crossbeam_utils::CachePadded`'s `Deref`: it gives the word that is held.
#[verifier::external_body]
fn padded_get(padded: &CachePadded<usize>) -> (word: usize)
    ensures
        word == padded_word(*padded),
{
    **padded
}

/// Writes through `crossbeam_utils::CachePadded`'s `DerefMut`: the word given is held afterwards.
#[verifier::external_body]
fn padded_set(padded: &mut CachePadded<usize>, word: usize)
    ensures
        padded_word(*final(padded)) == word,
{
    **padded = word;
}

/// A word of the memory that both threads of a primitive access, on a cache line of its own.
///
/// Each method is one access. A method that changes the word borrows it uniquely, so that the
/// methods themselves are for one thread at a time. The two threads, and the orders in which their
/// accesses can take effect, are modelled in the `schedule` module of each primitive.
pub struct Word {
    cell: CachePadded<usize>,
}

impl View for Word {
    type V = usize;

    closed spec fn view(&self) -> usize {
        padded_word(self.cell)
    }
}

impl Word {
    /// A word that holds `value`.
    pub fn new(value: usize) -> (word: Self)
        ensures
            word@ == value,
    {
        Word { cell: padded_new(value) }
    }

    /// Reads the word.
    pub fn load(&self) -> (value: usize)
        ensures
            value == self@,
    {
        padded_get(&self.cell)
    }

    /// Overwrites the word.
    pub fn store(&mut self, value: usize)
        ensures
            final(self)@ == value,
    {
        padded_set(&mut self.cell, value);
    }

    /// Overwrites the word and returns what it held.
    pub fn swap(&mut self, value: usize) -> (previous: usize)
        ensures
            previous == old(self)@,
            final(self)@ == value,
    {
        let previous: usize = self.load();
        self.store(value);
        previous
    }

    /// Overwrites the word if it holds `current`, and returns what it held: as `Ok` if it was
    /// overwritten, as `Err` if it was left alone.
    pub fn compare_exchange(&mut self, current: usize, new: usize) -> (result: Result<usize, usize>)
        ensures
            old(self)@ == current ==> result == Ok::<usize, usize>(current) && final(self)@ == new,
            old(self)@ != current ==> result == Err::<usize, usize>(old(self)@) && final(self)@
                == old(self)@,
    {
        let actual: usize = self.load();
        if actual == current {
            self.store(new);
            Ok(actual)
        } else {
            Err(actual)
        }
    }
}

/// A byte of the memory that both threads of a primitive access.
///
/// Each method is one access, by one thread at a time, as those of a [`Word`] are.
pub struct Byte {
    value: u8,
}

impl View for Byte {
    type V = u8;

    closed spec fn view(&self) -> u8 {
        self.value
    }
}

impl Byte {
    /// A byte that holds `value`.
    pub fn new(value: u8) -> (byte: Self)
        ensures
            byte@ == value,
    {
        Byte { value }
    }

    /// Reads the byte.
    pub fn load(&self) -> (value: u8)
        ensures
            value == self@,
    {
        self.value
    }

    /// Overwrites the byte.
    pub fn store(&mut self, value: u8)
        ensures
            final(self)@ == value,
    {
        self.value = value;
    }

    /// Sets the bits of `value`, and returns what the byte held.
    pub fn fetch_or(&mut self, value: u8) -> (previous: u8)
        ensures
            previous == old(self)@,
            final(self)@ == old(self)@ | value,
    {
        let previous: u8 = self.value;
        self.value = previous | value;
        previous
    }

    /// Overwrites the byte if it holds `current`, and returns what it held: as `Ok` if it was
    /// overwritten, as `Err` if it was left alone.
    pub fn compare_exchange(&mut self, current: u8, new: u8) -> (result: Result<u8, u8>)
        ensures
            old(self)@ == current ==> result == Ok::<u8, u8>(current) && final(self)@ == new,
            old(self)@ != current ==> result == Err::<u8, u8>(old(self)@) && final(self)@
                == old(self)@,
    {
        let actual: u8 = self.value;
        if actual == current {
            self.value = new;
            Ok(actual)
        } else {
            Err(actual)
        }
    }
}

} // verus!

//! What the memory of a readable value holds, and what each access does to it.

use vstd::prelude::*;

verus! {

/// The address of nothing.
pub const NULL: usize = 0;

/// What the memory of a readable value holds: two boxes, at the addresses one and two, the
/// address of the box that the writer put the value in, and the address that the reader is
/// offered.
pub struct ReadableState<T> {
    pub boxes: Seq<Option<Box<T>>>,
    pub storage: usize,
    pub live: usize,
}

impl<T> ReadableState<T> {
    /// The memory of a new readable value.
    pub open spec fn new(value: T) -> Self {
        ReadableState { boxes: seq![Some(Box::new(value)), None], storage: 1, live: 1 }
    }

    /// The box at an address.
    pub open spec fn at(self, address: usize) -> Option<Box<T>> {
        self.boxes[address - 1]
    }

    /// The address that the writer's value is not at.
    pub open spec fn spare(self) -> usize {
        if self.storage == 1 {
            2
        } else {
            1
        }
    }

    /// The value that the writer has.
    pub open spec fn value(self) -> T {
        *self.at(self.storage)->0
    }

    /// Whether the reader has taken the address that it is offered.
    pub open spec fn locked(self) -> bool {
        self.live == NULL
    }

    /// What every access keeps: there are two boxes, the writer has one of them, and the reader is
    /// offered one of them or none.
    pub open spec fn wf(self) -> bool {
        &&& self.boxes.len() == 2
        &&& self.storage == 1 || self.storage == 2
        &&& self.at(self.storage) is Some
        &&& self.live != NULL ==> {
            &&& self.live == 1 || self.live == 2
            &&& self.at(self.live) is Some
        }
    }

    /// The writer is between two writes: there is one box, and the reader is offered that one or
    /// none.
    pub open spec fn settled(self) -> bool {
        &&& self.at(self.spare()) is None
        &&& self.live != NULL ==> self.live == self.storage
    }

    /// The reader takes the address that it is offered.
    pub open spec fn taken(self) -> Self {
        ReadableState { live: NULL, ..self }
    }

    /// The reader gives an address back.
    pub open spec fn given_back(self, address: usize) -> Self {
        ReadableState { live: address, ..self }
    }

    /// The writer puts a value in a box of its own.
    pub open spec fn prepared(self, value: Box<T>) -> Self {
        ReadableState { boxes: self.boxes.update(self.spare() - 1, Some(value)), ..self }
    }

    /// The writer offers the reader another address.
    pub open spec fn exchanged(self, to: usize) -> Self {
        ReadableState { live: to, ..self }
    }

    /// The writer takes back the box at `from`, and has the box at `to` instead.
    pub open spec fn finished(self, from: usize, to: usize) -> Self {
        ReadableState { boxes: self.boxes.update(from - 1, None), storage: to, ..self }
    }

    /// The writer replaces the value, undisturbed.
    pub open spec fn swapped(self, value: Box<T>) -> Self {
        self.prepared(value).exchanged(self.spare()).finished(self.storage, self.spare())
    }
}

} // verus!

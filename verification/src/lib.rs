//! Safely share data with a real-time thread.
//!
//! Each primitive is shared between exactly two threads, and keeps what they share in a value of
//! its own: the `Shared` memory of [`fifo`], [`reader`] and [`writer`]. A handle (a producer, a
//! reader, a guard) names the role of one thread, and its methods make the accesses to that
//! memory which the role calls for, one method per access and one method per whole operation.
//!
//! Because the memory is explicit, what an operation does to it is an exact contract, and what
//! the two threads can do to each other is a statement about the order of their accesses. The
//! `schedule` modules make those statements for every order.

pub mod backoff;
pub mod fifo;
pub mod ledger;
pub mod reader;
pub mod word;
pub mod writer;

pub use fifo::fifo;
pub use reader::realtime_reader as readable;
pub use writer::writable;

use vstd::prelude::*;

verus! {

/// The type `std::cell::Cell`, which only one thread can use at a time. Nothing is stated of it.
#[verifier::external_type_specification]
#[verifier::external_body]
#[verifier::reject_recursive_types(T)]
pub struct ExCell<T: ?Sized>(std::cell::Cell<T>);

/// Marks a handle that only one thread can use at a time.
pub type PhantomUnsync = std::marker::PhantomData<std::cell::Cell<()>>;

} // verus!

//! What holds of a FIFO in whatever order the producer's and the consumer's accesses take effect.

use crate::fifo::ring::{lemma_distinct_slots, lemma_ring_size, ring_size};
use crate::fifo::state::{
    lemma_published_wf, lemma_released_wf, lemma_reserved_wf,
    lemma_slot_in_ring, lemma_sought_wf, lemma_written_wf, FifoState,
};
use vstd::prelude::*;

verus! {

/// Where the producer is between two of its accesses.
pub enum ProducerPhase<T> {
    /// Between two pushes.
    Idle,
    /// It has found room.
    Reserved,
    /// It has written a value that it has not published yet.
    Written(T),
}

/// Where the consumer is between two of its accesses.
pub enum ConsumerPhase {
    /// Between two pops.
    Idle,
    /// It has a reference to the element at the front.
    Holding,
}

/// A FIFO together with the two threads that use it, and with all that has gone in and come out
/// since it was made.
///
/// `blocking` is the value of the blocking push that the producer is making, which goes on until
/// the value has gone in, however often the producer is turned away. `reclaimed` is every element
/// that the producer has taken out of a slot to write another there.
pub struct FifoSystem<T> {
    pub memory: FifoState<T>,
    pub producer: ProducerPhase<T>,
    pub consumer: ConsumerPhase,
    pub pushed: Seq<T>,
    pub popped: Seq<T>,
    pub blocking: Option<T>,
    pub reclaimed: Seq<T>,
}

/// An access by one of the threads.
///
/// A thread that looks at the other's cursor need not see where it is: it sees some position that
/// the cursor has been at since it last looked.
pub enum FifoStep<T> {
    /// The producer begins a blocking push of a value.
    Block { value: T },
    /// The producer looks for room, and sees the head here if it has to look at it.
    Reserve { seen: nat },
    /// The producer writes a value.
    Write { value: T },
    /// The producer publishes what it has written.
    Publish,
    /// The consumer looks for an element, and sees the tail here if it has to look at it.
    Seek { seen: nat },
    /// The consumer gives up its reference.
    Release,
}

impl<T> FifoSystem<T> {
    /// A new FIFO of capacity `n`, which neither thread has used yet.
    pub open spec fn new(n: nat) -> Self {
        FifoSystem {
            memory: FifoState::new(n),
            producer: ProducerPhase::Idle,
            consumer: ConsumerPhase::Idle,
            pushed: Seq::empty(),
            popped: Seq::empty(),
            blocking: None,
            reclaimed: Seq::empty(),
        }
    }

    /// Whether a thread can make an access next.
    pub open spec fn enabled(self, step: FifoStep<T>) -> bool {
        match step {
            FifoStep::Block { value } => self.producer is Idle && self.blocking is None,
            FifoStep::Reserve { seen } => {
                &&& self.producer is Idle
                &&& self.memory.cached_head <= seen <= self.memory.head
            },
            FifoStep::Write { value } => self.producer is Reserved && value == self.offered(value),
            FifoStep::Publish => self.producer is Written,
            FifoStep::Seek { seen } => {
                &&& self.consumer is Idle
                &&& self.memory.cached_tail <= seen <= self.memory.tail
            },
            FifoStep::Release => self.consumer is Holding,
        }
    }

    /// The system after an access.
    pub open spec fn after(self, n: nat, step: FifoStep<T>) -> Self {
        match step {
            FifoStep::Block { value } => FifoSystem { blocking: Some(value), ..self },
            FifoStep::Reserve { seen } => {
                let memory = self.memory.reserved(n, seen);
                FifoSystem {
                    memory,
                    producer: if memory.has_room(n) {
                        ProducerPhase::Reserved
                    } else {
                        ProducerPhase::Idle
                    },
                    ..self
                }
            },
            FifoStep::Write { value } => FifoSystem {
                memory: self.memory.written(value),
                producer: ProducerPhase::Written(value),
                reclaimed: match self.memory.slot(self.memory.tail) {
                    Some(element) => self.reclaimed.push(element),
                    None => self.reclaimed,
                },
                ..self
            },
            FifoStep::Publish => FifoSystem {
                memory: self.memory.published(),
                producer: ProducerPhase::Idle,
                pushed: self.pushed.push(self.producer->Written_0),
                blocking: None,
                ..self
            },
            FifoStep::Seek { seen } => {
                let memory = self.memory.sought(seen);
                FifoSystem {
                    memory,
                    consumer: if memory.has_elements() {
                        ConsumerPhase::Holding
                    } else {
                        ConsumerPhase::Idle
                    },
                    ..self
                }
            },
            FifoStep::Release => FifoSystem {
                memory: self.memory.released(),
                consumer: ConsumerPhase::Idle,
                popped: self.popped.push(self.memory.slot(self.memory.head)->0),
                ..self
            },
        }
    }

    /// The system after a number of accesses, the first of them first.
    pub open spec fn after_all(self, n: nat, steps: Seq<FifoStep<T>>) -> Self
        decreases steps.len(),
    {
        if steps.len() == 0 {
            self
        } else {
            self.after_all(n, steps.drop_last()).after(n, steps.last())
        }
    }

    /// Whether the threads can make these accesses in this order.
    pub open spec fn schedulable(self, n: nat, steps: Seq<FifoStep<T>>) -> bool
        decreases steps.len(),
    {
        steps.len() > 0 ==> {
            &&& self.schedulable(n, steps.drop_last())
            &&& self.after_all(n, steps.drop_last()).enabled(steps.last())
        }
    }

    /// The value that the producer writes: that of the blocking push, if it is making one.
    pub open spec fn offered(self, value: T) -> T {
        match self.blocking {
            Some(given) => given,
            None => value,
        }
    }

    /// The cursor of the oldest element whose slot has not been reused.
    pub open spec fn oldest(self) -> int {
        let writing: int = if self.producer is Written {
            1
        } else {
            0
        };
        self.memory.tail + writing - self.memory.slots.len()
    }

    /// Every element that has gone in, and whose slot has not been reused, is in its slot.
    pub open spec fn in_place(self) -> bool {
        forall|c: nat|
            self.oldest() <= c < self.memory.tail ==> #[trigger] self.memory.slot(c) == Some(
                self.pushed[c as int],
            )
    }

    /// What every access keeps.
    pub open spec fn inv(self, n: nat) -> bool {
        &&& self.memory.wf(n)
        &&& self.pushed.len() == self.memory.tail
        &&& self.popped.len() == self.memory.head
        &&& self.popped == self.pushed.take(self.popped.len() as int)
        &&& self.consumer is Holding ==> self.memory.has_elements()
        &&& self.producer !is Idle ==> self.memory.has_room(n)
        &&& self.producer is Written ==> self.memory.slot(self.memory.tail) == Some(
            self.producer->Written_0,
        )
        &&& self.producer !is Written ==> self.memory.settled()
        &&& self.producer is Written && self.blocking is Some ==> self.producer->Written_0
            == self.blocking->0
        &&& self.reclaimed.len() == if self.oldest() > 0 {
            self.oldest()
        } else {
            0
        }
        &&& self.reclaimed == self.pushed.take(self.reclaimed.len() as int)
        &&& self.in_place()
    }
}

/// What a producer that has found room finds in the slot: nothing in the first round, and after
/// that the element that went in a round before, which has come out.
proof fn lemma_reclaimable<T>(s: FifoSystem<T>, n: nat)
    requires
        s.inv(n),
        s.producer is Reserved,
    ensures
        ({
            let size = s.memory.slots.len();
            let reclaimed = s.memory.slot(s.memory.tail);
            &&& s.memory.tail < size ==> reclaimed is None
            &&& s.memory.tail >= size ==> {
                &&& s.memory.tail - size < s.popped.len()
                &&& reclaimed == Some(s.pushed[s.memory.tail - size])
            }
        }),
{
    lemma_ring_size(n);
    let size = s.memory.slots.len();
    lemma_slot_in_ring(s.memory, n, s.memory.tail);
    if s.memory.tail >= size {
        let c = (s.memory.tail - size) as nat;
        assert(s.memory.slot(c) == Some(s.pushed[c as int]));
        assert(s.memory.tail % size == c % size) by {
            vstd::arithmetic::div_mod::lemma_mod_add_multiples_vanish(c as int, size as int);
        }
    }
}

/// An access that changes no slot, and adds at most the element that is at the tail to those that
/// have gone in, leaves every element in its slot.
proof fn lemma_in_place<T>(s: FifoSystem<T>, t: FifoSystem<T>)
    requires
        s.in_place(),
        t.memory.slots == s.memory.slots,
        t.oldest() >= s.oldest(),
        ({
            ||| t.memory.tail == s.memory.tail && t.pushed == s.pushed
            ||| {
                &&& t.memory.tail == s.memory.tail + 1
                &&& s.pushed.len() == s.memory.tail
                &&& s.memory.slot(s.memory.tail) is Some
                &&& t.pushed == s.pushed.push(s.memory.slot(s.memory.tail)->0)
            }
        }),
    ensures
        t.in_place(),
{
    assert forall|c: nat| t.oldest() <= c < t.memory.tail implies #[trigger] t.memory.slot(c)
        == Some(t.pushed[c as int]) by {
        assert(t.memory.slot(c) == s.memory.slot(c));
    }
}

/// Every access keeps the invariant.
proof fn lemma_step<T>(s: FifoSystem<T>, n: nat, step: FifoStep<T>)
    requires
        s.inv(n),
        s.enabled(step),
    ensures
        s.after(n, step).inv(n),
{
    lemma_ring_size(n);
    let t = s.after(n, step);
    let size = s.memory.slots.len();
    match step {
        FifoStep::Block { value } => {
            lemma_in_place(s, t);
        },
        FifoStep::Reserve { seen } => {
            lemma_reserved_wf(s.memory, n, seen);
            lemma_in_place(s, t);
        },
        FifoStep::Write { value } => {
            lemma_written_wf(s.memory, n, value);
            lemma_reclaimable(s, n);
            assert(t.reclaimed =~= t.pushed.take(t.reclaimed.len() as int));
            assert forall|c: nat| t.oldest() <= c < t.memory.tail implies #[trigger] t.memory.slot(
                c,
            ) == Some(t.pushed[c as int]) by {
                lemma_distinct_slots(c, s.memory.tail, size);
                lemma_slot_in_ring(s.memory, n, c);
                assert(s.memory.slot(c) == Some(s.pushed[c as int]));
            }
        },
        FifoStep::Publish => {
            lemma_published_wf(s.memory, n, s.producer->Written_0);
            lemma_in_place(s, t);
            assert(t.popped =~= t.pushed.take(t.popped.len() as int));
            assert(t.reclaimed =~= t.pushed.take(t.reclaimed.len() as int));
        },
        FifoStep::Seek { seen } => {
            lemma_sought_wf(s.memory, n, seen);
            lemma_in_place(s, t);
        },
        FifoStep::Release => {
            lemma_released_wf(s.memory, n);
            assert(s.memory.slot(s.memory.head) == Some(s.pushed[s.memory.head as int]));
            lemma_in_place(s, t);
            assert(t.popped =~= t.pushed.take(t.popped.len() as int));
        },
    }
}

/// The invariant holds after every schedule.
pub proof fn lemma_schedule<T>(n: nat, steps: Seq<FifoStep<T>>)
    requires
        FifoSystem::<T>::new(n).schedulable(n, steps),
    ensures
        FifoSystem::<T>::new(n).after_all(n, steps).inv(n),
    decreases steps.len(),
{
    let start = FifoSystem::<T>::new(n);
    if steps.len() == 0 {
        lemma_ring_size(n);
        assert(start.popped =~= start.pushed.take(0));
        assert(start.reclaimed =~= start.pushed.take(0));
    } else {
        lemma_schedule(n, steps.drop_last());
        lemma_step(start.after_all(n, steps.drop_last()), n, steps.last());
    }
}

/// Whenever a thread can make an access, the memory is as that access needs it, whatever the
/// other thread has done in between.
pub proof fn law_next_access_is_safe<T>(n: nat, steps: Seq<FifoStep<T>>, next: FifoStep<T>)
    requires
        FifoSystem::<T>::new(n).schedulable(n, steps),
        FifoSystem::<T>::new(n).after_all(n, steps).enabled(next),
    ensures
        ({
            let s = FifoSystem::<T>::new(n).after_all(n, steps);
            &&& s.memory.wf(n)
            &&& next is Write ==> s.memory.has_room(n)
            &&& next is Publish ==> s.memory.has_room(n) && s.memory.slot(s.memory.tail) is Some
            &&& next is Release ==> s.memory.has_elements()
            &&& s.producer !is Written ==> s.memory.settled()
        }),
{
    lemma_schedule(n, steps);
}

/// What comes out is what went in, in the same order, and at most `n` elements are in between.
pub proof fn law_first_in_first_out<T>(n: nat, steps: Seq<FifoStep<T>>)
    requires
        FifoSystem::<T>::new(n).schedulable(n, steps),
    ensures
        ({
            let s = FifoSystem::<T>::new(n).after_all(n, steps);
            &&& s.popped == s.pushed.take(s.popped.len() as int)
            &&& s.memory.contents() == s.pushed.skip(s.popped.len() as int)
            &&& s.popped.len() <= s.pushed.len() <= s.popped.len() + n
        }),
{
    lemma_schedule(n, steps);
    lemma_ring_size(n);
    let s = FifoSystem::<T>::new(n).after_all(n, steps);
    assert forall|i: int| 0 <= i < s.memory.contents().len() implies s.memory.contents()[i]
        == s.pushed.skip(s.popped.len() as int)[i] by {
        let c = (s.memory.head + i) as nat;
        assert(s.memory.slot(c) == Some(s.pushed[c as int]));
    }
    assert(s.memory.contents() =~= s.pushed.skip(s.popped.len() as int));
}

/// The slot that the producer is about to write, or has written and not yet published, is never
/// the slot that the consumer has a reference to.
pub proof fn law_threads_use_different_slots<T>(n: nat, steps: Seq<FifoStep<T>>)
    requires
        FifoSystem::<T>::new(n).schedulable(n, steps),
    ensures
        ({
            let s = FifoSystem::<T>::new(n).after_all(n, steps);
            s.producer !is Idle && s.consumer is Holding ==> s.memory.tail
                % s.memory.slots.len() != s.memory.head % s.memory.slots.len()
        }),
{
    lemma_schedule(n, steps);
    lemma_ring_size(n);
    let s = FifoSystem::<T>::new(n).after_all(n, steps);
    if s.producer !is Idle && s.consumer is Holding {
        lemma_distinct_slots(s.memory.head, s.memory.tail, s.memory.slots.len());
    }
}

/// A thread accesses a slot only once it has seen that the other is done with it: the producer
/// has seen the head past the element that it overwrites, and the consumer has seen the tail past
/// the element that it reads. This holds however late a thread sees the other's cursor move.
pub proof fn law_slots_are_handed_over<T>(n: nat, steps: Seq<FifoStep<T>>)
    requires
        FifoSystem::<T>::new(n).schedulable(n, steps),
    ensures
        ({
            let s = FifoSystem::<T>::new(n).after_all(n, steps);
            &&& s.producer !is Idle ==> s.memory.tail - s.memory.slots.len()
                < s.memory.cached_head
            &&& s.consumer is Holding ==> s.memory.head < s.memory.cached_tail
        }),
{
    lemma_schedule(n, steps);
    lemma_ring_size(n);
}

/// A reference that the consumer has is to the oldest element that has not come out yet, and
/// nothing that the producer does next changes that.
pub proof fn law_reference_stays_valid<T>(n: nat, steps: Seq<FifoStep<T>>, next: FifoStep<T>)
    requires
        FifoSystem::<T>::new(n).schedulable(n, steps),
        FifoSystem::<T>::new(n).after_all(n, steps).consumer is Holding,
        FifoSystem::<T>::new(n).after_all(n, steps).enabled(next),
        next is Block || next is Reserve || next is Write || next is Publish,
    ensures
        ({
            let s = FifoSystem::<T>::new(n).after_all(n, steps);
            let t = s.after(n, next);
            &&& s.popped.len() < s.pushed.len()
            &&& s.memory.slot(s.memory.head) == Some(s.pushed[s.popped.len() as int])
            &&& t.consumer is Holding
            &&& t.memory.head == s.memory.head
            &&& t.memory.slot(t.memory.head) == s.memory.slot(s.memory.head)
        }),
{
    lemma_schedule(n, steps);
    lemma_ring_size(n);
    let s = FifoSystem::<T>::new(n).after_all(n, steps);
    let t = s.after(n, next);
    lemma_step(s, n, next);
    assert(s.memory.slot(s.memory.head) == Some(s.pushed[s.memory.head as int]));
    assert(t.memory.slot(t.memory.head) == Some(t.pushed[t.memory.head as int]));
}

/// The producer only ever overwrites an element that the consumer has finished with, and it
/// overwrites nothing in the first round.
pub proof fn law_reclaimed_after_release<T>(n: nat, steps: Seq<FifoStep<T>>)
    requires
        FifoSystem::<T>::new(n).schedulable(n, steps),
        FifoSystem::<T>::new(n).after_all(n, steps).producer is Reserved,
    ensures
        ({
            let s = FifoSystem::<T>::new(n).after_all(n, steps);
            let size = s.memory.slots.len();
            let reclaimed = s.memory.slot(s.memory.tail);
            &&& s.memory.tail < size ==> reclaimed is None
            &&& s.memory.tail >= size ==> {
                &&& s.memory.tail - size < s.popped.len()
                &&& reclaimed == Some(s.popped[s.memory.tail - size])
            }
        }),
{
    lemma_schedule(n, steps);
    let s = FifoSystem::<T>::new(n).after_all(n, steps);
    lemma_reclaimable(s, n);
}

/// Only writing takes an element out of its slot. A write after `k` elements have gone in takes out
/// the one that went in a whole round before it, which has come out, and no other. In the first
/// round, it takes out none.
pub proof fn law_push_reclaims_from_a_round_before<T>(
    n: nat,
    steps: Seq<FifoStep<T>>,
    next: FifoStep<T>,
)
    requires
        FifoSystem::<T>::new(n).schedulable(n, steps),
        FifoSystem::<T>::new(n).after_all(n, steps).enabled(next),
    ensures
        ({
            let s = FifoSystem::<T>::new(n).after_all(n, steps);
            let t = s.after(n, next);
            let k = s.pushed.len();
            let size = ring_size(n);
            if next is Write && k >= size {
                &&& k - size < s.popped.len()
                &&& t.reclaimed == s.reclaimed.push(s.pushed[k - size])
            } else {
                t.reclaimed == s.reclaimed
            }
        }),
{
    lemma_schedule(n, steps);
    if next is Write {
        lemma_reclaimable(FifoSystem::<T>::new(n).after_all(n, steps), n);
    }
}

/// Elements are taken out of their slots in the order in which they went in, each of them once,
/// and those that have not been taken out are in their slots still: none is lost, and none is
/// dropped twice.
pub proof fn law_every_element_is_reclaimed_once<T>(n: nat, steps: Seq<FifoStep<T>>)
    requires
        FifoSystem::<T>::new(n).schedulable(n, steps),
    ensures
        ({
            let s = FifoSystem::<T>::new(n).after_all(n, steps);
            &&& s.reclaimed.len() <= s.popped.len()
            &&& s.reclaimed == s.pushed.take(s.reclaimed.len() as int)
            &&& forall|c: nat|
                s.reclaimed.len() <= c < s.pushed.len() ==> #[trigger] s.memory.slot(c) == Some(
                    s.pushed[c as int],
                )
        }),
{
    lemma_schedule(n, steps);
    lemma_ring_size(n);
}

/// Neither thread ever waits: whatever the other is doing, each can make its next access.
pub proof fn law_neither_thread_waits<T>(n: nat, steps: Seq<FifoStep<T>>, value: T)
    requires
        FifoSystem::<T>::new(n).schedulable(n, steps),
    ensures
        ({
            let s = FifoSystem::<T>::new(n).after_all(n, steps);
            &&& s.enabled(FifoStep::Reserve { seen: s.memory.head }) || s.enabled(
                FifoStep::Write { value: s.offered(value) },
            ) || s.enabled(FifoStep::Publish)
            &&& s.enabled(FifoStep::Seek { seen: s.memory.tail }) || s.enabled(FifoStep::Release)
        }),
{
    lemma_schedule(n, steps);
}

/// The consumer never puts anything in a slot or takes anything out of one, and moves neither the
/// tail nor what the producer has seen.
pub proof fn law_consumer_drops_nothing<T>(s: FifoSystem<T>, n: nat, step: FifoStep<T>)
    requires
        step is Seek || step is Release,
    ensures
        s.after(n, step).memory.slots == s.memory.slots,
        s.after(n, step).memory.tail == s.memory.tail,
        s.after(n, step).memory.cached_head == s.memory.cached_head,
        s.after(n, step).producer == s.producer,
        s.after(n, step).reclaimed == s.reclaimed,
{
}

/// The producer moves neither the head nor what the consumer has seen.
pub proof fn law_producer_leaves_the_head<T>(s: FifoSystem<T>, n: nat, step: FifoStep<T>)
    requires
        step is Block || step is Reserve || step is Write || step is Publish,
    ensures
        s.after(n, step).memory.head == s.memory.head,
        s.after(n, step).memory.cached_tail == s.memory.cached_tail,
        s.after(n, step).consumer == s.consumer,
{
}

/// Between two pushes, the slots hold the elements that went in last, as many as there are slots,
/// and nothing else: those are what is dropped with the memory.
pub proof fn law_slots_hold_the_latest<T>(n: nat, steps: Seq<FifoStep<T>>, slot: nat)
    requires
        FifoSystem::<T>::new(n).schedulable(n, steps),
        FifoSystem::<T>::new(n).after_all(n, steps).producer !is Written,
        slot < FifoSystem::<T>::new(n).after_all(n, steps).memory.slots.len(),
    ensures
        ({
            let s = FifoSystem::<T>::new(n).after_all(n, steps);
            let size = s.memory.slots.len();
            &&& slot >= s.memory.tail ==> s.memory.slots[slot as int] is None
            &&& slot < s.memory.tail ==> exists|c: int|
                #![trigger s.pushed[c]]
                {
                    &&& 0 <= c < s.pushed.len()
                    &&& s.pushed.len() - size <= c
                    &&& c % size as int == slot
                    &&& s.memory.slots[slot as int] == Some(s.pushed[c])
                }
        }),
{
    lemma_schedule(n, steps);
    lemma_ring_size(n);
    let s = FifoSystem::<T>::new(n).after_all(n, steps);
    let size = s.memory.slots.len();
    let tail = s.memory.tail;
    if slot < tail {
        let c = latest_in_slot(tail, slot, size);
        lemma_latest_in_slot(tail, slot, size);
        assert(s.memory.slot(c as nat) == Some(s.pushed[c]));
    }
}

/// The last cursor before `tail` that is at `slot`.
spec fn latest_in_slot(tail: nat, slot: nat, size: nat) -> int {
    tail - 1 - (tail - 1 - slot) % size as int
}

proof fn lemma_latest_in_slot(tail: nat, slot: nat, size: nat)
    requires
        slot < size,
        slot < tail,
    ensures
        0 <= latest_in_slot(tail, slot, size) < tail,
        tail - size <= latest_in_slot(tail, slot, size),
        latest_in_slot(tail, slot, size) % size as int == slot,
{
    let d = tail - 1 - slot;
    let q = d / size as int;
    vstd::arithmetic::div_mod::lemma_fundamental_div_mod(d, size as int);
    assert(latest_in_slot(tail, slot, size) == slot + size * q);
    assert(q >= 0 && size * q >= 0) by (nonlinear_arith)
        requires
            d >= 0,
            size > 0,
            q == d / size as int,
    ;
    vstd::arithmetic::div_mod::lemma_mod_multiples_vanish(q, slot as int, size as int);
    vstd::arithmetic::div_mod::lemma_small_mod(slot, size);
}

/// The producer is turned away exactly if the FIFO is full by the head that it sees: by where the
/// head is, if that is where it sees it. Being turned away, however often, changes nothing but
/// what the producer has seen.
pub proof fn law_turned_away_when_full<T>(n: nat, steps: Seq<FifoStep<T>>, seen: nat)
    requires
        FifoSystem::<T>::new(n).schedulable(n, steps),
        FifoSystem::<T>::new(n).after_all(n, steps).enabled(FifoStep::Reserve { seen }),
    ensures
        ({
            let s = FifoSystem::<T>::new(n).after_all(n, steps);
            let t = s.after(n, FifoStep::Reserve { seen });
            &&& t.producer is Idle ==> s.pushed.len() - seen == n
            &&& t.producer is Idle ==> t == (FifoSystem {
                memory: FifoState { cached_head: seen, ..s.memory },
                ..s
            })
            &&& seen == s.memory.head ==> (t.producer is Idle <==> s.memory.contents().len() == n)
        }),
{
    lemma_schedule(n, steps);
}

/// The consumer's accesses alone keep the invariant, and leave the producer and what has gone in
/// as they are.
proof fn lemma_consumer_continues<T>(s: FifoSystem<T>, n: nat, steps: Seq<FifoStep<T>>)
    requires
        s.inv(n),
        s.schedulable(n, steps),
        forall|i: int|
            0 <= i < steps.len() ==> #[trigger] steps[i] is Seek || steps[i] is Release,
    ensures
        s.after_all(n, steps).inv(n),
        s.after_all(n, steps).producer == s.producer,
        s.after_all(n, steps).pushed == s.pushed,
        s.after_all(n, steps).blocking == s.blocking,
    decreases steps.len(),
{
    if steps.len() > 0 {
        assert forall|i: int|
            0 <= i < steps.drop_last().len() implies #[trigger] steps.drop_last()[i] is Seek
                || steps.drop_last()[i] is Release by {
            assert(steps.drop_last()[i] == steps[i]);
        }
        lemma_consumer_continues(s, n, steps.drop_last());
        assert(steps.last() == steps[steps.len() - 1]);
        lemma_step(s.after_all(n, steps.drop_last()), n, steps.last());
    }
}

/// A producer that waits for room, however full the FIFO is, finds it as soon as the consumer has
/// given up one reference and the producer has seen that.
pub proof fn law_waiting_producer_proceeds<T>(
    n: nat,
    before: Seq<FifoStep<T>>,
    meanwhile: Seq<FifoStep<T>>,
)
    requires
        ({
            let s = FifoSystem::<T>::new(n).after_all(n, before);
            &&& FifoSystem::<T>::new(n).schedulable(n, before)
            &&& s.producer is Idle
            &&& s.schedulable(n, meanwhile)
            &&& forall|i: int|
                0 <= i < meanwhile.len() ==> #[trigger] meanwhile[i] is Seek
                    || meanwhile[i] is Release
            &&& s.after_all(n, meanwhile).popped.len() > s.popped.len()
        }),
    ensures
        ({
            let s = FifoSystem::<T>::new(n).after_all(n, before);
            let t = s.after_all(n, meanwhile);
            let attempt = FifoStep::Reserve { seen: t.memory.head };
            &&& t.enabled(attempt)
            &&& t.after(n, attempt).producer is Reserved
        }),
{
    lemma_schedule(n, before);
    lemma_consumer_continues(FifoSystem::<T>::new(n).after_all(n, before), n, meanwhile);
}

/// Until the producer publishes, a blocking push keeps its value, and nothing goes in.
proof fn lemma_blocking<T>(s: FifoSystem<T>, n: nat, steps: Seq<FifoStep<T>>)
    requires
        s.inv(n),
        s.blocking is Some,
        s.schedulable(n, steps),
        forall|i: int| 0 <= i < steps.len() ==> #[trigger] steps[i] !is Publish,
    ensures
        s.after_all(n, steps).inv(n),
        s.after_all(n, steps).blocking == s.blocking,
        s.after_all(n, steps).pushed == s.pushed,
    decreases steps.len(),
{
    if steps.len() > 0 {
        assert forall|i: int|
            0 <= i < steps.drop_last().len() implies #[trigger] steps.drop_last()[i]
                !is Publish by {
            assert(steps.drop_last()[i] == steps[i]);
        }
        lemma_blocking(s, n, steps.drop_last());
        assert(steps.last() == steps[steps.len() - 1]);
        lemma_step(s.after_all(n, steps.drop_last()), n, steps.last());
    }
}

/// A blocking push goes on, with the value that it was given and without anything going in, until
/// the producer publishes, which it cannot do while the FIFO is full. What goes in then is that
/// value, once, behind all that went in before, and the push is over.
pub proof fn law_blocking_push_appends_its_value_once<T>(
    n: nat,
    before: Seq<FifoStep<T>>,
    during: Seq<FifoStep<T>>,
)
    requires
        ({
            let s = FifoSystem::<T>::new(n).after_all(n, before);
            &&& FifoSystem::<T>::new(n).schedulable(n, before)
            &&& s.blocking is Some
            &&& s.schedulable(n, during)
            &&& forall|i: int| 0 <= i < during.len() ==> #[trigger] during[i] !is Publish
        }),
    ensures
        ({
            let s = FifoSystem::<T>::new(n).after_all(n, before);
            let t = s.after_all(n, during);
            &&& t.blocking == s.blocking
            &&& t.pushed == s.pushed
            &&& t.memory.contents().len() == n ==> t.producer is Idle && !t.enabled(
                FifoStep::Publish,
            )
            &&& t.enabled(FifoStep::Publish) ==> {
                &&& t.after(n, FifoStep::Publish).pushed == s.pushed.push(s.blocking->0)
                &&& t.after(n, FifoStep::Publish).blocking is None
            }
        }),
{
    lemma_schedule(n, before);
    lemma_blocking(FifoSystem::<T>::new(n).after_all(n, before), n, during);
}

/// A blocking push returns as soon as the consumer has given up one reference and the producer has
/// seen that, however full the FIFO was: its next attempt succeeds.
pub proof fn law_blocking_push_returns<T>(
    n: nat,
    before: Seq<FifoStep<T>>,
    meanwhile: Seq<FifoStep<T>>,
)
    requires
        ({
            let s = FifoSystem::<T>::new(n).after_all(n, before);
            &&& FifoSystem::<T>::new(n).schedulable(n, before)
            &&& s.producer is Idle
            &&& s.blocking is Some
            &&& s.schedulable(n, meanwhile)
            &&& forall|i: int|
                0 <= i < meanwhile.len() ==> #[trigger] meanwhile[i] is Seek
                    || meanwhile[i] is Release
            &&& s.after_all(n, meanwhile).popped.len() > s.popped.len()
        }),
    ensures
        ({
            let s = FifoSystem::<T>::new(n).after_all(n, before);
            let t = s.after_all(n, meanwhile);
            let value = s.blocking->0;
            let attempt = seq![
                FifoStep::Reserve { seen: t.memory.head },
                FifoStep::Write { value },
                FifoStep::Publish,
            ];
            &&& t.schedulable(n, attempt)
            &&& t.after_all(n, attempt).memory == t.memory.pushed(n, value)
            &&& t.after_all(n, attempt).pushed == s.pushed.push(value)
            &&& t.after_all(n, attempt).popped == t.popped
            &&& t.after_all(n, attempt).blocking is None
        }),
{
    lemma_schedule(n, before);
    let s = FifoSystem::<T>::new(n).after_all(n, before);
    lemma_consumer_continues(s, n, meanwhile);
    law_push_is_a_schedule(s.after_all(n, meanwhile), n, s.blocking->0);
}

/// The consumer finds nothing exactly if the FIFO is empty by the tail that it sees: by where the
/// tail is, if that is where it sees it.
pub proof fn law_finds_nothing_when_empty<T>(n: nat, steps: Seq<FifoStep<T>>, seen: nat)
    requires
        FifoSystem::<T>::new(n).schedulable(n, steps),
        FifoSystem::<T>::new(n).after_all(n, steps).enabled(FifoStep::Seek { seen }),
    ensures
        ({
            let s = FifoSystem::<T>::new(n).after_all(n, steps);
            let t = s.after(n, FifoStep::Seek { seen });
            &&& t.consumer is Idle ==> s.popped.len() == seen
            &&& seen == s.memory.tail ==> (t.consumer is Idle <==> s.memory.contents().len() == 0)
        }),
{
    lemma_schedule(n, steps);
}

/// A whole push, undisturbed, is three accesses in a row, and so is the first attempt of a blocking
/// push if there is room.
pub proof fn law_push_is_a_schedule<T>(s: FifoSystem<T>, n: nat, value: T)
    requires
        s.inv(n),
        s.producer is Idle,
        value == s.offered(value),
        s.memory.contents().len() < n,
    ensures
        ({
            let steps = seq![
                FifoStep::Reserve { seen: s.memory.head },
                FifoStep::Write { value },
                FifoStep::Publish,
            ];
            &&& s.schedulable(n, steps)
            &&& s.after_all(n, steps).memory == s.memory.pushed(n, value)
            &&& s.after_all(n, steps).pushed == s.pushed.push(value)
            &&& s.after_all(n, steps).popped == s.popped
            &&& s.after_all(n, steps).blocking is None
            &&& s.after_all(n, steps).reclaimed == if s.pushed.len() >= ring_size(n) {
                s.reclaimed.push(s.pushed[s.pushed.len() - ring_size(n)])
            } else {
                s.reclaimed
            }
        }),
{
    lemma_reserved_wf(s.memory, n, s.memory.head);
    lemma_step(s, n, FifoStep::Reserve { seen: s.memory.head });
    lemma_reclaimable(s.after(n, FifoStep::Reserve { seen: s.memory.head }), n);
    let a: FifoStep<T> = FifoStep::Reserve { seen: s.memory.head };
    let b: FifoStep<T> = FifoStep::Write { value };
    let c: FifoStep<T> = FifoStep::Publish;
    assert(seq![a, b, c].drop_last() =~= seq![a, b]);
    assert(seq![a, b].drop_last() =~= seq![a]);
    assert(seq![a].drop_last() =~= Seq::<FifoStep<T>>::empty());
    reveal_with_fuel(FifoSystem::after_all, 4);
    reveal_with_fuel(FifoSystem::schedulable, 4);
}

/// A whole pop, undisturbed, is two accesses in a row.
pub proof fn law_pop_is_a_schedule<T>(s: FifoSystem<T>, n: nat)
    requires
        s.inv(n),
        s.consumer is Idle,
        s.memory.contents().len() > 0,
    ensures
        ({
            let steps = seq![FifoStep::<T>::Seek { seen: s.memory.tail }, FifoStep::Release];
            &&& s.schedulable(n, steps)
            &&& s.after_all(n, steps).memory == s.memory.popped()
            &&& s.after_all(n, steps).popped == s.popped.push(s.memory.contents().first())
            &&& s.after_all(n, steps).pushed == s.pushed
            &&& s.after_all(n, steps).reclaimed == s.reclaimed
        }),
{
    let a: FifoStep<T> = FifoStep::Seek { seen: s.memory.tail };
    let b: FifoStep<T> = FifoStep::Release;
    assert(seq![a, b].drop_last() =~= seq![a]);
    assert(seq![a].drop_last() =~= Seq::<FifoStep<T>>::empty());
    reveal_with_fuel(FifoSystem::after_all, 3);
    reveal_with_fuel(FifoSystem::schedulable, 3);
    lemma_sought_wf(s.memory, n, s.memory.tail);
    lemma_released_wf(s.memory.sought(s.memory.tail), n);
}

} // verus!

# real-time

Safely share data with a real-time thread.

- `real_time::readable`: a value that can be read on a real-time thread.
- `real_time::writable`: a value that can be written to from a real-time thread.
- `real_time::fifo`: a bounded, single-producer, single-consumer FIFO that is optimised for a
  real-time consumer. Values sent are reclaimed and dropped by the producer once the consumer has
  finished with them.

## Layout

- `src/` is the library. What the two threads of a primitive share is an explicit value, `Shared`,
  and every access to it is a method with a contract.
  - `fifo.rs`, `reader.rs`, `writer.rs`: the primitives.
  - `*/state.rs`: what the memory holds, and what each access does to it.
  - `*/schedule.rs`: what holds in whatever order the accesses of the two threads take effect.
  - `word.rs`, `backoff.rs`: memory words, and waiting.
- `app/` has the handles that two threads use at the same time. They make the same accesses as
  the library, over atomics and pointers, which is not verified. The cursors and the ring, the
  bits of the control byte, and waiting are calls of the library.
- `tests/` runs the library, in `schedules.rs` under every order of the first few accesses.

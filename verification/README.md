# ring_deque

A double-ended queue of bounded capacity. Its elements always form one
contiguous slice, also after elements were pushed to the front or after the
queue has run around its memory many times.

The library under `src/` is verified with Verus:

- `ring_deque.rs` and `index.rs`: the deque and its slices.
- `state.rs`: what a deque is, and the laws of its operations.
- `window.rs`: where the elements lie in a ring that is addressed twice over.
- `memory.rs`: the laws by which such a ring shows its elements.
- `layout.rs`: how many pages and elements a ring has.
- `page_size.rs`: the page size, as the system names it.
- `error.rs`: why an element could not be added.

`app/` holds the deque on pages that are mapped to two neighbouring address
ranges. It takes every position from the verified window.

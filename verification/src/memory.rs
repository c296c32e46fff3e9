//! What a window shows of a ring's memory.
//!
//! A [`Mirror`] is the memory of a ring as its users see it: `capacity` cells,
//! each of which can be reached under two positions. The laws here say that an
//! element stored at the position that a [`Window`](crate::window::Window)
//! hands out appears at the right end of what the window shows afterwards, that
//! nothing else the window shows changes, and that no position lies outside the
//! region.
use vstd::arithmetic::div_mod::{
    lemma_fundamental_div_mod, lemma_mod_add_multiples_vanish, lemma_mod_bound,
    lemma_mod_sub_multiples_vanish,
};
use vstd::arithmetic::mul::{
    lemma_mul_inequality, lemma_mul_is_commutative, lemma_mul_is_distributive_sub,
};
use vstd::prelude::*;

use crate::window::Span;

verus! {

/// Memory in which the positions `p` and `p + cells.len()` are the same cell.
pub struct Mirror<T> {
    pub cells: Seq<T>,
}

impl<T> Mirror<T> {
    /// The memory of a ring of that span's capacity.
    pub open spec fn backs(self, span: Span) -> bool {
        self.cells.len() == span.capacity
    }

    /// The value at a position.
    pub open spec fn load(self, position: int) -> T {
        self.cells[position % self.cells.len() as int]
    }

    /// The memory after a value was written to a position.
    pub open spec fn store(self, position: int, value: T) -> Mirror<T> {
        Mirror { cells: self.cells.update(position % self.cells.len() as int, value) }
    }

    /// The memory after values were written to a position and those behind it.
    pub open spec fn store_each(self, position: int, values: Seq<T>) -> Mirror<T>
        decreases values.len(),
    {
        if values.len() == 0 {
            self
        } else {
            self.store_each(position, values.drop_last()).store(
                position + values.len() - 1,
                values.last(),
            )
        }
    }

    /// The values at the positions of a span, in order.
    pub open spec fn shown(self, span: Span) -> Seq<T> {
        Seq::new(span.len() as nat, |i: int| self.load(span.start + i))
    }
}

/// Two positions less than `size` apart are different cells, and positions
/// exactly `size` apart are the same cell.
proof fn lemma_cells(a: int, b: int, size: int)
    requires
        0 < size,
    ensures
        0 <= a % size < size,
        a < b < a + size ==> a % size != b % size,
        (a + size) % size == a % size,
        (a - size) % size == a % size,
{
    lemma_fundamental_div_mod(a, size);
    lemma_fundamental_div_mod(b, size);
    lemma_mod_bound(a, size);
    lemma_mod_add_multiples_vanish(a, size);
    lemma_mod_sub_multiples_vanish(a, size);
    if a < b < a + size && a % size == b % size {
        let turns: int = b / size - a / size;
        lemma_mul_is_distributive_sub(size, b / size, a / size);
        if turns >= 1 {
            lemma_mul_inequality(1, turns, size);
        } else {
            lemma_mul_inequality(turns, 0, size);
        }
        lemma_mul_is_commutative(turns, size);
    }
}

/// Every position of a valid span lies in the region of twice the capacity, and
/// where the ring is not full so do the positions that it can grow into.
pub proof fn law_positions_stay_in_region(span: Span)
    requires
        span.valid(),
    ensures
        0 <= span.start <= span.end <= 2 * span.capacity,
        !span.is_full() ==> span.end < 2 * span.capacity,
        !span.is_full() ==> 0 <= span.grown_front(1).start < 2 * span.capacity,
{
}

/// Growing a span that is not full, or shrinking one that is not empty, keeps it
/// valid, keeps the capacity, and changes the length by one.
pub proof fn law_spans_stay_valid(span: Span)
    requires
        span.valid(),
    ensures
        !span.is_full() ==> {
            &&& span.grown_back(1).valid()
            &&& span.grown_back(1).capacity == span.capacity
            &&& span.grown_back(1).len() == span.len() + 1
        },
        !span.is_full() ==> {
            &&& span.grown_front(1).valid()
            &&& span.grown_front(1).capacity == span.capacity
            &&& span.grown_front(1).len() == span.len() + 1
        },
        !span.is_empty() ==> {
            &&& span.shrunk_front().valid()
            &&& span.shrunk_front().capacity == span.capacity
            &&& span.shrunk_front().len() == span.len() - 1
        },
        !span.is_empty() ==> {
            &&& span.shrunk_back().valid()
            &&& span.shrunk_back().capacity == span.capacity
            &&& span.shrunk_back().len() == span.len() - 1
        },
{
}

/// Growing a span by several positions is growing it one by one.
pub proof fn law_growth_adds_up(span: Span, n: int)
    requires
        span.valid(),
        0 <= n < span.capacity - span.len(),
    ensures
        span.grown_back(0) == span,
        span.grown_front(0) == span,
        span.grown_back(n).grown_back(1) == span.grown_back(n + 1),
        span.grown_front(n).grown_front(1) == span.grown_front(n + 1),
{
}

/// A value can be read under both positions of the cell it was stored to.
pub proof fn law_both_positions_show_the_store<T>(memory: Mirror<T>, position: int, value: T)
    requires
        0 < memory.cells.len(),
    ensures
        memory.store(position, value).load(position) == value,
        memory.store(position, value).load(position + memory.cells.len()) == value,
        memory.store(position, value).load(position - memory.cells.len()) == value,
{
    lemma_cells(position, position, memory.cells.len() as int);
}

/// A span shows the same values after a move by the capacity, in either
/// direction.
pub proof fn law_moved_span_shows_the_same<T>(memory: Mirror<T>, span: Span)
    requires
        span.valid(),
        memory.backs(span),
    ensures
        memory.shown(span.moved(span.capacity)) == memory.shown(span),
        memory.shown(span.moved(-span.capacity)) == memory.shown(span),
{
    assert forall|i: int| 0 <= i < span.len() implies #[trigger] memory.load(
        span.moved(span.capacity).start + i,
    ) == memory.load(span.start + i) && memory.load(span.moved(-span.capacity).start + i)
        == memory.load(span.start + i) by {
        lemma_cells(span.start + i, 0, span.capacity);
    }
    assert(memory.shown(span.moved(span.capacity)) =~= memory.shown(span));
    assert(memory.shown(span.moved(-span.capacity)) =~= memory.shown(span));
}

/// No more values than there are cells, stored from a position on, are found at
/// that position and those behind it, and the other cells are as they were.
proof fn lemma_store_each<T>(memory: Mirror<T>, position: int, values: Seq<T>)
    requires
        0 < memory.cells.len(),
        values.len() <= memory.cells.len(),
    ensures
        memory.store_each(position, values).cells.len() == memory.cells.len(),
        forall|q: int|
            position <= q < position + memory.cells.len() ==> #[trigger] memory.store_each(
                position,
                values,
            ).load(q) == if q < position + values.len() {
                values[q - position]
            } else {
                memory.load(q)
            },
    decreases values.len(),
{
    if values.len() > 0 {
        let size: int = memory.cells.len() as int;
        let earlier: Mirror<T> = memory.store_each(position, values.drop_last());
        let last: int = position + values.len() - 1;
        lemma_store_each(memory, position, values.drop_last());
        lemma_cells(last, last, size);
        assert forall|q: int| position <= q < position + size implies #[trigger] memory.store_each(
            position,
            values,
        ).load(q) == if q < position + values.len() {
            values[q - position]
        } else {
            memory.load(q)
        } by {
            lemma_cells(q, last, size);
            lemma_cells(last, q, size);
            assert(earlier.load(q) == if q < last { values.drop_last()[q - position] } else {
                memory.load(q)
            });
        }
    }
}

/// Values stored from the end of a span with room for them are shown behind all
/// the others.
pub proof fn law_store_each_at_back<T>(memory: Mirror<T>, span: Span, values: Seq<T>)
    requires
        span.valid(),
        memory.backs(span),
        span.len() + values.len() <= span.capacity,
    ensures
        memory.store_each(span.end, values).backs(span),
        memory.store_each(span.end, values).shown(span.grown_back(values.len() as int))
            == memory.shown(span) + values,
{
    let grown: Span = span.grown_back(values.len() as int);
    let after: Mirror<T> = memory.store_each(span.end, values);
    lemma_store_each(memory, span.end, values);
    assert forall|i: int| 0 <= i < grown.len() implies after.shown(grown)[i] == (memory.shown(span)
        + values)[i] by {
        let q: int = span.start + i;
        if q < span.end {
            lemma_cells(q, q, span.capacity);
            assert(after.load(q + span.capacity) == memory.load(q + span.capacity));
        } else {
            assert(after.load(q) == values[q - span.end]);
        }
    }
    assert(after.shown(grown) =~= memory.shown(span) + values);
}

/// Values stored from the new start of a span with room for them are shown
/// before all the others.
pub proof fn law_store_each_at_front<T>(memory: Mirror<T>, span: Span, values: Seq<T>)
    requires
        span.valid(),
        memory.backs(span),
        span.len() + values.len() <= span.capacity,
    ensures
        ({
            let grown: Span = span.grown_front(values.len() as int);
            let after: Mirror<T> = memory.store_each(grown.start, values);
            after.backs(grown) && after.shown(grown) == values + memory.shown(span)
        }),
{
    let n: int = values.len() as int;
    let grown: Span = span.grown_front(n);
    let rest: Span = Span { start: grown.start + n, ..grown };
    let after: Mirror<T> = memory.store_each(grown.start, values);
    law_moved_span_shows_the_same(memory, span);
    assert(memory.shown(rest) == memory.shown(span));
    lemma_store_each(memory, grown.start, values);
    assert forall|i: int| 0 <= i < grown.len() implies after.shown(grown)[i] == (values
        + memory.shown(span))[i] by {
        assert(after.load(grown.start + i) == after.shown(grown)[i]);
        if i >= n {
            assert(memory.shown(rest)[i - n] == memory.load(rest.start + (i - n)));
        }
    }
    assert(after.shown(grown) =~= values + memory.shown(span));
}

/// A value stored at a position of a span is shown in the place of the one that
/// was there.
pub proof fn law_store_in_place<T>(memory: Mirror<T>, span: Span, i: int, value: T)
    requires
        span.valid(),
        memory.backs(span),
        0 <= i < span.len(),
    ensures
        memory.store(span.start + i, value).shown(span) == memory.shown(span).update(i, value),
{
    let after: Mirror<T> = memory.store(span.start + i, value);
    lemma_cells(span.start + i, span.start + i, span.capacity);
    assert forall|j: int| 0 <= j < span.len() && j != i implies #[trigger] after.load(
        span.start + j,
    ) == memory.load(span.start + j) by {
        lemma_cells(span.start + i, span.start + j, span.capacity);
        lemma_cells(span.start + j, span.start + i, span.capacity);
    }
    assert(after.shown(span) =~= memory.shown(span).update(i, value));
}

/// A value stored at the end of a span that is not full is shown behind all the
/// others.
pub proof fn law_store_at_back<T>(memory: Mirror<T>, span: Span, value: T)
    requires
        span.valid(),
        memory.backs(span),
        !span.is_full(),
    ensures
        memory.store(span.end, value).shown(span.grown_back(1)) == memory.shown(span).push(value),
{
    let after: Mirror<T> = memory.store(span.end, value);
    lemma_cells(span.end, span.end, span.capacity);
    assert forall|i: int| 0 <= i < span.len() implies #[trigger] after.load(span.start + i)
        == memory.load(span.start + i) by {
        lemma_cells(span.start + i, span.end, span.capacity);
    }
    assert(after.shown(span.grown_back(1)) =~= memory.shown(span).push(value));
}

/// A value stored at the new start of a span that is not full is shown before
/// all the others.
pub proof fn law_store_at_front<T>(memory: Mirror<T>, span: Span, value: T)
    requires
        span.valid(),
        memory.backs(span),
        !span.is_full(),
    ensures
        memory.store(span.grown_front(1).start, value).shown(span.grown_front(1)) == seq![value]
            + memory.shown(span),
{
    let grown: Span = span.grown_front(1);
    let rest: Span = Span { start: grown.start + 1, ..grown };
    let after: Mirror<T> = memory.store(grown.start, value);
    law_moved_span_shows_the_same(memory, span);
    assert(memory.shown(rest) == memory.shown(span));
    lemma_cells(grown.start, grown.start, span.capacity);
    assert forall|i: int| 0 <= i < span.len() implies #[trigger] after.load(rest.start + i)
        == memory.shown(span)[i] by {
        lemma_cells(grown.start, rest.start + i, span.capacity);
        assert(memory.shown(rest)[i] == memory.load(rest.start + i));
    }
    assert forall|i: int| 0 <= i < grown.len() implies after.shown(grown)[i] == (seq![value]
        + memory.shown(span))[i] by {
        if i > 0 {
            assert(after.load(rest.start + (i - 1)) == memory.shown(span)[i - 1]);
        }
    }
    assert(after.shown(grown) =~= seq![value] + memory.shown(span));
}

/// The value at the start of a span is the first that it shows, and the span
/// without its first position shows the others.
pub proof fn law_load_from_front<T>(memory: Mirror<T>, span: Span)
    requires
        span.valid(),
        memory.backs(span),
        !span.is_empty(),
    ensures
        memory.load(span.start) == memory.shown(span).first(),
        memory.shown(span.shrunk_front()) == memory.shown(span).drop_first(),
{
    let rest: Span = Span { start: span.start + 1, ..span };
    assert forall|i: int| 0 <= i < rest.len() implies #[trigger] memory.load(
        rest.moved(-rest.capacity).start + i,
    ) == memory.load(rest.start + i) by {
        lemma_cells(rest.start + i, 0, span.capacity);
    }
    assert(memory.shown(span.shrunk_front()) =~= memory.shown(span).drop_first());
}

/// The value before the end of a span is the last that it shows, and the span
/// without its last position shows the others.
pub proof fn law_load_from_back<T>(memory: Mirror<T>, span: Span)
    requires
        span.valid(),
        memory.backs(span),
        !span.is_empty(),
    ensures
        memory.load(span.shrunk_back().end) == memory.shown(span).last(),
        memory.shown(span.shrunk_back()) == memory.shown(span).drop_last(),
{
    assert(memory.shown(span.shrunk_back()) =~= memory.shown(span).drop_last());
}

} // verus!

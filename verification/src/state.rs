//! What a deque is: a capacity, and a sequence of at most that many elements.
//!
//! The contracts of [`RingDeque`](crate::ring_deque::RingDeque) are stated over
//! the operations here, and the laws that relate several of those operations
//! are proved here.
use vstd::prelude::*;

use crate::memory::{
    law_load_from_back, law_load_from_front, law_store_at_back, law_store_at_front,
    law_store_each_at_back, law_store_each_at_front, law_store_in_place, Mirror,
};
use crate::window::Span;

verus! {

/// The contents of a deque, from front to back, and how many there may be.
#[verifier::ext_equal]
pub struct DequeState<T> {
    pub capacity: nat,
    pub items: Seq<T>,
}

impl<T> DequeState<T> {
    /// There is room for something, and no more elements than there is room for.
    pub open spec fn valid(self) -> bool {
        0 < self.capacity && self.items.len() <= self.capacity
    }

    pub open spec fn is_empty(self) -> bool {
        self.items.len() == 0
    }

    pub open spec fn is_full(self) -> bool {
        self.items.len() == self.capacity
    }

    /// How many elements can still be added.
    pub open spec fn room(self) -> int {
        self.capacity - self.items.len()
    }

    /// A deque of the same capacity with other contents.
    pub open spec fn with(self, items: Seq<T>) -> DequeState<T> {
        DequeState { items, ..self }
    }

    /// The first element.
    pub open spec fn front(self) -> Option<T> {
        if self.is_empty() { None } else { Some(self.items.first()) }
    }

    /// The last element.
    pub open spec fn back(self) -> Option<T> {
        if self.is_empty() { None } else { Some(self.items.last()) }
    }

    /// One element more at the back, unless the deque is full.
    pub open spec fn push_back(self, v: T) -> DequeState<T> {
        if self.is_full() { self } else { self.with(self.items.push(v)) }
    }

    /// One element more at the front, unless the deque is full.
    pub open spec fn push_front(self, v: T) -> DequeState<T> {
        if self.is_full() { self } else { self.with(seq![v] + self.items) }
    }

    /// One element less at the back, unless the deque is empty.
    pub open spec fn pop_back(self) -> DequeState<T> {
        if self.is_empty() { self } else { self.with(self.items.drop_last()) }
    }

    /// One element less at the front, unless the deque is empty.
    pub open spec fn pop_front(self) -> DequeState<T> {
        if self.is_empty() { self } else { self.with(self.items.drop_first()) }
    }

    /// One element more at the back, in the place of the first element where the
    /// deque is full.
    pub open spec fn push_back_rotate(self, v: T) -> DequeState<T> {
        if self.is_full() {
            self.with(self.items.drop_first().push(v))
        } else {
            self.with(self.items.push(v))
        }
    }

    /// All of the values at the back, or none where they do not all fit.
    pub open spec fn extend_back(self, values: Seq<T>) -> DequeState<T> {
        if values.len() > self.room() { self } else { self.with(self.items + values) }
    }

    /// All of the values at the front, or none where they do not all fit.
    pub open spec fn extend_front(self, values: Seq<T>) -> DequeState<T> {
        if values.len() > self.room() { self } else { self.with(values + self.items) }
    }

    /// As many of the values at the back as fit, the first ones first.
    pub open spec fn fill_back(self, values: Seq<T>) -> DequeState<T> {
        if values.len() > self.room() {
            self.with(self.items + values.take(self.room()))
        } else {
            self.with(self.items + values)
        }
    }

    /// The values pushed to the back one by one.
    pub open spec fn push_back_each(self, values: Seq<T>) -> DequeState<T>
        decreases values.len(),
    {
        if values.len() == 0 {
            self
        } else {
            self.push_back_each(values.drop_last()).push_back(values.last())
        }
    }

    /// The values pushed to the front one by one, the last one first.
    pub open spec fn push_front_each(self, values: Seq<T>) -> DequeState<T>
        decreases values.len(),
    {
        if values.len() == 0 {
            self
        } else {
            self.push_front_each(values.drop_first()).push_front(values.first())
        }
    }

    /// The values pushed to the back one by one, each in the place of the first
    /// element where the deque is full.
    pub open spec fn push_back_rotate_each(self, values: Seq<T>) -> DequeState<T>
        decreases values.len(),
    {
        if values.len() == 0 {
            self
        } else {
            self.push_back_rotate_each(values.drop_last()).push_back_rotate(values.last())
        }
    }

    /// `n` elements less at the front.
    pub open spec fn pop_front_times(self, n: nat) -> DequeState<T>
        decreases n,
    {
        if n == 0 { self } else { self.pop_front_times((n - 1) as nat).pop_front() }
    }

    /// `n` elements less at the back.
    pub open spec fn pop_back_times(self, n: nat) -> DequeState<T>
        decreases n,
    {
        if n == 0 { self } else { self.pop_back_times((n - 1) as nat).pop_back() }
    }

    /// Every element stands in the relation `before` to every later one.
    pub open spec fn ordered(self, before: spec_fn(T, T) -> bool) -> bool {
        forall|i: int, j: int|
            0 <= i < j < self.items.len() ==> before(
                #[trigger] self.items[i],
                #[trigger] self.items[j],
            )
    }
}

/// What does not fit is refused wholly: a push to a full deque, and an extension
/// by more values than there are places left, leave the deque as it was.
pub proof fn law_refusal_changes_nothing<T>(deque: DequeState<T>, v: T, values: Seq<T>)
    ensures
        deque.items.len() == deque.capacity ==> deque.push_back(v) == deque,
        deque.items.len() == deque.capacity ==> deque.push_front(v) == deque,
        values.len() > deque.capacity - deque.items.len() ==> deque.extend_back(values) == deque,
        values.len() > deque.capacity - deque.items.len() ==> deque.extend_front(values) == deque,
{
}

/// A push with a place left adds its value at its end, and keeps every element
/// at its distance from the other end.
pub proof fn law_push_adds_at_its_end<T>(deque: DequeState<T>, v: T)
    requires
        deque.items.len() < deque.capacity,
    ensures
        ({
            let after: DequeState<T> = deque.push_back(v);
            &&& after.capacity == deque.capacity
            &&& after.items.len() == deque.items.len() + 1
            &&& after.items[deque.items.len() as int] == v
            &&& forall|i: int|
                0 <= i < deque.items.len() ==> #[trigger] after.items[i] == deque.items[i]
        }),
        ({
            let after: DequeState<T> = deque.push_front(v);
            &&& after.capacity == deque.capacity
            &&& after.items.len() == deque.items.len() + 1
            &&& after.items[0] == v
            &&& forall|i: int|
                0 < i <= deque.items.len() ==> #[trigger] after.items[i] == deque.items[i - 1]
        }),
{
}

/// A pop takes the element at its end and no other, and nothing from an empty
/// deque.
pub proof fn law_pop_takes_from_its_end<T>(deque: DequeState<T>)
    ensures
        deque.items.len() == 0 ==> {
            &&& deque.front().is_none() && deque.pop_front() == deque
            &&& deque.back().is_none() && deque.pop_back() == deque
        },
        deque.items.len() > 0 ==> {
            let after: DequeState<T> = deque.pop_front();
            &&& deque.front() == Some(deque.items[0])
            &&& after.capacity == deque.capacity
            &&& after.items.len() == deque.items.len() - 1
            &&& forall|i: int|
                0 <= i < deque.items.len() - 1 ==> #[trigger] after.items[i] == deque.items[i + 1]
        },
        deque.items.len() > 0 ==> {
            let after: DequeState<T> = deque.pop_back();
            &&& deque.back() == Some(deque.items[deque.items.len() - 1])
            &&& after.capacity == deque.capacity
            &&& after.items.len() == deque.items.len() - 1
            &&& forall|i: int|
                0 <= i < deque.items.len() - 1 ==> #[trigger] after.items[i] == deque.items[i]
        },
{
}

/// A rotation puts its value last. A full deque loses its first element to it,
/// and any other deque loses nothing.
pub proof fn law_rotate_adds_behind<T>(deque: DequeState<T>, v: T)
    requires
        0 < deque.capacity,
        deque.items.len() <= deque.capacity,
    ensures
        ({
            let after: DequeState<T> = deque.push_back_rotate(v);
            let lost: int = if deque.items.len() == deque.capacity { 1 } else { 0 };
            &&& after.capacity == deque.capacity
            &&& after.items.len() == deque.items.len() - lost + 1
            &&& after.items[after.items.len() - 1] == v
            &&& forall|i: int|
                0 <= i < deque.items.len() - lost ==> #[trigger] after.items[i] == deque.items[i
                    + lost]
        }),
{
}

/// An extension by values that fit puts them at its end in their order, and
/// keeps every element in its order.
pub proof fn law_extension_adds_all<T>(deque: DequeState<T>, values: Seq<T>)
    requires
        values.len() <= deque.capacity - deque.items.len(),
    ensures
        ({
            let after: DequeState<T> = deque.extend_back(values);
            &&& after.capacity == deque.capacity
            &&& after.items.len() == deque.items.len() + values.len()
            &&& forall|i: int|
                0 <= i < deque.items.len() ==> #[trigger] after.items[i] == deque.items[i]
            &&& forall|i: int|
                deque.items.len() <= i < after.items.len() ==> #[trigger] after.items[i]
                    == values[i - deque.items.len()]
        }),
        ({
            let after: DequeState<T> = deque.extend_front(values);
            &&& after.capacity == deque.capacity
            &&& after.items.len() == deque.items.len() + values.len()
            &&& forall|i: int| 0 <= i < values.len() ==> #[trigger] after.items[i] == values[i]
            &&& forall|i: int|
                values.len() <= i < after.items.len() ==> #[trigger] after.items[i]
                    == deque.items[i - values.len()]
        }),
{
}

/// Filling a deque adds the first values in their order, all of them or as many
/// as there are places left, and keeps every element.
pub proof fn law_fill_adds_what_fits<T>(deque: DequeState<T>, values: Seq<T>)
    requires
        deque.items.len() <= deque.capacity,
    ensures
        ({
            let after: DequeState<T> = deque.fill_back(values);
            &&& after.capacity == deque.capacity
            &&& after.items.len() <= deque.capacity
            &&& after.items.len() == deque.items.len() + values.len() || after.items.len()
                == deque.capacity
            &&& after.items.len() <= deque.items.len() + values.len()
            &&& forall|i: int|
                0 <= i < deque.items.len() ==> #[trigger] after.items[i] == deque.items[i]
            &&& forall|i: int|
                deque.items.len() <= i < after.items.len() ==> #[trigger] after.items[i]
                    == values[i - deque.items.len()]
        }),
{
}

/// No operation changes the capacity or exceeds it.
pub proof fn law_capacity_is_kept<T>(deque: DequeState<T>, v: T, values: Seq<T>)
    requires
        deque.valid(),
    ensures
        deque.push_back(v).valid() && deque.push_back(v).capacity == deque.capacity,
        deque.push_front(v).valid() && deque.push_front(v).capacity == deque.capacity,
        deque.pop_back().valid() && deque.pop_back().capacity == deque.capacity,
        deque.pop_front().valid() && deque.pop_front().capacity == deque.capacity,
        deque.push_back_rotate(v).valid() && deque.push_back_rotate(v).capacity == deque.capacity,
        deque.extend_back(values).valid() && deque.extend_back(values).capacity == deque.capacity,
        deque.extend_front(values).valid() && deque.extend_front(values).capacity
            == deque.capacity,
        deque.fill_back(values).valid() && deque.fill_back(values).capacity == deque.capacity,
{
}

/// Taking an element from the end it was pushed to gives it back, and leaves the
/// deque as it was.
pub proof fn law_pop_undoes_push<T>(deque: DequeState<T>, v: T)
    requires
        deque.valid(),
        !deque.is_full(),
    ensures
        deque.push_back(v).back() == Some(v),
        deque.push_back(v).pop_back() == deque,
        deque.push_front(v).front() == Some(v),
        deque.push_front(v).pop_front() == deque,
{
    assert(deque.push_back(v).pop_back() =~= deque);
    assert(deque.push_front(v).pop_front() =~= deque);
}

/// Pushing an element back to the end it was taken from restores the deque.
pub proof fn law_push_undoes_pop<T>(deque: DequeState<T>)
    requires
        deque.valid(),
        !deque.is_empty(),
    ensures
        deque.pop_back().push_back(deque.items.last()) == deque,
        deque.pop_front().push_front(deque.items.first()) == deque,
{
    assert(deque.pop_back().push_back(deque.items.last()) =~= deque);
    assert(deque.pop_front().push_front(deque.items.first()) =~= deque);
}

/// The two ends do not disturb each other: a push at one end and a pop at the
/// other can change places, and an element pushed at one end of an empty deque
/// is at the other end too.
pub proof fn law_ends_are_independent<T>(deque: DequeState<T>, v: T)
    requires
        deque.valid(),
        !deque.is_full(),
    ensures
        !deque.is_empty() ==> deque.push_back(v).pop_front() == deque.pop_front().push_back(v),
        !deque.is_empty() ==> deque.push_front(v).pop_back() == deque.pop_back().push_front(v),
        deque.is_empty() ==> deque.push_back(v) == deque.push_front(v),
{
    if deque.is_empty() {
        assert(deque.push_back(v) =~= deque.push_front(v));
    } else {
        assert(deque.push_back(v).pop_front() =~= deque.pop_front().push_back(v));
        assert(deque.push_front(v).pop_back() =~= deque.pop_back().push_front(v));
    }
}

/// Popping `n` times at an end takes away the `n` elements nearest to it, and
/// the next pop there takes the next one.
pub proof fn law_pops_come_in_order<T>(deque: DequeState<T>, n: nat)
    requires
        n <= deque.items.len(),
    ensures
        deque.pop_front_times(n) == deque.with(deque.items.skip(n as int)),
        deque.pop_back_times(n) == deque.with(deque.items.take(deque.items.len() - n)),
        n < deque.items.len() ==> deque.pop_front_times(n).front() == Some(deque.items[n as int]),
        n < deque.items.len() ==> deque.pop_back_times(n).back() == Some(
            deque.items[deque.items.len() - 1 - n],
        ),
    decreases n,
{
    if n == 0 {
        assert(deque.items.skip(0) =~= deque.items);
        assert(deque.items.take(deque.items.len() as int) =~= deque.items);
    } else {
        law_pops_come_in_order(deque, (n - 1) as nat);
        assert(deque.items.skip(n - 1).drop_first() =~= deque.items.skip(n as int));
        assert(deque.items.take(deque.items.len() - (n - 1)).drop_last() =~= deque.items.take(
            deque.items.len() - n,
        ));
    }
}

/// First in, first out: the values pushed to the back of an empty deque leave it
/// at the front in the same order, and at the back in the opposite order.
pub proof fn law_queue_and_stack<T>(deque: DequeState<T>, values: Seq<T>, n: nat)
    requires
        deque.valid(),
        deque.is_empty(),
        n < values.len() <= deque.capacity,
    ensures
        deque.push_back_each(values).pop_front_times(n).front() == Some(values[n as int]),
        deque.push_back_each(values).pop_back_times(n).back() == Some(
            values[values.len() - 1 - n],
        ),
{
    law_extend_is_pushes(deque, values);
    assert(deque.items + values =~= values);
    law_pops_come_in_order(deque.push_back_each(values), n);
}

/// Extending a deque by values that fit is pushing them one by one, from the
/// first to the last at the back and from the last to the first at the front.
pub proof fn law_extend_is_pushes<T>(deque: DequeState<T>, values: Seq<T>)
    requires
        deque.valid(),
        values.len() <= deque.room(),
    ensures
        deque.extend_back(values) == deque.push_back_each(values),
        deque.fill_back(values) == deque.push_back_each(values),
        deque.extend_front(values) == deque.push_front_each(values),
    decreases values.len(),
{
    if values.len() == 0 {
        assert(deque.items + values =~= deque.items);
        assert(values + deque.items =~= deque.items);
    } else {
        law_extend_is_pushes(deque, values.drop_last());
        law_extend_is_pushes(deque, values.drop_first());
        assert((deque.items + values.drop_last()).push(values.last()) =~= deque.items + values);
        assert(seq![values.first()] + (values.drop_first() + deque.items) =~= values
            + deque.items);
    }
}

/// Filling a deque with more values than fit stores what pushing them one by one
/// stores, and leaves the deque full.
pub proof fn law_fill_is_pushes<T>(deque: DequeState<T>, values: Seq<T>)
    requires
        deque.valid(),
    ensures
        deque.fill_back(values) == deque.push_back_each(values),
        values.len() >= deque.room() ==> deque.fill_back(values).is_full(),
    decreases values.len(),
{
    if values.len() <= deque.room() {
        law_extend_is_pushes(deque, values);
    } else {
        law_fill_is_pushes(deque, values.drop_last());
        assert(values.drop_last().take(deque.room()) =~= values.take(deque.room()));
        if values.len() - 1 == deque.room() {
            assert(values.drop_last() =~= values.take(deque.room()));
        }
    }
}

/// Rotating a value into a full deque is taking the first element away and
/// pushing the value, and rotating it into any other deque is pushing it.
pub proof fn law_rotate_makes_room<T>(deque: DequeState<T>, v: T)
    requires
        deque.valid(),
    ensures
        deque.is_full() ==> deque.push_back_rotate(v) == deque.pop_front().push_back(v),
        deque.is_full() ==> deque.push_back_rotate(v).is_full(),
        !deque.is_full() ==> deque.push_back_rotate(v) == deque.push_back(v),
        deque.push_back_rotate(v).back() == Some(v),
{
}

/// A deque that values are rotated into holds the most recent of all its
/// elements, as many as it has room for.
pub proof fn law_rotate_keeps_latest<T>(deque: DequeState<T>, values: Seq<T>)
    requires
        deque.valid(),
    ensures
        ({
            let all: Seq<T> = deque.items + values;
            let surplus: int = all.len() - deque.capacity;
            deque.push_back_rotate_each(values) == deque.with(
                if surplus > 0 { all.skip(surplus) } else { all },
            )
        }),
    decreases values.len(),
{
    let all: Seq<T> = deque.items + values;
    if values.len() == 0 {
        assert(all =~= deque.items);
    } else {
        let earlier: Seq<T> = deque.items + values.drop_last();
        let surplus: int = all.len() - deque.capacity;
        law_rotate_keeps_latest(deque, values.drop_last());
        assert(earlier.push(values.last()) =~= all);
        if surplus == 1 {
            assert(earlier.drop_first().push(values.last()) =~= all.skip(1));
        } else if surplus > 1 {
            assert(earlier.skip(surplus - 1).drop_first().push(values.last()) =~= all.skip(
                surplus,
            ));
        }
    }
}

/// Elements keep their order: a deque that is ordered stays ordered when
/// elements leave it, when a value that all elements stand before joins at the
/// back, and when a value that stands before all elements joins at the front.
pub proof fn law_order_is_kept<T>(deque: DequeState<T>, v: T, before: spec_fn(T, T) -> bool)
    requires
        deque.valid(),
        deque.ordered(before),
    ensures
        deque.pop_back().ordered(before),
        deque.pop_front().ordered(before),
        (forall|i: int| 0 <= i < deque.items.len() ==> before(#[trigger] deque.items[i], v))
            ==> deque.push_back(v).ordered(before) && deque.push_back_rotate(v).ordered(before),
        (forall|i: int| 0 <= i < deque.items.len() ==> before(v, #[trigger] deque.items[i]))
            ==> deque.push_front(v).ordered(before),
{
}

/// No element is lost or doubled: a push adds its value once, a pop takes the
/// value that it gives once, and a rotation of a full deque does both.
pub proof fn law_elements_are_conserved<T>(deque: DequeState<T>, v: T)
    requires
        deque.valid(),
    ensures
        !deque.is_full() ==> deque.push_back(v).items.to_multiset()
            == deque.items.to_multiset().insert(v),
        !deque.is_full() ==> deque.push_front(v).items.to_multiset()
            == deque.items.to_multiset().insert(v),
        !deque.is_empty() ==> deque.pop_back().items.to_multiset()
            == deque.items.to_multiset().remove(deque.items.last()),
        !deque.is_empty() ==> deque.pop_front().items.to_multiset()
            == deque.items.to_multiset().remove(deque.items.first()),
        deque.is_full() ==> deque.push_back_rotate(v).items.to_multiset()
            == deque.items.to_multiset().remove(deque.items.first()).insert(v),
{
    broadcast use vstd::seq_lib::group_to_multiset_ensures;

    let items: Seq<T> = deque.items;
    assert(seq![v] + items =~= items.insert(0, v));
    if !deque.is_empty() {
        assert(items.drop_last() =~= items.remove(items.len() - 1));
        assert(items.drop_first() =~= items.remove(0));
    }
}

/// The memory that a span shows a deque's contents through.
pub open spec fn shows<T>(memory: Mirror<T>, span: Span, deque: DequeState<T>) -> bool {
    &&& span.valid()
    &&& span.capacity == deque.capacity
    &&& memory.backs(span)
    &&& memory.shown(span) == deque.items
}

/// The memory of a ring follows its deque: where a span shows a deque's
/// contents, it still does after an element was stored at the position it grew
/// by, or after it shrank by the position of an element that left.
pub proof fn law_memory_follows_deque<T>(
    memory: Mirror<T>,
    span: Span,
    deque: DequeState<T>,
    v: T,
)
    requires
        shows(memory, span, deque),
    ensures
        span.is_full() == deque.is_full(),
        span.is_empty() == deque.is_empty(),
        !deque.is_full() ==> shows(
            memory.store(span.end, v),
            span.grown_back(1),
            deque.push_back(v),
        ),
        !deque.is_full() ==> shows(
            memory.store(span.grown_front(1).start, v),
            span.grown_front(1),
            deque.push_front(v),
        ),
        !deque.is_empty() ==> Some(memory.load(span.start)) == deque.front() && shows(
            memory,
            span.shrunk_front(),
            deque.pop_front(),
        ),
        !deque.is_empty() ==> Some(memory.load(span.shrunk_back().end)) == deque.back() && shows(
            memory,
            span.shrunk_back(),
            deque.pop_back(),
        ),
{
    assert(memory.shown(span).len() == span.len());
    if !span.is_full() {
        law_store_at_back(memory, span, v);
        law_store_at_front(memory, span, v);
    }
    if !span.is_empty() {
        law_load_from_front(memory, span);
        law_load_from_back(memory, span);
    }
}

/// Any memory of the right size shows the contents of a fresh deque.
pub proof fn law_memory_of_fresh_deque<T>(memory: Mirror<T>, span: Span)
    requires
        span.valid(),
        span.is_empty(),
        memory.backs(span),
    ensures
        shows(memory, span, DequeState { capacity: span.capacity as nat, items: Seq::empty() }),
{
    assert(memory.shown(span) =~= Seq::empty());
}

/// The memory of a ring follows a change of an element in its place.
pub proof fn law_memory_follows_change<T>(
    memory: Mirror<T>,
    span: Span,
    deque: DequeState<T>,
    i: int,
    v: T,
)
    requires
        shows(memory, span, deque),
        0 <= i < deque.items.len(),
    ensures
        memory.load(span.start + i) == deque.items[i],
        shows(memory.store(span.start + i, v), span, deque.with(deque.items.update(i, v))),
{
    assert(memory.shown(span).len() == span.len());
    law_store_in_place(memory, span, i, v);
}

/// The memory of a ring follows an extension: values that fit are shown after
/// they were stored side by side at the positions that the span grew by.
pub proof fn law_memory_follows_extension<T>(
    memory: Mirror<T>,
    span: Span,
    deque: DequeState<T>,
    values: Seq<T>,
)
    requires
        shows(memory, span, deque),
        values.len() <= deque.room(),
    ensures
        span.capacity - span.len() == deque.room(),
        shows(
            memory.store_each(span.end, values),
            span.grown_back(values.len() as int),
            deque.extend_back(values),
        ),
        shows(
            memory.store_each(span.grown_front(values.len() as int).start, values),
            span.grown_front(values.len() as int),
            deque.extend_front(values),
        ),
{
    assert(memory.shown(span).len() == span.len());
    law_store_each_at_back(memory, span, values);
    law_store_each_at_front(memory, span, values);
}

/// The memory of a full ring follows a rotation: the element that leaves is read
/// from the place that the value is then stored to.
pub proof fn law_memory_follows_rotation<T>(
    memory: Mirror<T>,
    span: Span,
    deque: DequeState<T>,
    v: T,
)
    requires
        shows(memory, span, deque),
        deque.is_full(),
    ensures
        Some(memory.load(span.start)) == deque.front(),
        shows(
            memory.store(span.shrunk_front().end, v),
            span.shrunk_front().grown_back(1),
            deque.push_back_rotate(v),
        ),
{
    law_memory_follows_deque(memory, span, deque, v);
    law_memory_follows_deque(memory, span.shrunk_front(), deque.pop_front(), v);
}

} // verus!

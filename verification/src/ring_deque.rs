//! The deque.
use core::borrow::Borrow;
use core::mem::size_of;
use vstd::layout::layout_for_type_is_valid;
use vstd::prelude::*;
use vstd::std_specs::iter::IteratorSpec;

use crate::error::Error;
use crate::layout::{law_ring_has_room, ring_capacity, ring_fits, RingLayout};
use crate::page_size::get_page_size;
use crate::state::DequeState;
use crate::window::{Span, Window};

verus! {

/// Always contiguous double-ended queue.
///
/// The capacity is fixed when the deque is allocated. It is that of whole memory
/// pages, and so mostly more than was asked for. At all times a single slice
/// holds all elements from front to back.
///
/// The elements are kept in that order in a `Vec`, beside the [`Window`] that
/// says where they lie in a ring of the same capacity. Adding or taking an
/// element at the front moves the others; at the back none is moved.
pub struct RingDeque<T> {
    window: Window,
    contents: Vec<T>,
}

impl<T> View for RingDeque<T> {
    type V = DequeState<T>;

    closed spec fn view(&self) -> DequeState<T> {
        DequeState { capacity: self.window@.capacity as nat, items: self.contents@ }
    }
}

impl<T> RingDeque<T> {
    /// Where the elements lie in the memory of the ring.
    pub closed spec fn span(&self) -> Span {
        self.window@
    }

    /// The window is well-formed.
    pub closed spec fn window_is_wf(&self) -> bool {
        self.window.wf()
    }

    /// What holds of every deque: it is within its capacity, and its span covers
    /// exactly its elements.
    pub open spec fn wf(&self) -> bool {
        &&& self@.valid()
        &&& self.span().valid()
        &&& self.span().capacity == self@.capacity
        &&& self.span().len() == self@.items.len()
        &&& self.window_is_wf()
    }

    /// An empty deque for at least `count` elements, on pages of the size that
    /// the system names. `None` where the system names no page size, or no ring
    /// for so many elements can be laid out on pages of that size.
    pub fn allocate(count: usize) -> (deque: Option<RingDeque<T>>)
        ensures
            exists|reply: Option<usize>|
                {
                    &&& #[trigger] call_ensures(get_page_size, (), reply)
                    &&& deque.is_some() == (reply matches Some(size) && ring_fits(
                        count as int,
                        vstd::layout::size_of::<T>() as int,
                        size as int,
                    ))
                    &&& deque matches Some(d) ==> d@ == (DequeState {
                        capacity: ring_capacity(
                            count as int,
                            vstd::layout::size_of::<T>() as int,
                            reply->0 as int,
                        ) as nat,
                        items: Seq::<T>::empty(),
                    })
                    &&& deque matches Some(d) ==> {
                        let bytes = d@.capacity * vstd::layout::size_of::<T>();
                        &&& bytes as int % reply->0 as int == 0
                        &&& bytes < vstd::layout::size_of::<T>() * count + reply->0
                    }
                },
            deque matches Some(d) ==> d.wf() && d.span().start == 0,
            deque matches Some(d) ==> d@.items.len() == 0 && 0 < count <= d@.capacity,
    {
        let reply: Option<usize> = get_page_size();
        assert(call_ensures(get_page_size, (), reply));
        Self::allocate_for(count, reply)
    }

    /// An empty deque for at least `count` elements, on pages of the given size.
    /// `None` where there is no page size, or no ring for so many elements can be
    /// laid out on pages of that size.
    pub fn allocate_for(count: usize, page_size: Option<usize>) -> (deque: Option<RingDeque<T>>)
        ensures
            deque.is_some() == (page_size matches Some(size) && ring_fits(
                count as int,
                vstd::layout::size_of::<T>() as int,
                size as int,
            )),
            deque matches Some(d) ==> {
                &&& d.wf()
                &&& d@ == (DequeState {
                    capacity: ring_capacity(
                        count as int,
                        vstd::layout::size_of::<T>() as int,
                        page_size->0 as int,
                    ) as nat,
                    items: Seq::<T>::empty(),
                })
                &&& d.span().start == 0
            },
            deque matches Some(d) ==> {
                let bytes = d@.capacity * vstd::layout::size_of::<T>();
                &&& d@.items.len() == 0
                &&& 0 < count <= d@.capacity
                &&& bytes as int % page_size->0 as int == 0
                &&& bytes < vstd::layout::size_of::<T>() * count + page_size->0
            },
    {
        layout_for_type_is_valid::<T>();
        match page_size {
            Some(size) => if RingLayout::fits(count, size_of::<T>(), size) {
                Some(Self::with_page_size(count, size))
            } else {
                None
            },
            None => None,
        }
    }

    /// An empty deque for at least `count` elements, on pages of `page_size`
    /// bytes.
    pub fn with_page_size(count: usize, page_size: usize) -> (deque: RingDeque<T>)
        requires
            ring_fits(count as int, vstd::layout::size_of::<T>() as int, page_size as int),
        ensures
            deque.wf(),
            deque@ == (DequeState {
                capacity: ring_capacity(
                    count as int,
                    vstd::layout::size_of::<T>() as int,
                    page_size as int,
                ) as nat,
                items: Seq::<T>::empty(),
            }),
            deque.span().start == 0,
            ({
                let bytes = deque@.capacity * vstd::layout::size_of::<T>();
                &&& deque@.items.len() == 0
                &&& 0 < count <= deque@.capacity
                &&& bytes as int % page_size as int == 0
                &&& bytes < vstd::layout::size_of::<T>() * count + page_size
            }),
    {
        let layout: RingLayout = RingLayout::of::<T>(count, page_size);
        proof {
            law_ring_has_room(
                count as int,
                vstd::layout::size_of::<T>() as int,
                page_size as int,
            );
        }
        RingDeque { window: Window::new(layout.capacity), contents: Vec::new() }
    }

    /// How many elements the deque has room for.
    pub fn capacity(&self) -> (capacity: usize)
        requires
            self.wf(),
        ensures
            capacity == self@.capacity,
    {
        self.window.capacity()
    }

    /// At how many positions the elements of the ring can be addressed.
    pub fn virtual_capacity(&self) -> (size: usize)
        requires
            self.wf(),
        ensures
            size == 2 * self@.capacity,
    {
        self.window.virtual_capacity()
    }

    /// How many elements there are.
    pub fn len(&self) -> (len: usize)
        requires
            self.wf(),
        ensures
            len == self@.items.len(),
    {
        self.window.len()
    }

    /// All elements, from front to back.
    pub fn as_slice(&self) -> (slice: &[T])
        ensures
            slice@ == self@.items,
    {
        self.contents.as_slice()
    }

    /// Adds an element before the first one.
    pub fn push_front(&mut self, v: T) -> (result: Result<(), Error>)
        requires
            old(self).wf(),
        ensures
            final(self).wf(),
            final(self)@ == old(self)@.push_front(v),
            old(self)@.is_full() ==> {
                &&& result == Err::<(), Error>(Error::BufferFull)
                &&& final(self).span() == old(self).span()
            },
            !old(self)@.is_full() ==> {
                &&& result == Ok::<(), Error>(())
                &&& final(self).span() == old(self).span().grown_front(1)
            },
            final(self)@.capacity == old(self)@.capacity,
            result.is_ok() == (old(self)@.items.len() < old(self)@.capacity),
            result.is_err() ==> final(self)@.items == old(self)@.items,
            result.is_ok() ==> final(self)@.items == seq![v] + old(self)@.items,
    {
        match self.window.push_front() {
            Err(error) => Err(error),
            Ok(_) => {
                self.contents.insert(0, v);
                assert(self.contents@ =~= seq![v] + old(self).contents@);
                Ok(())
            },
        }
    }

    /// Adds an element behind the last one.
    pub fn push_back(&mut self, v: T) -> (result: Result<(), Error>)
        requires
            old(self).wf(),
        ensures
            final(self).wf(),
            final(self)@ == old(self)@.push_back(v),
            old(self)@.is_full() ==> {
                &&& result == Err::<(), Error>(Error::BufferFull)
                &&& final(self).span() == old(self).span()
            },
            !old(self)@.is_full() ==> {
                &&& result == Ok::<(), Error>(())
                &&& final(self).span() == old(self).span().grown_back(1)
            },
            final(self)@.capacity == old(self)@.capacity,
            result.is_ok() == (old(self)@.items.len() < old(self)@.capacity),
            result.is_err() ==> final(self)@.items == old(self)@.items,
            result.is_ok() ==> final(self)@.items == old(self)@.items.push(v),
    {
        match self.window.push_back() {
            Err(error) => Err(error),
            Ok(_) => {
                self.contents.push(v);
                Ok(())
            },
        }
    }

    /// Adds an element behind the last one. A full deque gives up its first
    /// element for it.
    pub fn push_back_rotate(&mut self, v: T)
        requires
            old(self).wf(),
        ensures
            final(self).wf(),
            final(self)@ == old(self)@.push_back_rotate(v),
            final(self).span() == if old(self)@.is_full() {
                old(self).span().shrunk_front().grown_back(1)
            } else {
                old(self).span().grown_back(1)
            },
            final(self)@.capacity == old(self)@.capacity,
            old(self)@.items.len() < old(self)@.capacity ==> final(self)@.items == old(self)@.items.push(v),
            old(self)@.items.len() == old(self)@.capacity ==> final(self)@.items == old(self)@.items.subrange(
                1,
                old(self)@.items.len() as int,
            ).push(v),
    {
        let (given_up, _) = self.window.push_back_rotate();
        if given_up.is_some() {
            let _ = self.contents.remove(0);
            assert(self.contents@ =~= old(self).contents@.drop_first());
        }
        self.contents.push(v);
    }

    /// Takes the first element.
    pub fn pop_front(&mut self) -> (value: Option<T>)
        requires
            old(self).wf(),
        ensures
            final(self).wf(),
            final(self)@ == old(self)@.pop_front(),
            value == old(self)@.front(),
            final(self).span() == if old(self)@.is_empty() {
                old(self).span()
            } else {
                old(self).span().shrunk_front()
            },
            final(self)@.capacity == old(self)@.capacity,
            value.is_some() == (old(self)@.items.len() > 0),
            value.is_none() ==> final(self)@.items == old(self)@.items,
            value matches Some(v) ==> seq![v] + final(self)@.items == old(self)@.items,
    {
        match self.window.pop_front() {
            None => None,
            Some(_) => {
                let value: T = self.contents.remove(0);
                assert(self.contents@ =~= old(self).contents@.drop_first());
                Some(value)
            },
        }
    }

    /// Takes the last element.
    pub fn pop(&mut self) -> (value: Option<T>)
        requires
            old(self).wf(),
        ensures
            final(self).wf(),
            final(self)@ == old(self)@.pop_back(),
            value == old(self)@.back(),
            final(self).span() == if old(self)@.is_empty() {
                old(self).span()
            } else {
                old(self).span().shrunk_back()
            },
            final(self)@.capacity == old(self)@.capacity,
            value.is_some() == (old(self)@.items.len() > 0),
            value.is_none() ==> final(self)@.items == old(self)@.items,
            value matches Some(v) ==> final(self)@.items.push(v) == old(self)@.items,
    {
        self.pop_back()
    }

    /// Takes the last element.
    pub fn pop_back(&mut self) -> (value: Option<T>)
        requires
            old(self).wf(),
        ensures
            final(self).wf(),
            final(self)@ == old(self)@.pop_back(),
            value == old(self)@.back(),
            final(self).span() == if old(self)@.is_empty() {
                old(self).span()
            } else {
                old(self).span().shrunk_back()
            },
            final(self)@.capacity == old(self)@.capacity,
            value.is_some() == (old(self)@.items.len() > 0),
            value.is_none() ==> final(self)@.items == old(self)@.items,
            value matches Some(v) ==> final(self)@.items.push(v) == old(self)@.items,
    {
        match self.window.pop_back() {
            None => None,
            Some(_) => {
                let value: Option<T> = self.contents.pop();
                assert(self.contents@ =~= old(self).contents@.drop_last());
                value
            },
        }
    }

    /// Adds the elements of a slice behind the last one, or none of them where
    /// they do not all fit.
    pub fn extend_back_from_slice(&mut self, slice: &[T]) -> (result: Result<(), Error>)
        where T: Copy
        requires
            old(self).wf(),
        ensures
            final(self).wf(),
            final(self)@ == old(self)@.extend_back(slice@),
            slice@.len() > old(self)@.room() ==> {
                &&& result == Err::<(), Error>(Error::BufferFull)
                &&& final(self).span() == old(self).span()
            },
            slice@.len() <= old(self)@.room() ==> {
                &&& result == Ok::<(), Error>(())
                &&& final(self).span() == old(self).span().grown_back(slice@.len() as int)
            },
            final(self)@.capacity == old(self)@.capacity,
            result.is_ok() == (slice@.len() <= old(self)@.capacity - old(self)@.items.len()),
            result.is_err() ==> final(self)@.items == old(self)@.items,
            result.is_ok() ==> final(self)@.items == old(self)@.items + slice@,
    {
        match self.window.extend_back(slice.len()) {
            Err(error) => Err(error),
            Ok(_) => {
                let ghost window: Window = self.window;
                let mut i: usize = 0;
                while i < slice.len()
                    invariant
                        i <= slice@.len(),
                        self.window == window,
                        self.contents@ == old(self).contents@ + slice@.take(i as int),
                    decreases slice@.len() - i,
                {
                    self.contents.push(slice[i]);
                    i = i + 1;
                    assert(slice@.take(i as int) =~= slice@.take(i - 1).push(slice@[i - 1]));
                }
                assert(slice@.take(i as int) =~= slice@);
                Ok(())
            },
        }
    }

    /// Adds the elements of a slice before the first one, in the order of the
    /// slice, or none of them where they do not all fit.
    pub fn extend_front_from_slice(&mut self, slice: &[T]) -> (result: Result<(), Error>)
        where T: Copy
        requires
            old(self).wf(),
        ensures
            final(self).wf(),
            final(self)@ == old(self)@.extend_front(slice@),
            slice@.len() > old(self)@.room() ==> {
                &&& result == Err::<(), Error>(Error::BufferFull)
                &&& final(self).span() == old(self).span()
            },
            slice@.len() <= old(self)@.room() ==> {
                &&& result == Ok::<(), Error>(())
                &&& final(self).span() == old(self).span().grown_front(slice@.len() as int)
            },
            final(self)@.capacity == old(self)@.capacity,
            result.is_ok() == (slice@.len() <= old(self)@.capacity - old(self)@.items.len()),
            result.is_err() ==> final(self)@.items == old(self)@.items,
            result.is_ok() ==> final(self)@.items == slice@ + old(self)@.items,
    {
        match self.window.extend_front(slice.len()) {
            Err(error) => Err(error),
            Ok(_) => {
                let mut contents: Vec<T> = Vec::new();
                let mut i: usize = 0;
                while i < slice.len()
                    invariant
                        i <= slice@.len(),
                        contents@ == slice@.take(i as int),
                    decreases slice@.len() - i,
                {
                    contents.push(slice[i]);
                    i = i + 1;
                    assert(slice@.take(i as int) =~= slice@.take(i - 1).push(slice@[i - 1]));
                }
                assert(slice@.take(i as int) =~= slice@);
                contents.append(&mut self.contents);
                self.contents = contents;
                Ok(())
            },
        }
    }

    /// Adds the items of an iterator behind the last element until there are no
    /// more items, or until the deque is full and there is another one.
    ///
    /// Which items an iterator gives is up to it. Of one that obeys the laws for
    /// iterators that end, the elements that the deque has afterwards are known,
    /// and so is what the iterator had left when it was given up: on a refusal all
    /// but the items that found room and the one that did not, else nothing.
    pub fn try_extend_back<I: Iterator<Item = T>>(&mut self, data: I) -> (result: Result<
        (),
        Error,
    >)
        requires
            old(self).wf(),
        ensures
            final(self).wf(),
            final(self)@.capacity == old(self)@.capacity,
            old(self)@.items.is_prefix_of(final(self)@.items),
            final(self).span() == old(self).span().grown_back(
                final(self)@.items.len() - old(self)@.items.len(),
            ),
            result is Err ==> final(self)@.is_full(),
            data.obeys_prophetic_iter_laws() ==> {
                &&& final(self)@ == old(self)@.fill_back(data.remaining())
                &&& result == if data.remaining().len() > old(self)@.room() {
                    Err::<(), Error>(Error::BufferFull)
                } else {
                    Ok::<(), Error>(())
                }
                &&& exists|rest: I|
                    {
                        &&& #[trigger] has_resolved(rest)
                        &&& rest.remaining() == if data.remaining().len() > old(self)@.room() {
                            data.remaining().skip(old(self)@.room() + 1)
                        } else {
                            Seq::empty()
                        }
                    }
            },
            data.obeys_prophetic_iter_laws() ==> {
                let items = data.remaining();
                let room = old(self)@.capacity - old(self)@.items.len();
                &&& result.is_ok() == (items.len() <= room)
                &&& final(self)@.items == old(self)@.items + items.take(
                    if items.len() <= room { items.len() as int } else { room },
                )
            },
    {
        let mut rest = data;
        let result: Result<(), Error> = self.extend_back_while_room(&mut rest);
        assert(has_resolved(rest));
        result
    }

    /// Adds items of an iterator as [`RingDeque::try_extend_back`] does, and leaves
    /// the iterator to the caller. A refusal costs the item that found no room;
    /// the later ones are still to come.
    pub fn extend_back_while_room<I: Iterator<Item = T>>(&mut self, data: &mut I) -> (result: Result<
        (),
        Error,
    >)
        requires
            old(self).wf(),
        ensures
            final(self).wf(),
            final(self)@.capacity == old(self)@.capacity,
            old(self)@.items.is_prefix_of(final(self)@.items),
            final(self).span() == old(self).span().grown_back(
                final(self)@.items.len() - old(self)@.items.len(),
            ),
            result is Err ==> final(self)@.is_full(),
            <I as IteratorSpec>::obeys_prophetic_iter_laws(final(data))
                == <I as IteratorSpec>::obeys_prophetic_iter_laws(old(data)),
            <I as IteratorSpec>::obeys_prophetic_iter_laws(old(data)) ==> {
                let items = <I as IteratorSpec>::remaining(old(data));
                &&& final(self)@ == old(self)@.fill_back(items)
                &&& items.len() > old(self)@.room() ==> {
                    &&& result == Err::<(), Error>(Error::BufferFull)
                    &&& <I as IteratorSpec>::remaining(final(data)) == items.skip(
                        old(self)@.room() + 1,
                    )
                }
                &&& items.len() <= old(self)@.room() ==> {
                    &&& result == Ok::<(), Error>(())
                    &&& <I as IteratorSpec>::remaining(final(data)).len() == 0
                    &&& <I as IteratorSpec>::will_return_none(final(data))
                }
            },
            <I as IteratorSpec>::obeys_prophetic_iter_laws(old(data)) ==> {
                let items = <I as IteratorSpec>::remaining(old(data));
                let room = old(self)@.capacity - old(self)@.items.len();
                let taken = if items.len() <= room { items.len() as int } else { room };
                &&& result.is_ok() == (items.len() <= room)
                &&& final(self)@.items == old(self)@.items + items.take(taken)
                &&& <I as IteratorSpec>::remaining(final(data)) == items.skip(
                    if items.len() <= room { taken } else { taken + 1 },
                )
            },
    {
        loop
            invariant
                self.wf(),
                self@.capacity == old(self)@.capacity,
                old(self)@.items.is_prefix_of(self@.items),
                self.span() == old(self).span().grown_back(
                    self@.items.len() - old(self)@.items.len(),
                ),
                <I as IteratorSpec>::obeys_prophetic_iter_laws(data)
                    == <I as IteratorSpec>::obeys_prophetic_iter_laws(old(data)),
                <I as IteratorSpec>::obeys_prophetic_iter_laws(old(data)) ==> ({
                    let items = <I as IteratorSpec>::remaining(old(data));
                    let taken = self@.items.len() - old(self)@.items.len();
                    &&& taken <= items.len()
                    &&& self@.items == old(self)@.items + items.take(taken)
                    &&& <I as IteratorSpec>::remaining(data) == items.skip(taken)
                }),
            decreases self@.capacity - self@.items.len(),
        {
            match data.next() {
                None => {
                    return Ok(());
                },
                Some(v) => match self.push_back(v) {
                    Ok(()) => {},
                    Err(error) => {
                        return Err(error);
                    },
                },
            }
        }
    }

    /// Whether there is no element.
    pub fn is_empty(&self) -> (empty: bool)
        requires
            self.wf(),
        ensures
            empty == self@.is_empty(),
            empty == (self@.items.len() == 0),
    {
        self.window.is_empty()
    }

    /// Reference to the first element.
    pub fn front(&self) -> (value: Option<&T>)
        requires
            self.wf(),
        ensures
            value == match self@.front() {
                Some(v) => Some(&v),
                None => None,
            },
            value.is_some() == (self@.items.len() > 0),
            value matches Some(v) ==> *v == self@.items[0],
    {
        if self.is_empty() {
            None
        } else {
            Some(&self.contents[0])
        }
    }

    /// Reference to the last element.
    pub fn back(&self) -> (value: Option<&T>)
        requires
            self.wf(),
        ensures
            value == match self@.back() {
                Some(v) => Some(&v),
                None => None,
            },
            value.is_some() == (self@.items.len() > 0),
            value matches Some(v) ==> *v == self@.items[self@.items.len() - 1],
    {
        if self.is_empty() {
            None
        } else {
            Some(&self.contents[self.contents.len() - 1])
        }
    }
}

impl<T> Borrow<[T]> for RingDeque<T> where T: Eq + Ord {
    /// All elements, from front to back.
    fn borrow(&self) -> (slice: &[T])
        ensures
            <[T] as View>::view(slice) == self@.items,
    {
        self.as_slice()
    }
}

impl<T> AsMut<[T]> for RingDeque<T> {
    /// All elements, from front to back, to be changed in their places. As a
    /// slice keeps its length, so does the deque.
    fn as_mut(&mut self) -> (slice: &mut [T])
        ensures
            slice@ == old(self)@.items,
            final(self)@ == old(self)@.with(final(slice)@),
            final(self)@.items == final(slice)@,
            final(self)@.capacity == old(self)@.capacity,
            final(self).span() == old(self).span(),
            old(self).wf() && final(slice)@.len() == slice@.len() ==> final(self).wf(),
    {
        self.contents.as_mut_slice()
    }
}

impl<T> AsRef<[T]> for RingDeque<T> {
    /// All elements, from front to back.
    fn as_ref(&self) -> (slice: &[T])
        ensures
            slice@ == self@.items,
    {
        self.as_slice()
    }
}

/// No deque holds more elements than its capacity, and its elements lie side by
/// side in a region of twice the capacity.
pub proof fn law_deque_is_bounded<T>(deque: RingDeque<T>)
    requires
        deque.wf(),
    ensures
        0 < deque@.capacity,
        deque@.items.len() <= deque@.capacity,
        deque.span().end - deque.span().start == deque@.items.len(),
        0 <= deque.span().start <= deque.span().end <= 2 * deque@.capacity,
{
}

} // verus!

//! Where the elements of a ring lie.
//!
//! A ring of `capacity` elements occupies a region of `2 * capacity`
//! positions in which the positions `p` and `p + capacity` name the same
//! place. Its elements are the positions from `start` up to, and without,
//! `end`. A window that would leave the region at one side is moved by
//! `capacity` positions, which changes what it is called but not what it shows.
use vstd::prelude::*;

use crate::error::Error;

verus! {

/// The positions that a [`Window`] covers.
pub struct Span {
    /// How many places the ring has.
    pub capacity: int,
    /// The position of the first element.
    pub start: int,
    /// The position behind the last element.
    pub end: int,
}

impl Span {
    /// The start lies in the first half of the region or on its seam, and there
    /// are no more elements than places.
    pub open spec fn valid(self) -> bool {
        &&& 0 < self.capacity
        &&& 0 <= self.start <= self.capacity
        &&& self.start <= self.end <= self.start + self.capacity
    }

    /// How many elements the span covers.
    pub open spec fn len(self) -> int {
        self.end - self.start
    }

    /// The span covers no element.
    pub open spec fn is_empty(self) -> bool {
        self.start == self.end
    }

    /// The span covers every place of the ring.
    pub open spec fn is_full(self) -> bool {
        self.len() == self.capacity
    }

    /// The same elements, `distance` positions further on.
    pub open spec fn moved(self, distance: int) -> Span {
        Span { start: self.start + distance, end: self.end + distance, ..self }
    }

    /// The span with `n` more positions at its end.
    pub open spec fn grown_back(self, n: int) -> Span {
        Span { end: self.end + n, ..self }
    }

    /// The span with `n` more positions at its start, after a move where there
    /// are not so many positions before the start.
    pub open spec fn grown_front(self, n: int) -> Span {
        let room = if self.start < n { self.moved(self.capacity) } else { self };
        Span { start: room.start - n, ..room }
    }

    /// The span without its first position, moved back where it would begin
    /// behind the seam.
    pub open spec fn shrunk_front(self) -> Span {
        let rest = Span { start: self.start + 1, ..self };
        if rest.start > rest.capacity { rest.moved(-rest.capacity) } else { rest }
    }

    /// The span without its last position.
    pub open spec fn shrunk_back(self) -> Span {
        Span { end: self.end - 1, ..self }
    }
}

/// The capacity of a ring and the positions of its elements.
///
/// A window decides which position an element is written to or read from; it
/// holds no elements.
pub struct Window {
    virt_size: usize,
    capacity: usize,
    start: usize,
    end: usize,
}

impl View for Window {
    type V = Span;

    closed spec fn view(&self) -> Span {
        Span { capacity: self.capacity as int, start: self.start as int, end: self.end as int }
    }
}

impl Window {
    /// The region is twice as long as the ring.
    pub closed spec fn region_is_double(&self) -> bool {
        self.virt_size == 2 * self.capacity
    }

    /// What holds of every window.
    pub open spec fn wf(&self) -> bool {
        &&& self@.valid()
        &&& self.region_is_double()
    }

    /// An empty window at the beginning of the region of a ring with `capacity`
    /// places.
    pub fn new(capacity: usize) -> (window: Window)
        requires
            0 < capacity,
            2 * capacity <= usize::MAX,
        ensures
            window.wf(),
            window@ == (Span { capacity: capacity as int, start: 0, end: 0 }),
    {
        Window { virt_size: 2 * capacity, capacity, start: 0, end: 0 }
    }

    /// How many places the ring has.
    pub fn capacity(&self) -> (capacity: usize)
        requires
            self.wf(),
        ensures
            capacity == self@.capacity,
    {
        self.capacity
    }

    /// How many positions the region has.
    pub fn virtual_capacity(&self) -> (size: usize)
        requires
            self.wf(),
        ensures
            size == 2 * self@.capacity,
    {
        self.virt_size
    }

    /// The position of the first element.
    pub fn start(&self) -> (start: usize)
        requires
            self.wf(),
        ensures
            start == self@.start,
    {
        self.start
    }

    /// How many elements there are.
    pub fn len(&self) -> (len: usize)
        requires
            self.wf(),
        ensures
            len == self@.len(),
            len == self@.end - self@.start,
    {
        self.end - self.start
    }

    /// Whether there is no element.
    pub fn is_empty(&self) -> (empty: bool)
        requires
            self.wf(),
        ensures
            empty == self@.is_empty(),
            empty == (self@.end - self@.start == 0),
    {
        self.start == self.end
    }

    /// Makes room for an element behind the last one, and returns the position
    /// it belongs to.
    pub fn push_back(&mut self) -> (position: Result<usize, Error>)
        requires
            old(self).wf(),
        ensures
            final(self).wf(),
            old(self)@.is_full() ==> position == Err::<usize, Error>(Error::BufferFull)
                && final(self)@ == old(self)@,
            !old(self)@.is_full() ==> position == Ok::<usize, Error>(old(self)@.end as usize)
                && final(self)@ == old(self)@.grown_back(1),
            final(self)@.capacity == old(self)@.capacity,
            0 <= final(self)@.start <= final(self)@.end <= 2 * final(self)@.capacity,
            position.is_ok() == (old(self)@.end - old(self)@.start < old(self)@.capacity),
            final(self)@.start == old(self)@.start,
            position.is_err() ==> final(self)@.end == old(self)@.end,
            position matches Ok(p) ==> p == old(self)@.end && final(self)@.end == p + 1,
    {
        if self.len() == self.capacity {
            return Err(Error::BufferFull);
        }
        let position: usize = self.end;
        self.end = self.new_end(position);
        Ok(position)
    }

    /// Makes room for an element before the first one, and returns the position
    /// it belongs to.
    pub fn push_front(&mut self) -> (position: Result<usize, Error>)
        requires
            old(self).wf(),
        ensures
            final(self).wf(),
            old(self)@.is_full() ==> position == Err::<usize, Error>(Error::BufferFull)
                && final(self)@ == old(self)@,
            !old(self)@.is_full() ==> position == Ok::<usize, Error>(final(self)@.start as usize)
                && final(self)@ == old(self)@.grown_front(1),
            final(self)@.capacity == old(self)@.capacity,
            0 <= final(self)@.start <= final(self)@.end <= 2 * final(self)@.capacity,
            position.is_ok() == (old(self)@.end - old(self)@.start < old(self)@.capacity),
            position.is_err() ==> final(self)@ == old(self)@,
            position matches Ok(p) ==> {
                &&& p == final(self)@.start
                &&& p == old(self)@.start - 1 || p == old(self)@.start - 1 + old(self)@.capacity
                &&& final(self)@.end - p == old(self)@.end - old(self)@.start + 1
            },
    {
        if self.len() == self.capacity {
            return Err(Error::BufferFull);
        }
        self.cond_move_address_back();
        self.start = self.start - 1;
        Ok(self.start)
    }

    /// Makes room for `n` elements behind the last one, or for none where they
    /// do not all fit, and returns the position of the first of them.
    pub fn extend_back(&mut self, n: usize) -> (position: Result<usize, Error>)
        requires
            old(self).wf(),
        ensures
            final(self).wf(),
            n > old(self)@.capacity - old(self)@.len() ==> position == Err::<usize, Error>(
                Error::BufferFull,
            ) && final(self)@ == old(self)@,
            n <= old(self)@.capacity - old(self)@.len() ==> position == Ok::<usize, Error>(
                old(self)@.end as usize,
            ) && final(self)@ == old(self)@.grown_back(n as int),
            final(self)@.capacity == old(self)@.capacity,
            0 <= final(self)@.start <= final(self)@.end <= 2 * final(self)@.capacity,
            position.is_ok() == (n <= old(self)@.capacity - (old(self)@.end - old(self)@.start)),
            final(self)@.start == old(self)@.start,
            position.is_err() ==> final(self)@.end == old(self)@.end,
            position matches Ok(p) ==> p == old(self)@.end && final(self)@.end == p + n,
    {
        if n > self.capacity - self.len() {
            return Err(Error::BufferFull);
        }
        let position: usize = self.end;
        self.end = position + n;
        Ok(position)
    }

    /// Makes room for `n` elements before the first one, or for none where they
    /// do not all fit, and returns the position of the first of them.
    pub fn extend_front(&mut self, n: usize) -> (position: Result<usize, Error>)
        requires
            old(self).wf(),
        ensures
            final(self).wf(),
            n > old(self)@.capacity - old(self)@.len() ==> position == Err::<usize, Error>(
                Error::BufferFull,
            ) && final(self)@ == old(self)@,
            n <= old(self)@.capacity - old(self)@.len() ==> position == Ok::<usize, Error>(
                final(self)@.start as usize,
            ) && final(self)@ == old(self)@.grown_front(n as int),
            final(self)@.capacity == old(self)@.capacity,
            0 <= final(self)@.start <= final(self)@.end <= 2 * final(self)@.capacity,
            position.is_ok() == (n <= old(self)@.capacity - (old(self)@.end - old(self)@.start)),
            position.is_err() ==> final(self)@ == old(self)@,
            position matches Ok(p) ==> {
                &&& p == final(self)@.start
                &&& p == old(self)@.start - n || p == old(self)@.start - n + old(self)@.capacity
                &&& final(self)@.end - p == old(self)@.end - old(self)@.start + n
            },
    {
        if n > self.capacity - self.len() {
            return Err(Error::BufferFull);
        }
        if self.start < n {
            self.start = self.start + self.capacity;
            self.end = self.end + self.capacity;
        }
        self.start = self.start - n;
        Ok(self.start)
    }

    /// Makes room for an element behind the last one, and returns the position
    /// it belongs to. A full window gives up its first element for it, and
    /// returns the position to read that from before the other is written: they
    /// are the same place.
    pub fn push_back_rotate(&mut self) -> (positions: (Option<usize>, usize))
        requires
            old(self).wf(),
        ensures
            final(self).wf(),
            old(self)@.is_full() ==> {
                &&& positions.0 == Some(old(self)@.start as usize)
                &&& positions.1 == old(self)@.shrunk_front().end
                &&& final(self)@ == old(self)@.shrunk_front().grown_back(1)
            },
            !old(self)@.is_full() ==> {
                &&& positions.0 == None::<usize>
                &&& positions.1 == old(self)@.end
                &&& final(self)@ == old(self)@.grown_back(1)
            },
            final(self)@.capacity == old(self)@.capacity,
            0 <= final(self)@.start <= final(self)@.end <= 2 * final(self)@.capacity,
            positions.0.is_some() == (old(self)@.end - old(self)@.start == old(self)@.capacity),
            final(self)@.end == positions.1 + 1,
            positions.0 matches Some(given_up) ==> {
                &&& given_up == old(self)@.start
                &&& positions.1 == given_up || positions.1 == given_up + old(self)@.capacity
                &&& final(self)@.end - final(self)@.start == old(self)@.capacity
            },
            positions.0.is_none() ==> {
                &&& positions.1 == old(self)@.end
                &&& final(self)@.start == old(self)@.start
            },
    {
        let given_up: Option<usize> = if self.len() == self.capacity {
            self.pop_front()
        } else {
            None
        };
        let position: usize = self.end;
        self.end = self.new_end(position);
        (given_up, position)
    }

    /// Gives up the first element, and returns the position to read it from.
    pub fn pop_front(&mut self) -> (position: Option<usize>)
        requires
            old(self).wf(),
        ensures
            final(self).wf(),
            old(self)@.is_empty() ==> position == None::<usize> && final(self)@ == old(self)@,
            !old(self)@.is_empty() ==> position == Some(old(self)@.start as usize)
                && final(self)@ == old(self)@.shrunk_front(),
            final(self)@.capacity == old(self)@.capacity,
            0 <= final(self)@.start <= final(self)@.end <= 2 * final(self)@.capacity,
            position.is_some() == (old(self)@.end - old(self)@.start > 0),
            position.is_none() ==> final(self)@ == old(self)@,
            position matches Some(p) ==> {
                &&& p == old(self)@.start
                &&& final(self)@.start == p + 1 || final(self)@.start == p + 1
                    - old(self)@.capacity
                &&& final(self)@.end - final(self)@.start == old(self)@.end - p - 1
            },
    {
        if self.start == self.end {
            None
        } else {
            let position: usize = self.start;
            self.start = position + 1;
            self.cond_move_address_front();
            Some(position)
        }
    }

    /// Gives up the last element, and returns the position to read it from.
    pub fn pop_back(&mut self) -> (position: Option<usize>)
        requires
            old(self).wf(),
        ensures
            final(self).wf(),
            old(self)@.is_empty() ==> position == None::<usize> && final(self)@ == old(self)@,
            !old(self)@.is_empty() ==> position == Some(final(self)@.end as usize)
                && final(self)@ == old(self)@.shrunk_back(),
            final(self)@.capacity == old(self)@.capacity,
            0 <= final(self)@.start <= final(self)@.end <= 2 * final(self)@.capacity,
            position.is_some() == (old(self)@.end - old(self)@.start > 0),
            final(self)@.start == old(self)@.start,
            position.is_none() ==> final(self)@.end == old(self)@.end,
            position matches Some(p) ==> p == old(self)@.end - 1 && final(self)@.end == p,
    {
        if self.end == self.start {
            None
        } else {
            self.end = self.end - 1;
            Some(self.end)
        }
    }

    /// The position behind `position`, which must not leave the region.
    fn new_end(&self, position: usize) -> (next: usize)
        requires
            position < self.virt_size,
        ensures
            next == position + 1,
            next <= self.virt_size,
    {
        position + 1
    }

    /// Moves a window that begins with the region to the second half of it, so
    /// that there is a position before the start.
    fn cond_move_address_back(&mut self)
        requires
            old(self).wf(),
        ensures
            final(self).virt_size == old(self).virt_size,
            final(self)@ == if old(self)@.start == 0 {
                old(self)@.moved(old(self)@.capacity)
            } else {
                old(self)@
            },
            0 < final(self)@.start,
    {
        if self.start == 0 {
            self.start = self.start + self.capacity;
            self.end = self.end + self.capacity;
        }
    }

    /// Moves a window that begins behind the seam of the region to the first
    /// half of it.
    fn cond_move_address_front(&mut self)
        requires
            0 < old(self)@.capacity,
            old(self)@.start <= old(self)@.end <= 2 * old(self)@.capacity,
        ensures
            final(self).virt_size == old(self).virt_size,
            final(self)@ == if old(self)@.start > old(self)@.capacity {
                old(self)@.moved(-old(self)@.capacity)
            } else {
                old(self)@
            },
            final(self)@.start <= final(self)@.end,
    {
        if self.start > self.capacity {
            self.start = self.start - self.capacity;
            self.end = self.end - self.capacity;
        }
    }
}

} // verus!

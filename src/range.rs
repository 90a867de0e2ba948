use vstd::prelude::*;

verus! {

/// A coordinate type that converts to and from its plain index.
pub trait SameAs<T>: core::convert::Into<T> + core::convert::From<T> {

}

/// The coordinates from `start` up to, not including, `end`.
#[derive(Copy, Clone)]
pub struct Range<T> {
    pub start: T,
    pub end: T,
}

impl<T> Range<T> where T: SameAs<usize> {
    pub fn new(start: T, end: T) -> (r: Range<T>)
        ensures
            r.start == start,
            r.end == end,
    {
        Range { start, end }
    }
}

/// A cursor over the coordinates of a range.
pub struct RangeIterator<T> where T: SameAs<usize> {
    range: Range<T>,
    i: usize,
    end: usize,
}

impl<T> RangeIterator<T> where T: Copy + SameAs<usize> {
    /// The range walked.
    pub closed spec fn range(&self) -> Range<T> {
        self.range
    }

    /// The index of the coordinate that comes next.
    pub closed spec fn position(&self) -> usize {
        self.i
    }

    /// The index of the range's end.
    pub closed spec fn end_index(&self) -> usize {
        self.end
    }

    /// The next coordinate, or `None` once the index has reached the end's.
    pub fn next(&mut self) -> (r: Option<T>)
        ensures
            final(self).range() == old(self).range(),
            final(self).end_index() == old(self).end_index(),
            r is None <==> old(self).position() >= old(self).end_index(),
            r is None ==> final(self).position() == old(self).position(),
            r is Some ==> final(self).position() == old(self).position() + 1 && call_ensures(
                T::from,
                (old(self).position(),),
                r->0,
            ),
    {
        if self.i >= self.end {
            None
        } else {
            let row = T::from(self.i);
            self.i += 1;
            Some(row)
        }
    }
}

impl<T> Range<T> where T: Copy + SameAs<usize> {
    /// A cursor that starts at the range's first coordinate.
    pub fn into_iter(self) -> (r: RangeIterator<T>)
        ensures
            r.range() == self,
            call_ensures(T::into, (self.start,), r.position()),
            call_ensures(T::into, (self.end,), r.end_index()),
    {
        RangeIterator { range: self, i: self.start.into(), end: self.end.into() }
    }
}

} // verus!

//! Ways to walk a vector: over its latest elements, round from a starting
//! place, and slice by slice.
use vstd::prelude::*;

verus! {

/// The window that [`LatestIterExt::latest_iter`] walks: of `items` without
/// its last `offset` elements, the last `limit`.
pub open spec fn latest_window<T>(items: Seq<T>, limit: nat, offset: nat) -> Seq<T> {
    let kept = if offset < items.len() {
        items.take(items.len() - offset)
    } else {
        Seq::empty()
    };
    if kept.len() > limit {
        kept.skip(kept.len() - limit)
    } else {
        kept
    }
}

/// A walk over a window of a vector, from either end.
pub struct LatestIter<'a, T> {
    start: usize,
    end: usize,
    data: &'a Vec<T>,
}

impl<'a, T> LatestIter<'a, T> {
    /// The window lies within the vector.
    #[verifier::type_invariant]
    pub closed spec fn wf(self) -> bool {
        self.start <= self.end <= self.data@.len()
    }

    /// What is left to walk, in the order of the vector.
    pub closed spec fn remaining(self) -> Seq<T> {
        self.data@.subrange(self.start as int, self.end as int)
    }

    fn new(data: &'a Vec<T>, start: usize, end: usize) -> (r: LatestIter<'a, T>)
        requires
            start <= end <= data@.len(),
        ensures
            r.remaining() == data@.subrange(start as int, end as int),
    {
        LatestIter { start, end, data }
    }

    /// The first element that is left, which is then left no more.
    pub fn next(&mut self) -> (r: Option<&'a T>)
        ensures
            old(self).remaining().len() == 0 ==> r is None && final(self).remaining() == old(
                self,
            ).remaining(),
            old(self).remaining().len() > 0 ==> r == Some(&old(self).remaining().first())
                && final(self).remaining() == old(self).remaining().drop_first(),
    {
        proof {
            use_type_invariant(&*self);
        }
        if self.start >= self.end {
            return None;
        }
        let data: &'a Vec<T> = self.data;
        let out: &'a T = &data[self.start];
        self.start = self.start + 1;
        assert(self.remaining() =~= old(self).remaining().drop_first());
        Some(out)
    }

    /// The last element that is left, which is then left no more.
    pub fn next_back(&mut self) -> (r: Option<&'a T>)
        ensures
            old(self).remaining().len() == 0 ==> r is None && final(self).remaining() == old(
                self,
            ).remaining(),
            old(self).remaining().len() > 0 ==> r == Some(&old(self).remaining().last())
                && final(self).remaining() == old(self).remaining().drop_last(),
    {
        proof {
            use_type_invariant(&*self);
        }
        if self.end <= self.start {
            return None;
        }
        self.end = self.end - 1;
        let data: &'a Vec<T> = self.data;
        let out: &'a T = &data[self.end];
        assert(self.remaining() =~= old(self).remaining().drop_last());
        Some(out)
    }
}

/// Walking the latest elements of a collection.
pub trait LatestIterExt<T> {
    /// A walk over the last `limit` elements that come before the last
    /// `offset` ones.
    fn latest_iter(&self, limit: usize, offset: usize) -> LatestIter<'_, T>;
}

impl<T> LatestIterExt<T> for Vec<T> {
    fn latest_iter(&self, limit: usize, offset: usize) -> (r: LatestIter<'_, T>)
        ensures
            r.remaining() == latest_window(self@, limit as nat, offset as nat),
    {
        let length: usize = self.len();
        if offset >= length {
            let r = LatestIter::new(self, 0, 0);
            assert(r.remaining() =~= latest_window(self@, limit as nat, offset as nat));
            return r;
        }
        let kept: usize = length - offset;
        let start: usize = if kept > limit {
            kept - limit
        } else {
            0
        };
        let r = LatestIter::new(self, start, kept);
        assert(r.remaining() =~= latest_window(self@, limit as nat, offset as nat));
        r
    }
}

/// A walk round a vector: from a starting place to the end and on from the
/// beginning, until the starting place comes again.
pub struct LoopIter<'a, T> {
    start: usize,
    index: Option<usize>,
    data: &'a Vec<T>,
}

impl<'a, T> LoopIter<'a, T> {
    /// The place the walk started from.
    pub closed spec fn spec_start(self) -> int {
        self.start as int
    }

    /// The place of the element that comes next; `None` before the first step.
    pub closed spec fn spec_index(self) -> Option<int> {
        match self.index {
            Some(i) => Some(i as int),
            None => None,
        }
    }

    /// The vector that is walked.
    pub closed spec fn spec_data(self) -> Seq<T> {
        self.data@
    }

    /// The place that the next step looks at.
    pub open spec fn cursor(self) -> int {
        match self.spec_index() {
            Some(i) => i,
            None => self.spec_start(),
        }
    }

    /// Whether the walk has come round to where it started.
    pub open spec fn done(self) -> bool {
        self.spec_index() == Some(self.spec_start())
    }

    fn new(start: usize, data: &'a Vec<T>) -> (r: LoopIter<'a, T>)
        ensures
            r.spec_start() == start,
            r.spec_index() is None,
            r.spec_data() == data@,
    {
        LoopIter { start, index: None, data }
    }

    /// The element at the place the walk has come to, and a step to the place
    /// after it, which after the last place is the first. Nothing once the
    /// walk has come round.
    pub fn next(&mut self) -> (r: Option<&'a T>)
        requires
            !old(self).done() ==> old(self).spec_data().len() > 0 && old(self).cursor()
                < usize::MAX,
        ensures
            final(self).spec_start() == old(self).spec_start(),
            final(self).spec_data() == old(self).spec_data(),
            old(self).done() ==> r is None && final(self).spec_index() == old(self).spec_index(),
            !old(self).done() ==> final(self).spec_index() == Some(
                (old(self).cursor() + 1) % (old(self).spec_data().len() as int),
            ),
            !old(self).done() && old(self).cursor() < old(self).spec_data().len() ==> r == Some(
                &old(self).spec_data()[old(self).cursor()],
            ),
            !old(self).done() && old(self).cursor() >= old(self).spec_data().len() ==> r is None,
    {
        let index: usize = match self.index {
            Some(i) => {
                if i == self.start {
                    return None;
                }
                i
            },
            None => self.start,
        };
        let data: &'a Vec<T> = self.data;
        let out: Option<&'a T> = if index < data.len() {
            Some(&data[index])
        } else {
            None
        };
        self.index = Some((index + 1) % data.len());
        out
    }
}

/// Walking round a collection.
pub trait LoopIterExt<T> {
    /// A walk round the collection that starts at place `start`.
    fn loop_iter(&self, start: usize) -> LoopIter<'_, T>;
}

impl<T> LoopIterExt<T> for Vec<T> {
    fn loop_iter(&self, start: usize) -> (r: LoopIter<'_, T>)
        ensures
            r.spec_start() == start,
            r.spec_index() is None,
            r.spec_data() == self@,
    {
        LoopIter::new(start, self)
    }
}

/// A walk over a vector in slices of a fixed size; the last slice holds what
/// is left.
pub struct SliceIter<'a, T> {
    size: usize,
    index: usize,
    data: &'a Vec<T>,
}

/// What the references of `items` point at.
pub open spec fn pointed<T>(items: Seq<&T>) -> Seq<T> {
    items.map_values(|item: &T| *item)
}

impl<'a, T> SliceIter<'a, T> {
    /// The size of a slice.
    pub closed spec fn spec_size(self) -> int {
        self.size as int
    }

    /// The place where the next slice starts.
    pub closed spec fn spec_index(self) -> int {
        self.index as int
    }

    /// The vector that is walked.
    pub closed spec fn spec_data(self) -> Seq<T> {
        self.data@
    }

    /// The slice that comes next, if one is left.
    pub open spec fn next_slice(self) -> Option<Seq<T>> {
        if self.spec_size() == 0 || self.spec_index() >= self.spec_data().len() {
            None
        } else if self.spec_index() + self.spec_size() >= self.spec_data().len() {
            Some(self.spec_data().skip(self.spec_index()))
        } else {
            Some(
                self.spec_data().subrange(
                    self.spec_index(),
                    self.spec_index() + self.spec_size(),
                ),
            )
        }
    }

    /// Where the walk stands after the next slice: behind it, which is the
    /// end of the vector for the last slice; where it stood, if none is left.
    pub open spec fn after_slice(self) -> int {
        if self.next_slice() is None {
            self.spec_index()
        } else if self.spec_index() + self.spec_size() >= self.spec_data().len() {
            self.spec_data().len() as int
        } else {
            self.spec_index() + self.spec_size()
        }
    }

    /// The walk over `data` in slices of `size` elements.
    pub fn new(data: &'a Vec<T>, size: usize) -> (r: SliceIter<'a, T>)
        ensures
            r.spec_size() == size,
            r.spec_index() == 0,
            r.spec_data() == data@,
    {
        SliceIter { size, index: 0, data }
    }

    /// The next slice, if one is left; the walk then stands behind it.
    pub fn next(&mut self) -> (r: Option<Vec<&'a T>>)
        ensures
            final(self).spec_size() == old(self).spec_size(),
            final(self).spec_data() == old(self).spec_data(),
            r is Some <==> old(self).next_slice() is Some,
            r matches Some(items) ==> Some(pointed(items@)) == old(self).next_slice(),
            final(self).spec_index() == old(self).after_slice(),
    {
        if self.size == 0 {
            return None;
        }
        let data: &'a Vec<T> = self.data;
        let len: usize = data.len();
        if self.index >= len {
            return None;
        }
        let stop: usize = if self.size >= len - self.index {
            len
        } else {
            self.index + self.size
        };
        let mut out: Vec<&'a T> = Vec::new();
        let mut at: usize = self.index;
        while at < stop
            invariant
                self.index <= at <= stop <= len,
                len == data@.len(),
                pointed(out@) == data@.subrange(self.index as int, at as int),
            decreases stop - at,
        {
            let item: &'a T = &data[at];
            let ghost before = pointed(out@);
            out.push(item);
            assert(pointed(out@) =~= before.push(*item));
            assert(data@.subrange(self.index as int, at + 1) =~= data@.subrange(
                self.index as int,
                at as int,
            ).push(data@[at as int]));
            at = at + 1;
        }
        assert(data@.skip(self.index as int) =~= data@.subrange(self.index as int, len as int));
        self.index = stop;
        Some(out)
    }
}

/// Walking a collection slice by slice.
pub trait SliceIterExt<T> {
    /// A walk over the collection in slices of `num` elements.
    fn slice_iter(&self, num: usize) -> SliceIter<'_, T>;
}

impl<T> SliceIterExt<T> for Vec<T> {
    fn slice_iter(&self, num: usize) -> (r: SliceIter<'_, T>)
        ensures
            r.spec_size() == num,
            r.spec_index() == 0,
            r.spec_data() == self@,
    {
        SliceIter::new(self, num)
    }
}

} // verus!

//! A two-dimensional vector stored flat: `outer_extent` rows of
//! `inner_extent` elements each.

use vstd::prelude::*;

verus! {

/// A flat vector with a two-dimensional shape.
#[derive(Debug)]
pub struct Vec2d<T> {
    data: Vec<T>,
    outer_extent: usize,
    inner_extent: usize,
}

impl<T> Vec2d<T> {
    /// The flat contents.
    pub closed spec fn view(&self) -> Seq<T> {
        self.data@
    }

    /// The number of rows.
    pub closed spec fn spec_outer_extent(&self) -> usize {
        self.outer_extent
    }

    /// The number of elements per row.
    pub closed spec fn spec_inner_extent(&self) -> usize {
        self.inner_extent
    }

    /// The data holds exactly the declared shape.
    pub open spec fn wf(&self) -> bool {
        self.view().len() == self.spec_outer_extent() * self.spec_inner_extent()
    }

    /// An empty vector of shape zero by zero.
    pub fn new() -> (r: Vec2d<T>)
        ensures
            r.wf(),
            r.view() == Seq::<T>::empty(),
            r.spec_outer_extent() == 0,
            r.spec_inner_extent() == 0,
    {
        Vec2d { data: Vec::new(), outer_extent: 0, inner_extent: 0 }
    }

    /// Shape flat data as a two-dimensional vector; the length must match.
    pub fn from(data: Vec<T>, outer_extent: usize, inner_extent: usize) -> (r: Vec2d<T>)
        requires
            data@.len() == outer_extent * inner_extent,
        ensures
            r.wf(),
            r.view() == data@,
            r.spec_outer_extent() == outer_extent,
            r.spec_inner_extent() == inner_extent,
    {
        Vec2d { data, outer_extent, inner_extent }
    }

    /// Shape a vector as a single row.
    pub fn from_inner(vec: Vec<T>) -> (r: Vec2d<T>)
        ensures
            r.wf(),
            r.view() == vec@,
            r.spec_outer_extent() == 1,
            r.spec_inner_extent() == vec@.len(),
    {
        let len = vec.len();
        Vec2d { data: vec, outer_extent: 1, inner_extent: len }
    }

    /// The number of elements.
    pub fn len(&self) -> (r: usize)
        ensures
            r == self.view().len(),
    {
        self.data.len()
    }

    /// The number of elements per row.
    pub fn inner_extent(&self) -> (r: usize)
        ensures
            r == self.spec_inner_extent(),
    {
        self.inner_extent
    }

    /// The number of rows.
    pub fn outer_extent(&self) -> (r: usize)
        ensures
            r == self.spec_outer_extent(),
    {
        self.outer_extent
    }

    /// The element at a flat position.
    pub fn get(&self, i: usize) -> (r: &T)
        requires
            i < self.view().len(),
        ensures
            *r == self.view()[i as int],
    {
        &self.data[i]
    }

    /// The elements, flat, for iteration.
    pub fn iter_elements(&self) -> (r: &Vec<T>)
        ensures
            r@ == self.view(),
    {
        &self.data
    }

    /// The elements, flat, consuming the vector.
    pub fn into_iter_elements(self) -> (r: Vec<T>)
        ensures
            r@ == self.view(),
    {
        self.data
    }
}

impl<T: Copy> Vec2d<T> {
    /// One row, copied out.
    pub fn row(&self, i: usize) -> (r: Vec<T>)
        requires
            self.wf(),
            i < self.spec_outer_extent(),
        ensures
            r@ == self.view().subrange(
                i as int * self.spec_inner_extent() as int,
                (i as int + 1) * self.spec_inner_extent() as int,
            ),
    {
        let total = self.data.len();
        proof {
            assert((i as int) * (self.inner_extent as int) + self.inner_extent as int <= (
            self.outer_extent as int) * (self.inner_extent as int)) by (nonlinear_arith)
                requires
                    0 <= i as int,
                    (i as int) < (self.outer_extent as int),
                    0 <= self.inner_extent as int,
            ;
            assert(0 <= (i as int) * (self.inner_extent as int)) by (nonlinear_arith)
                requires
                    0 <= i as int,
                    0 <= self.inner_extent as int,
            ;
            assert((i as int + 1) * (self.inner_extent as int) == (i as int) * (
            self.inner_extent as int) + self.inner_extent as int) by (nonlinear_arith);
            assert(self.view().len() == total);
        }
        let base = i * self.inner_extent;
        let mut out: Vec<T> = Vec::new();
        let mut j: usize = 0;
        while j < self.inner_extent
            invariant
                j <= self.inner_extent,
                base == i as int * self.spec_inner_extent() as int,
                base + self.spec_inner_extent() <= self.view().len(),
                self.view().len() <= usize::MAX,
                self.spec_inner_extent() == self.inner_extent,
                out@ == self.view().subrange(base as int, base as int + j as int),
            decreases self.inner_extent - j,
        {
            out.push(*self.get(base + j));
            proof {
                assert(out@ =~= self.view().subrange(base as int, base as int + j as int + 1));
            }
            j = j + 1;
        }
        out
    }
}

impl<T> Default for Vec2d<T> {
    fn default() -> (r: Vec2d<T>)
        ensures
            r.view() == Seq::<T>::empty(),
            r.spec_outer_extent() == 0,
            r.spec_inner_extent() == 0,
    {
        Vec2d::new()
    }
}

} // verus!

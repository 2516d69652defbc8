//! Point sets: `n` points of one fixed dimensionality, stored row after row.
//!
//! The coordinates are never computed with here, only moved, so the type of a
//! coordinate is left open.

use vstd::prelude::*;

verus! {

/// `n` points of `d` coordinates each, in one row-major buffer.
#[derive(Debug)]
pub struct PointSet<T> {
    data: Vec<T>,
    dim: usize,
    count: usize,
}

/// The `i`-th run of `width` items of `flat`.
pub open spec fn row_of<T>(flat: Seq<T>, width: nat, i: int) -> Seq<T> {
    flat.subrange(i * width, (i + 1) * width)
}

/// A list of machine indices as numbers.
pub open spec fn as_ints(s: Seq<usize>) -> Seq<int> {
    s.map_values(|i: usize| i as int)
}

/// The rows of a row-major buffer, as a function of the row's number.
pub open spec fn row_at<T>(flat: Seq<T>, width: nat) -> spec_fn(int) -> Seq<T> {
    |i: int| row_of(flat, width, i)
}

/// The rows `picked` of a row-major buffer, one after the other.
pub open spec fn gathered<T>(flat: Seq<T>, width: nat, picked: Seq<int>) -> Seq<T> {
    picked.map_values(row_at(flat, width)).flatten()
}

/// Gathering one row more appends that row.
pub proof fn lemma_gathered_push<T>(flat: Seq<T>, width: nat, picked: Seq<int>, i: int)
    ensures
        gathered(flat, width, picked.push(i)) == gathered(flat, width, picked) + row_of(
            flat,
            width,
            i,
        ),
{
    let rows = picked.map_values(row_at(flat, width));
    assert(picked.push(i).map_values(row_at(flat, width)) =~= rows.push(row_of(flat, width, i)));
    rows.lemma_flatten_push(row_of(flat, width, i));
}

/// Appends a copy of `src` to `out`.
pub fn append_copy<T: Copy>(out: &mut Vec<T>, src: &[T])
    ensures
        final(out)@ == old(out)@ + src@,
{
    let mut j: usize = 0;
    while j < src.len()
        invariant
            j <= src@.len(),
            out@ == old(out)@ + src@.take(j as int),
        decreases src.len() - j,
    {
        out.push(src[j]);
        proof {
            assert(src@.take(j + 1) =~= src@.take(j as int).push(src@[j as int]));
        }
        j = j + 1;
    }
    proof {
        assert(src@.take(j as int) =~= src@);
    }
}

/// Row `i` of a buffer of `count` rows lies inside the buffer.
pub proof fn lemma_row_bounds(count: nat, width: nat, i: int)
    requires
        0 <= i < count,
    ensures
        0 <= i * width <= (i + 1) * width <= count * width,
        (i + 1) * width == i * width + width,
{
    assert(0 <= i * width) by (nonlinear_arith)
        requires
            0 <= i,
            0 <= width,
    ;
    assert((i + 1) * width == i * width + width) by (nonlinear_arith);
    assert((i + 1) * width <= count * width) by (nonlinear_arith)
        requires
            i + 1 <= count,
            0 <= width,
    ;
}

impl<T> PointSet<T> {
    /// The buffer, row after row.
    pub closed spec fn flat(self) -> Seq<T> {
        self.data@
    }

    /// The number of coordinates of each point.
    pub closed spec fn width(self) -> nat {
        self.dim as nat
    }

    /// The number of points.
    pub closed spec fn count(self) -> nat {
        self.count as nat
    }

    /// Every point has exactly `width()` coordinates, and there is at least one
    /// coordinate to a point.
    #[verifier::type_invariant]
    pub open spec fn wf(self) -> bool {
        &&& self.width() >= 1
        &&& self.flat().len() == self.count() * self.width()
    }

    /// Point `i`.
    pub open spec fn point(self, i: int) -> Seq<T> {
        row_of(self.flat(), self.width(), i)
    }

    /// Takes a row-major buffer of points of `dim` coordinates each.
    ///
    /// There is a point set exactly when `dim` is at least one and the buffer holds whole
    /// points only.
    pub fn new(data: Vec<T>, dim: usize) -> (r: Option<PointSet<T>>)
        ensures
            r is Some <==> dim >= 1 && data@.len() % (dim as nat) == 0,
            r matches Some(p) ==> p.wf() && p.flat() == data@ && p.width() == dim && p.count()
                == data@.len() / (dim as nat),
    {
        if dim == 0 {
            return None;
        }
        let len: usize = data.len();
        if len % dim != 0 {
            return None;
        }
        let count: usize = len / dim;
        proof {
            vstd::arithmetic::div_mod::lemma_fundamental_div_mod(len as int, dim as int);
            assert(len == (len / dim) * dim) by (nonlinear_arith)
                requires
                    len == dim * (len / dim) + len % dim,
                    len % dim == 0,
            ;
        }
        Some(PointSet { data, dim, count })
    }

    /// The number of points.
    pub fn len(&self) -> (r: usize)
        ensures
            r == self.count(),
    {
        self.count
    }

    /// The number of coordinates of each point.
    pub fn dim(&self) -> (r: usize)
        ensures
            r == self.width(),
            r >= 1,
    {
        proof {
            use_type_invariant(self);
        }
        self.dim
    }

    /// The whole buffer, row after row.
    pub fn as_slice(&self) -> (r: &[T])
        ensures
            r@ == self.flat(),
    {
        self.data.as_slice()
    }

    /// Point `i`.
    pub fn row(&self, i: usize) -> (r: &[T])
        requires
            i < self.count(),
        ensures
            r@ == self.point(i as int),
            r@.len() == self.width(),
    {
        let len: usize = self.data.len();
        proof {
            use_type_invariant(self);
            lemma_row_bounds(self.count(), self.width(), i as int);
            assert(i * self.dim + self.dim <= len);
        }
        let start: usize = i * self.dim;
        let end: usize = start + self.dim;
        vstd::slice::slice_subrange(self.data.as_slice(), start, end)
    }
}

impl<T: Copy> PointSet<T> {
    /// The points `picked`, in that order, as a point set of their own.
    pub fn select(&self, picked: &Vec<usize>) -> (r: PointSet<T>)
        requires
            forall|j: int| 0 <= j < picked@.len() ==> (#[trigger] picked@[j]) < self.count(),
        ensures
            r.wf(),
            r.width() == self.width(),
            r.count() == picked@.len(),
            r.flat() == gathered(self.flat(), self.width(), as_ints(picked@)),
    {
        proof {
            use_type_invariant(self);
            assert(as_ints(picked@.take(0)) =~= Seq::<int>::empty());
            assert(gathered(self.flat(), self.width(), Seq::<int>::empty()) =~= Seq::<T>::empty())
                by {
                reveal_with_fuel(Seq::flatten, 1);
                assert(Seq::<int>::empty().map_values(row_at(self.flat(), self.width()))
                    =~= Seq::<Seq<T>>::empty());
            }
        }
        let mut data: Vec<T> = Vec::new();
        let mut p: usize = 0;
        while p < picked.len()
            invariant
                p <= picked@.len(),
                self.wf(),
                forall|j: int| 0 <= j < picked@.len() ==> (#[trigger] picked@[j]) < self.count(),
                data@ == gathered(self.flat(), self.width(), as_ints(picked@.take(p as int))),
                data@.len() == p * self.width(),
            decreases picked.len() - p,
        {
            let i: usize = picked[p];
            let row = self.row(i);
            proof {
                assert(as_ints(picked@.take(p + 1)) =~= as_ints(picked@.take(p as int)).push(
                    i as int,
                ));
                lemma_gathered_push(
                    self.flat(),
                    self.width(),
                    as_ints(picked@.take(p as int)),
                    i as int,
                );
                assert((p + 1) * self.width() == p * self.width() + self.width())
                    by (nonlinear_arith);
            }
            append_copy(&mut data, row);
            p = p + 1;
        }
        proof {
            assert(picked@.take(p as int) =~= picked@);
        }
        PointSet { data, dim: self.dim, count: picked.len() }
    }
}

} // verus!

//! The tensor type: a flat element buffer plus a shape.
//!
//! A shape lists the dimension sizes from the outermost axis to the
//! innermost one, so the last axis is contiguous in memory.  Every tensor
//! maintains the invariant that its buffer holds exactly one element per
//! point of the shape, and that this element count fits in a `u32`.

use vstd::prelude::*;

verus! {

/// Number of elements a shape describes: the product of its dimensions.
/// The empty shape describes a single scalar.
pub open spec fn shape_product(s: Seq<u32>) -> nat
    decreases s.len(),
{
    if s.len() == 0 {
        1
    } else {
        shape_product(s.drop_last()) * (s.last() as nat)
    }
}

/// Row-major flat index of the coordinates `pos` under shape `s`:
/// the last axis varies fastest.
pub open spec fn flat_index(pos: Seq<u32>, s: Seq<u32>) -> nat
    recommends
        pos.len() == s.len(),
    decreases s.len(),
{
    if s.len() == 0 {
        0
    } else {
        flat_index(pos.drop_last(), s.drop_last()) * (s.last() as nat) + (pos.last() as nat)
    }
}

/// The coordinates are inside the shape on every axis.
pub open spec fn coords_in_shape(pos: Seq<u32>, s: Seq<u32>) -> bool {
    &&& pos.len() == s.len()
    &&& forall|i: int| 0 <= i < s.len() ==> pos[i] < s[i]
}

/// In-bounds coordinates give an in-bounds flat index.
pub proof fn lemma_flat_index_bound(pos: Seq<u32>, s: Seq<u32>)
    requires
        coords_in_shape(pos, s),
    ensures
        flat_index(pos, s) < shape_product(s),
    decreases s.len(),
{
    if s.len() == 0 {
    } else {
        assert(coords_in_shape(pos.drop_last(), s.drop_last()));
        lemma_flat_index_bound(pos.drop_last(), s.drop_last());
        let f = flat_index(pos.drop_last(), s.drop_last());
        let p = shape_product(s.drop_last());
        assert(f * s.last() + pos.last() < p * s.last()) by (nonlinear_arith)
            requires
                f < p,
                pos.last() < s.last(),
        ;
    }
}

/// The main tensor struct, with data and a shape ordered
/// `[..., z, y, x]`.
#[derive(Clone)]
pub struct Tensor<T> {
    data: Vec<T>,
    shape: Vec<u32>,
}

impl<T> Tensor<T> {
    /// The elements, in row-major order.
    pub closed spec fn data_seq(&self) -> Seq<T> {
        self.data@
    }

    /// The dimension sizes, outermost first.
    pub closed spec fn shape_seq(&self) -> Seq<u32> {
        self.shape@
    }

    /// Well-formedness: one element per point of the shape, and an element
    /// count small enough for 32-bit indexing.
    pub open spec fn wf(&self) -> bool {
        &&& self.data_seq().len() == shape_product(self.shape_seq())
        &&& shape_product(self.shape_seq()) <= u32::MAX
    }

    /// Returns a reference to the data in the tensor.
    pub fn get_data(&self) -> (r: &Vec<T>)
        ensures
            r@ == self.data_seq(),
    {
        &self.data
    }

    /// Returns a reference to the shape of the tensor.
    pub fn get_shape(&self) -> (r: &Vec<u32>)
        ensures
            r@ == self.shape_seq(),
    {
        &self.shape
    }

    /// Counts the elements in the tensor.
    pub fn count_data(&self) -> (r: usize)
        ensures
            r == self.data_seq().len(),
    {
        self.data.len()
    }
}

/// Product of the dimensions in `shape[..n]`, or `None` when it exceeds
/// `u32::MAX`.
pub(crate) fn checked_shape_product(shape: &[u32]) -> (r: Option<u32>)
    ensures
        r is Some <==> shape_product(shape@) <= u32::MAX,
        r is Some ==> r.unwrap() == shape_product(shape@),
{
    let ghost s = shape@;
    let clamp: u64 = 0x1_0000_0000;
    let mut total: u64 = 1;
    let mut i: usize = 0;
    proof {
        assert(s.take(0) =~= Seq::<u32>::empty());
    }
    while i < shape.len()
        invariant
            0 <= i <= s.len(),
            shape@ == s,
            clamp == 0x1_0000_0000,
            shape_product(s.take(i as int)) <= u32::MAX ==> total == shape_product(
                s.take(i as int),
            ),
            shape_product(s.take(i as int)) > u32::MAX ==> total == clamp,
            total <= clamp,
        decreases s.len() - i,
    {
        proof {
            assert(s.take(i + 1).drop_last() =~= s.take(i as int));
            assert(s.take(i + 1).last() == s[i as int]);
            let p = shape_product(s.take(i as int));
            let d = s[i as int] as nat;
            assert(shape_product(s.take(i + 1)) == p * d);
            if d == 0 {
                assert(p * d == 0) by (nonlinear_arith)
                    requires
                        d == 0,
                ;
            }
            if p > u32::MAX && d >= 1 {
                assert(p * d >= p) by (nonlinear_arith)
                    requires
                        d >= 1,
                        p >= 0,
                ;
            }
            assert((total as nat) * d < 0x1_0000_0000_0000_0000) by (nonlinear_arith)
                requires
                    total <= 0x1_0000_0000,
                    d < 0x1_0000_0000,
            ;
        }
        let next = total * (shape[i] as u64);
        if next > u32::MAX as u64 {
            total = clamp;
        } else {
            total = next;
        }
        i += 1;
    }
    proof {
        assert(s.take(s.len() as int) =~= s);
    }
    if total > u32::MAX as u64 {
        None
    } else {
        Some(total as u32)
    }
}

/// A zero dimension anywhere makes the element count zero.
pub proof fn lemma_shape_product_zero_axis(s: Seq<u32>, k: int)
    requires
        0 <= k < s.len(),
        s[k] == 0,
    ensures
        shape_product(s) == 0,
    decreases s.len(),
{
    let a = shape_product(s.drop_last());
    let d = s.last() as nat;
    if k == s.len() - 1 {
        assert(a * d == 0) by (nonlinear_arith)
            requires
                d == 0,
        ;
    } else {
        lemma_shape_product_zero_axis(s.drop_last(), k);
        assert(a * d == 0) by (nonlinear_arith)
            requires
                a == 0,
        ;
    }
}

impl<T: Default + Copy> Tensor<T> {
    /// Creates a new tensor with the given shape, every element holding
    /// the type's default value.
    pub fn new(_shape: &[u32]) -> (r: Tensor<T>)
        requires
            shape_product(_shape@) <= u32::MAX,
        ensures
            r.wf(),
            r.shape_seq() == _shape@,
            r.data_seq().len() == shape_product(_shape@),
            forall|i: int| 0 <= i < r.data_seq().len() ==> #[trigger] r.data_seq()[i]
                == r.data_seq()[0],
            r.data_seq().len() > 0 ==> call_ensures(T::default, (), r.data_seq()[0]),
    {
        let total_size: u32 = checked_shape_product(_shape).unwrap();
        let fill_value: T = T::default();

        let mut data: Vec<T> = Vec::new();
        let mut i: u32 = 0;
        while i < total_size
            invariant
                0 <= i <= total_size,
                data@.len() == i,
                forall|j: int| 0 <= j < i ==> data@[j] == fill_value,
            decreases total_size - i,
        {
            data.push(fill_value);
            i += 1;
        }

        Tensor { data, shape: slice_to_u32_vec(_shape) }
    }

    /// Creates a new tensor from data with a certain shape, or `None` if
    /// the data does not fit the shape.
    pub fn from_data(_data: &[T], _shape: &[u32]) -> (r: Option<Tensor<T>>)
        ensures
            r is Some <==> (_data@.len() == shape_product(_shape@) && shape_product(_shape@)
                <= u32::MAX),
            r is Some ==> r.unwrap().wf() && r.unwrap().data_seq() == _data@
                && r.unwrap().shape_seq() == _shape@,
    {
        let prod = checked_shape_product(_shape);
        if prod.is_none() {
            return None;
        }
        if prod.unwrap() as usize != _data.len() {
            return None;
        }

        Some(Tensor { data: slice_to_vec_copy(_data), shape: slice_to_u32_vec(_shape) })
    }

    /// Creates a new tensor of a certain shape, every element holding
    /// `fill_data`.
    pub fn fill(fill_data: T, _shape: &[u32]) -> (r: Tensor<T>)
        requires
            shape_product(_shape@) <= u32::MAX,
        ensures
            r.wf(),
            r.shape_seq() == _shape@,
            r.data_seq().len() == shape_product(_shape@),
            forall|i: int| 0 <= i < r.data_seq().len() ==> r.data_seq()[i] == fill_data,
    {
        let full_size: u32 = checked_shape_product(_shape).unwrap();

        let mut data: Vec<T> = Vec::new();
        let mut i: u32 = 0;
        while i < full_size
            invariant
                0 <= i <= full_size,
                data@.len() == i,
                forall|j: int| 0 <= j < i ==> data@[j] == fill_data,
            decreases full_size - i,
        {
            data.push(fill_data);
            i += 1;
        }

        Tensor { data, shape: slice_to_u32_vec(_shape) }
    }
}

impl<T: Copy> Tensor<T> {
    /// Returns a new tensor holding the data of this tensor followed by
    /// the data of `tens2`, with the leading dimension summed; `None`
    /// unless both tensors are one-dimensional or they agree on every
    /// dimension but the first.
    pub fn append(&self, tens2: &Tensor<T>) -> (r: Option<Tensor<T>>)
        requires
            self.wf(),
            tens2.wf(),
            self.shape_seq().len() >= 1,
            tens2.shape_seq().len() >= 1,
            self.shape_seq()[0] + tens2.shape_seq()[0] <= u32::MAX,
            self.data_seq().len() + tens2.data_seq().len() <= u32::MAX,
        ensures
            r is Some <==> ((self.shape_seq().len() == 1 && tens2.shape_seq().len() == 1)
                || self.shape_seq().drop_first() == tens2.shape_seq().drop_first()),
            r is Some ==> {
                let t = r.unwrap();
                &&& t.wf()
                &&& t.data_seq() == self.data_seq() + tens2.data_seq()
                &&& t.shape_seq() == self.shape_seq().update(
                    0,
                    (self.shape_seq()[0] + tens2.shape_seq()[0]) as u32,
                )
            },
    {
        if self.shape.len() != 1 || tens2.shape.len() != 1 {
            if !tails_equal(&self.shape, &tens2.shape) {
                return None;
            }
        }

        let mut return_data: Vec<T> = slice_to_vec_copy(self.data.as_slice());
        let mut i: usize = 0;
        while i < tens2.data.len()
            invariant
                0 <= i <= tens2.data@.len(),
                return_data@ == self.data@ + tens2.data@.take(i as int),
            decreases tens2.data@.len() - i,
        {
            return_data.push(tens2.data[i]);
            proof {
                assert(self.data@ + tens2.data@.take(i + 1) =~= (self.data@ + tens2.data@.take(
                    i as int,
                )).push(tens2.data@[i as int]));
            }
            i += 1;
        }
        proof {
            assert(tens2.data@.take(tens2.data@.len() as int) =~= tens2.data@);
        }

        let mut return_shape = slice_to_u32_vec(self.shape.as_slice());
        let first = return_shape[0] + tens2.shape[0];
        return_shape.set(0, first);

        proof {
            lemma_append_shape_product(self.shape@, tens2.shape@);
        }
        Some(Tensor { data: return_data, shape: return_shape })
    }

    /// Changes the shape of the tensor if the element count of the new
    /// shape equals the element count of the stored data; otherwise the
    /// tensor is left unchanged.
    pub fn set_shape(&mut self, new_shape: &[u32])
        ensures
            final(self).data_seq() == old(self).data_seq(),
            shape_product(new_shape@) == old(self).data_seq().len() && shape_product(new_shape@)
                <= u32::MAX ==> final(self).shape_seq() == new_shape@ && final(self).wf(),
            !(shape_product(new_shape@) == old(self).data_seq().len() && shape_product(new_shape@)
                <= u32::MAX) ==> final(self).shape_seq() == old(self).shape_seq(),
    {
        let prod = checked_shape_product(new_shape);
        match prod {
            None => {},
            Some(p) => {
                if p as usize == self.data.len() {
                    self.shape = slice_to_u32_vec(new_shape);
                }
            },
        }
    }

    /// Changes the data of the tensor if the new data has the same length
    /// as the current data; otherwise the tensor is left unchanged.
    pub fn set_data(&mut self, new_data: &[T])
        ensures
            final(self).shape_seq() == old(self).shape_seq(),
            new_data@.len() == old(self).data_seq().len() ==> final(self).data_seq() == new_data@,
            new_data@.len() != old(self).data_seq().len() ==> final(self).data_seq() == old(
                self,
            ).data_seq(),
            old(self).wf() ==> final(self).wf(),
    {
        if new_data.len() != self.data.len() {
            return ;
        }
        self.data = slice_to_vec_copy(new_data);
    }
}

impl<T> Tensor<T> {
    /// Returns a reference to the element at the given coordinates, or
    /// `None` when the coordinate count differs from the rank or some
    /// coordinate is out of range.
    /// True when the coordinate count matches the rank and every
    /// coordinate is in range.
    fn coords_ok(&self, pos: &[u32]) -> (r: bool)
        ensures
            r <==> coords_in_shape(pos@, self.shape_seq()),
    {
        if self.shape.len() != pos.len() {
            return false;
        }

        let mut i: usize = 0;
        while i < pos.len()
            invariant
                0 <= i <= pos@.len(),
                pos@.len() == self.shape_seq().len(),
                forall|j: int| 0 <= j < i ==> pos@[j] < self.shape_seq()[j],
            decreases pos@.len() - i,
        {
            if pos[i] >= self.shape[i] {
                return false;
            }
            i += 1;
        }
        true
    }

    /// Returns a reference to the element at the given coordinates, or
    /// `None` when the coordinate count differs from the rank or some
    /// coordinate is out of range.
    pub fn value(&self, pos: &[u32]) -> (r: Option<&T>)
        requires
            self.wf(),
        ensures
            r is Some <==> coords_in_shape(pos@, self.shape_seq()),
            r is Some ==> *r.unwrap() == self.data_seq()[flat_index(
                pos@,
                self.shape_seq(),
            ) as int],
    {
        if !self.coords_ok(pos) {
            return None;
        }

        let idx = self.position_index(pos);
        Some(&self.data[idx as usize])
    }

    /// Changes the element at the given coordinates; out-of-range
    /// coordinates leave the tensor unchanged.
    pub fn set(&mut self, value: T, pos: &[u32])
        requires
            old(self).wf(),
        ensures
            final(self).wf(),
            final(self).shape_seq() == old(self).shape_seq(),
            coords_in_shape(pos@, old(self).shape_seq()) ==> final(self).data_seq() == old(
                self,
            ).data_seq().update(flat_index(pos@, old(self).shape_seq()) as int, value),
            !coords_in_shape(pos@, old(self).shape_seq()) ==> final(self).data_seq() == old(
                self,
            ).data_seq(),
    {
        if !self.coords_ok(pos) {
            return ;
        }

        let idx = self.position_index(pos);
        self.data[idx as usize] = value;
    }

    /// Changes a linear index into per-axis coordinates under this
    /// tensor's shape.
    pub fn idx_to_global(&self, idx: u32) -> (r: Vec<u32>)
        requires
            self.wf(),
            !(shape_product(self.shape_seq()) == 0 && idx == 0),
        ensures
            idx > shape_product(self.shape_seq()) ==> r@ == Seq::<u32>::empty(),
            idx <= shape_product(self.shape_seq()) ==> r@ == coords_of(
                idx as nat,
                self.shape_seq(),
            ),
    {
        idx_to_global(idx, self.shape.as_slice())
    }

    /// Row-major flat index of in-bounds coordinates.
    fn position_index(&self, pos: &[u32]) -> (idx: u32)
        requires
            self.wf(),
            coords_in_shape(pos@, self.shape_seq()),
        ensures
            idx == flat_index(pos@, self.shape_seq()),
            idx < self.data_seq().len(),
    {
        flat_index_of(pos, self.shape.as_slice())
    }
}

/// Row-major flat index of in-bounds coordinates under a shape whose
/// element count fits in a `u32`.
pub(crate) fn flat_index_of(pos: &[u32], shape: &[u32]) -> (idx: u32)
    requires
        coords_in_shape(pos@, shape@),
        shape_product(shape@) <= u32::MAX,
    ensures
        idx == flat_index(pos@, shape@),
        idx < shape_product(shape@),
{
    let ghost p = pos@;
    let ghost s = shape@;
    let mut index: u32 = 0;
    let mut stride: u32 = 1;
    let mut i: usize = pos.len();
    while i > 0
        invariant
            0 <= i <= p.len(),
            p.len() == s.len(),
            pos@ == p,
            shape@ == s,
            shape_product(s) <= u32::MAX,
            coords_in_shape(p, s),
            stride == shape_product(s.skip(i as int)),
            index == flat_index(p.skip(i as int), s.skip(i as int)),
            shape_product(s.skip(i as int)) <= u32::MAX,
            index < shape_product(s.skip(i as int)),
        decreases i,
    {
        i -= 1;
        proof {
            assert(s.skip(i as int).drop_first() =~= s.skip(i + 1));
            assert(p.skip(i as int).drop_first() =~= p.skip(i + 1));
            assert(s.skip(i as int).first() == s[i as int]);
            assert(p.skip(i as int).first() == p[i as int]);
            lemma_flat_index_first(p.skip(i as int), s.skip(i as int));
            lemma_shape_product_first(s.skip(i as int));
            assert(coords_in_shape(p.skip(i as int), s.skip(i as int)));
            lemma_flat_index_bound(p.skip(i as int), s.skip(i as int));
            assert(forall|j: int| 0 <= j < s.len() ==> #[trigger] s[j] >= 1) by {
                assert(forall|j: int| 0 <= j < s.len() ==> p[j] < #[trigger] s[j]);
            }
            lemma_skip_product_le_all(s, i as int);
            assert(p[i as int] * stride + index == flat_index(p.skip(i as int), s.skip(i as int)));
            assert(flat_index(p.skip(i as int), s.skip(i as int)) < shape_product(
                s.skip(i as int),
            ));
            assert(s[i as int] * stride == shape_product(s.skip(i as int)));
            assert(shape_product(s.skip(i as int)) <= u32::MAX);
            assert((stride as int) * (s[i as int] as int) == (s[i as int] as int) * (
            stride as int)) by (nonlinear_arith);
        }
        index = index + pos[i] * stride;
        stride = stride * shape[i];
    }
    proof {
        assert(p.skip(0) =~= p);
        assert(s.skip(0) =~= s);
        lemma_flat_index_bound(p, s);
    }
    index
}

/// Unrolls [`flat_index`] at the front: the first coordinate counts whole
/// blocks of the tail shape.
pub(crate) proof fn lemma_flat_index_first(pos: Seq<u32>, s: Seq<u32>)
    requires
        pos.len() == s.len(),
        s.len() >= 1,
    ensures
        flat_index(pos, s) == pos.first() * shape_product(s.drop_first()) + flat_index(
            pos.drop_first(),
            s.drop_first(),
        ),
    decreases s.len(),
{
    if s.len() == 1 {
        assert(pos.drop_last() =~= Seq::<u32>::empty());
        assert(s.drop_last() =~= Seq::<u32>::empty());
        assert(pos.drop_first() =~= Seq::<u32>::empty());
        assert(s.drop_first() =~= Seq::<u32>::empty());
        assert(flat_index(Seq::<u32>::empty(), Seq::<u32>::empty()) == 0);
        assert(shape_product(Seq::<u32>::empty()) == 1);
        assert(flat_index(pos.drop_last(), s.drop_last()) == 0);
        assert(flat_index(pos, s) == 0 * (s.last() as nat) + (pos.last() as nat));
        assert(flat_index(pos, s) == pos.last());
        assert(shape_product(s.drop_first()) == 1);
        assert(flat_index(pos.drop_first(), s.drop_first()) == 0);
        assert(pos.first() * shape_product(s.drop_first()) == pos.first());
    } else {
        lemma_flat_index_first(pos.drop_last(), s.drop_last());
        assert(pos.drop_last().drop_first() =~= pos.drop_first().drop_last());
        assert(s.drop_last().drop_first() =~= s.drop_first().drop_last());
        let p0 = pos.first() as nat;
        let block = shape_product(s.drop_first().drop_last());
        let rest = flat_index(pos.drop_first().drop_last(), s.drop_first().drop_last());
        let d = s.last() as nat;
        assert(flat_index(pos.drop_last(), s.drop_last()) == p0 * block + rest);
        assert(flat_index(pos, s) == (p0 * block + rest) * d + pos.last());
        assert((p0 * block + rest) * d == p0 * (block * d) + rest * d) by (nonlinear_arith);
        assert(shape_product(s.drop_first()) == block * d);
        assert(pos.drop_first().last() == pos.last());
        assert(s.drop_first().last() == s.last());
        assert(flat_index(pos.drop_first(), s.drop_first()) == rest * d + pos.last());
        assert(flat_index(pos, s) == pos.first() * shape_product(s.drop_first()) + flat_index(
            pos.drop_first(),
            s.drop_first(),
        ));
    }
}

/// Unrolls [`shape_product`] at the front.
pub(crate) proof fn lemma_shape_product_first(s: Seq<u32>)
    requires
        s.len() >= 1,
    ensures
        shape_product(s) == s.first() * shape_product(s.drop_first()),
    decreases s.len(),
{
    if s.len() == 1 {
        assert(s.drop_last() =~= Seq::<u32>::empty());
        assert(s.drop_first() =~= Seq::<u32>::empty());
        assert(shape_product(Seq::<u32>::empty()) == 1);
        assert(shape_product(s) == 1 * (s.last() as nat));
        assert(s.first() == s.last());
        assert(shape_product(s) == s.first() * shape_product(s.drop_first()));
    } else {
        lemma_shape_product_first(s.drop_last());
        assert(s.drop_last().drop_first() =~= s.drop_first().drop_last());
        let a = s.first() as nat;
        let m = shape_product(s.drop_first().drop_last());
        let d = s.last() as nat;
        assert(s.drop_last().first() == s.first());
        assert(shape_product(s.drop_last()) == a * m);
        assert(shape_product(s) == (a * m) * d);
        assert((a * m) * d == a * (m * d)) by (nonlinear_arith);
        assert(s.drop_first().last() == s.last());
        assert(shape_product(s.drop_first()) == m * d);
        assert(shape_product(s) == s.first() * shape_product(s.drop_first()));
    }
}

/// The element count of a suffix of a shape divides the whole count, so a
/// bounded whole count bounds every suffix count.
pub(crate) proof fn lemma_skip_product_divides(s: Seq<u32>, i: int)
    requires
        0 <= i <= s.len(),
    ensures
        shape_product(s.take(i)) * shape_product(s.skip(i)) == shape_product(s),
    decreases s.len() - i,
{
    if i == s.len() {
        assert(s.take(i) =~= s);
        assert(s.skip(i) =~= Seq::<u32>::empty());
        assert(shape_product(Seq::<u32>::empty()) == 1);
    } else {
        lemma_skip_product_divides(s, i + 1);
        lemma_shape_product_first(s.skip(i));
        assert(s.skip(i).drop_first() =~= s.skip(i + 1));
        assert(s.take(i + 1).drop_last() =~= s.take(i));
        assert(s.take(i + 1).last() == s[i]);
        let a = shape_product(s.take(i));
        let b = s[i] as nat;
        let c = shape_product(s.skip(i + 1));
        assert((a * b) * c == a * (b * c)) by (nonlinear_arith);
    }
}

/// A shape with no zero axis describes at least one element.
pub(crate) proof fn lemma_shape_product_positive(s: Seq<u32>)
    requires
        forall|i: int| 0 <= i < s.len() ==> s[i] >= 1,
    ensures
        shape_product(s) >= 1,
    decreases s.len(),
{
    if s.len() == 0 {
    } else {
        lemma_shape_product_positive(s.drop_last());
        let a = shape_product(s.drop_last());
        let d = s.last() as nat;
        assert(a * d >= 1) by (nonlinear_arith)
            requires
                a >= 1,
                d >= 1,
        ;
    }
}

/// When every axis is nonzero, the element count of a suffix is bounded by
/// the element count of the whole shape.
pub(crate) proof fn lemma_skip_product_le_all(s: Seq<u32>, i: int)
    requires
        0 <= i <= s.len(),
        forall|j: int| 0 <= j < s.len() ==> s[j] >= 1,
    ensures
        shape_product(s.skip(i)) <= shape_product(s),
{
    lemma_skip_product_divides(s, i);
    assert(forall|j: int| 0 <= j < s.take(i).len() ==> s.take(i)[j] >= 1);
    lemma_shape_product_positive(s.take(i));
    let a = shape_product(s.take(i));
    let b = shape_product(s.skip(i));
    assert(a * b >= b) by (nonlinear_arith)
        requires
            a >= 1,
            b >= 0,
    ;
}

/// With matching trailing dimensions, concatenated data fits the summed
/// leading dimension.
proof fn lemma_append_shape_product(s: Seq<u32>, t: Seq<u32>)
    requires
        s.len() >= 1,
        t.len() >= 1,
        (s.len() == 1 && t.len() == 1) || s.drop_first() == t.drop_first(),
        s[0] + t[0] <= u32::MAX,
    ensures
        shape_product(s.update(0, (s[0] + t[0]) as u32)) == shape_product(s) + shape_product(t),
{
    let u = s.update(0, (s[0] + t[0]) as u32);
    lemma_shape_product_first(s);
    lemma_shape_product_first(t);
    lemma_shape_product_first(u);
    assert(u.drop_first() =~= s.drop_first());
    if s.len() == 1 && t.len() == 1 {
        assert(s.drop_first() =~= Seq::<u32>::empty());
        assert(t.drop_first() =~= Seq::<u32>::empty());
    }
    let a = s[0] as nat;
    let b = t[0] as nat;
    let m = shape_product(s.drop_first());
    assert((a + b) * m == a * m + b * m) by (nonlinear_arith);
}

/// Changes a linear index into per-axis coordinates under shape `s`, most
/// significant axis first: coordinate `k` counts whole blocks of the axes
/// after it.
pub open spec fn coords_of(idx: nat, s: Seq<u32>) -> Seq<u32>
    decreases s.len(),
{
    if s.len() == 0 {
        Seq::empty()
    } else {
        let tail = shape_product(s.drop_first());
        seq![(idx / tail) as u32].add(coords_of(idx % tail, s.drop_first()))
    }
}

/// For an in-range index and a shape without zero axes, the coordinate
/// decomposition is exact: the coordinates are in bounds and flatten back
/// to the index.
pub proof fn lemma_coords_of_roundtrip(idx: nat, s: Seq<u32>)
    requires
        forall|k: int| 0 <= k < s.len() ==> s[k] >= 1,
        idx < shape_product(s),
    ensures
        coords_in_shape(coords_of(idx, s), s),
        flat_index(coords_of(idx, s), s) == idx,
    decreases s.len(),
{
    if s.len() == 0 {
        assert(coords_of(idx, s) =~= Seq::<u32>::empty());
    } else {
        let tail = shape_product(s.drop_first());
        let d0 = s.first() as nat;
        lemma_shape_product_first(s);
        assert(forall|k: int| 0 <= k < s.drop_first().len() ==> s.drop_first()[k] >= 1);
        lemma_shape_product_positive(s.drop_first());
        assert(idx / tail < d0) by (nonlinear_arith)
            requires
                tail >= 1,
                d0 >= 1,
                idx < d0 * tail,
        ;
        vstd::arithmetic::div_mod::lemma_mod_bound(idx as int, tail as int);
        lemma_coords_of_roundtrip(idx % tail, s.drop_first());
        let c = coords_of(idx, s);
        assert(c.first() == (idx / tail) as u32);
        assert(c.drop_first() =~= coords_of(idx % tail, s.drop_first()));
        assert(coords_in_shape(c, s));
        lemma_flat_index_first(c, s);
        vstd::arithmetic::div_mod::lemma_fundamental_div_mod(idx as int, tail as int);
        assert(flat_index(c, s) == (idx / tail) * tail + (idx % tail));
    }
}

/// Changes a linear index into per-axis coordinates under a shape.  An
/// index beyond the shape's element count gives the empty vector.
pub fn idx_to_global(idx: u32, shape: &[u32]) -> (r: Vec<u32>)
    requires
        shape_product(shape@) <= u32::MAX,
        !(shape_product(shape@) == 0 && idx == 0),
    ensures
        idx > shape_product(shape@) ==> r@ == Seq::<u32>::empty(),
        idx <= shape_product(shape@) ==> r@ == coords_of(idx as nat, shape@),
{
    let ghost s = shape@;
    let total: u32 = checked_shape_product(shape).unwrap();
    if idx > total {
        return Vec::new();
    }

    proof {
        if exists|k: int| 0 <= k < s.len() && s[k] == 0 {
            let k = choose|k: int| 0 <= k < s.len() && s[k] == 0;
            lemma_shape_product_zero_axis(s, k);
        }
        assert(forall|k: int| 0 <= k < s.len() ==> s[k] >= 1);
    }

    let mut used_id: u32 = idx;
    let mut shape_prod: u32 = total;
    let mut output_vec: Vec<u32> = Vec::with_capacity(shape.len());

    proof {
        assert(s.skip(0) =~= s);
        assert(Seq::<u32>::empty() + coords_of(idx as nat, s) =~= coords_of(idx as nat, s));
    }
    let mut i: usize = 0;
    while i < shape.len()
        invariant
            0 <= i <= s.len(),
            shape@ == s,
            forall|k: int| 0 <= k < s.len() ==> s[k] >= 1,
            shape_prod == shape_product(s.skip(i as int)),
            used_id <= shape_prod,
            output_vec@.len() == i,
            coords_of(idx as nat, s) == output_vec@ + coords_of(used_id as nat, s.skip(i as int)),
        decreases s.len() - i,
    {
        let ghost prev_out = output_vec@;
        let ghost prev_used = used_id as nat;
        proof {
            let suf = s.skip(i as int);
            assert(suf.drop_first() =~= s.skip(i + 1));
            assert(suf.first() == s[i as int]);
            lemma_shape_product_first(suf);
            assert(forall|k: int| 0 <= k < suf.drop_first().len() ==> suf.drop_first()[k] >= 1);
            lemma_shape_product_positive(suf.drop_first());
            let d = s[i as int] as nat;
            let tail = shape_product(s.skip(i + 1));
            assert((d * tail) / d == tail) by (nonlinear_arith)
                requires
                    d >= 1,
                    tail >= 0,
            ;
            vstd::arithmetic::div_mod::lemma_mod_bound(prev_used as int, tail as int);
        }
        shape_prod = shape_prod / shape[i];

        let coordinate = used_id / shape_prod;
        output_vec.push(coordinate);
        used_id = used_id % shape_prod;

        proof {
            let suf = s.skip(i as int);
            let tail = shape_product(s.skip(i + 1));
            assert(coords_of(prev_used, suf) == seq![(prev_used / tail) as u32].add(
                coords_of(prev_used % tail, suf.drop_first()),
            ));
            assert(prev_out + coords_of(prev_used, suf) =~= output_vec@ + coords_of(
                used_id as nat,
                s.skip(i + 1),
            ));
        }
        i += 1;
    }
    proof {
        assert(s.skip(s.len() as int) =~= Seq::<u32>::empty());
        assert(coords_of(used_id as nat, Seq::<u32>::empty()) =~= Seq::<u32>::empty());
        assert(coords_of(idx as nat, s) =~= output_vec@);
    }
    output_vec
}

/// Copies a slice of `u32` into a fresh vector.
fn slice_to_u32_vec(s: &[u32]) -> (r: Vec<u32>)
    ensures
        r@ == s@,
{
    let mut r: Vec<u32> = Vec::with_capacity(s.len());
    let mut i: usize = 0;
    while i < s.len()
        invariant
            0 <= i <= s@.len(),
            r@ == s@.take(i as int),
        decreases s@.len() - i,
    {
        r.push(s[i]);
        proof {
            assert(s@.take(i + 1) =~= s@.take(i as int).push(s@[i as int]));
        }
        i += 1;
    }
    proof {
        assert(s@.take(s@.len() as int) =~= s@);
    }
    r
}

/// Copies a slice of any `Copy` type into a fresh vector.
pub fn slice_to_vec_copy<T: Copy>(s: &[T]) -> (r: Vec<T>)
    ensures
        r@ == s@,
{
    let mut r: Vec<T> = Vec::with_capacity(s.len());
    let mut i: usize = 0;
    while i < s.len()
        invariant
            0 <= i <= s@.len(),
            r@ == s@.take(i as int),
        decreases s@.len() - i,
    {
        r.push(s[i]);
        proof {
            assert(s@.take(i + 1) =~= s@.take(i as int).push(s@[i as int]));
        }
        i += 1;
    }
    proof {
        assert(s@.take(s@.len() as int) =~= s@);
    }
    r
}

/// True when the two shapes agree on every dimension but the first.
fn tails_equal(a: &Vec<u32>, b: &Vec<u32>) -> (r: bool)
    requires
        a@.len() >= 1,
        b@.len() >= 1,
    ensures
        r <==> a@.drop_first() == b@.drop_first(),
{
    if a.len() != b.len() {
        proof {
            assert(a@.drop_first().len() != b@.drop_first().len());
        }
        return false;
    }
    let mut i: usize = 1;
    while i < a.len()
        invariant
            1 <= i <= a@.len(),
            a@.len() == b@.len(),
            forall|j: int| 1 <= j < i ==> a@[j] == b@[j],
        decreases a@.len() - i,
    {
        if a[i] != b[i] {
            proof {
                assert(a@.drop_first()[i - 1] != b@.drop_first()[i - 1]);
            }
            return false;
        }
        i += 1;
    }
    proof {
        assert(a@.drop_first() =~= b@.drop_first());
    }
    true
}

} // verus!

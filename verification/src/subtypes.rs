//! Sub-tensor slicing and matrix operations.
//!
//! A tensor of rank `n` contains vectors (rank 1) and matrices (rank 2) as
//! contiguous row-major slices; the functions here cut them out, transpose
//! matrices, and multiply them.

use vstd::prelude::*;
use vstd::slice::slice_subrange;
use vstd::string::StringExecFns;
use vstd::std_specs::ops::AddSpec;
use vstd::std_specs::ops::MulSpec;

use crate::tensor::coords_in_shape;
use crate::tensor::flat_index;
use crate::tensor::flat_index_of;
use crate::tensor::lemma_flat_index_bound;
use crate::tensor::lemma_shape_product_positive;
use crate::tensor::lemma_skip_product_divides;
use crate::tensor::shape_product;
use crate::tensor::Tensor;

verus! {

/// The transposed form of a rank-2 shape; any other rank gives the empty
/// shape.
pub fn transpose_shapes(shape: &[u32]) -> (r: Vec<u32>)
    ensures
        shape@.len() == 2 ==> r@ == seq![shape@[1], shape@[0]],
        shape@.len() != 2 ==> r@ == Seq::<u32>::empty(),
{
    if shape.len() != 2 {
        let r: Vec<u32> = Vec::new();
        return r;
    }

    let mut r: Vec<u32> = Vec::with_capacity(2);
    r.push(shape[1]);
    r.push(shape[0]);
    proof {
        assert(r@ =~= seq![shape@[1], shape@[0]]);
    }
    r
}

/// The prefix coordinates select a sub-tensor: there are `m` of them, one
/// per leading axis, each in range.
pub open spec fn prefix_coords_in_shape(pos: Seq<u32>, s: Seq<u32>, m: int) -> bool {
    &&& pos.len() == m
    &&& 0 <= m <= s.len()
    &&& forall|k: int| 0 <= k < m ==> pos[k] < s[k]
}

/// Flat offset at which the sub-tensor selected by the prefix coordinates
/// `pos` begins: the prefix index scaled by the block of trailing axes.
pub open spec fn subtensor_base(pos: Seq<u32>, s: Seq<u32>, m: int) -> nat {
    flat_index(pos, s.take(m)) * shape_product(s.skip(m))
}

impl<T: Default + Copy> Tensor<T> {
    /// Returns the vector at the given position: the contiguous slice
    /// selected by one coordinate per axis except the last.  `None` when
    /// the coordinate count is not one less than the rank or some
    /// coordinate is out of range.
    pub fn vector(&self, pos: &[u32]) -> (r: Option<Tensor<T>>)
        requires
            self.wf(),
        ensures
            r is Some <==> (self.shape_seq().len() >= 1 && prefix_coords_in_shape(
                pos@,
                self.shape_seq(),
                self.shape_seq().len() - 1,
            )),
            r is Some ==> {
                let t = r.unwrap();
                let s = self.shape_seq();
                let base = subtensor_base(pos@, s, s.len() - 1);
                &&& t.wf()
                &&& t.shape_seq() == seq![s.last()]
                &&& t.data_seq().len() == s.last()
                &&& forall|q: int| 0 <= q < t.data_seq().len() ==> #[trigger] t.data_seq()[q]
                    == self.data_seq()[base + q]
            },
    {
        let r = self.subtensor(pos, 1);
        proof {
            let s = self.shape_seq();
            if s.len() >= 1 {
                assert(s.skip(s.len() - 1) =~= seq![s.last()]);
                lemma_shape_product_single(seq![s.last()]);
            }
        }
        r
    }

    /// Returns the matrix at the given position: the contiguous slice
    /// selected by one coordinate per axis except the last two.  `None`
    /// when the coordinate count is not two less than the rank or some
    /// coordinate is out of range.
    pub fn matrix(&self, pos: &[u32]) -> (r: Option<Tensor<T>>)
        requires
            self.wf(),
        ensures
            r is Some <==> (self.shape_seq().len() >= 2 && prefix_coords_in_shape(
                pos@,
                self.shape_seq(),
                self.shape_seq().len() - 2,
            )),
            r is Some ==> {
                let t = r.unwrap();
                let s = self.shape_seq();
                let base = subtensor_base(pos@, s, s.len() - 2);
                &&& t.wf()
                &&& t.shape_seq() == s.skip(s.len() - 2)
                &&& t.data_seq().len() == shape_product(s.skip(s.len() - 2))
                &&& forall|q: int| 0 <= q < t.data_seq().len() ==> #[trigger] t.data_seq()[q]
                    == self.data_seq()[base + q]
            },
    {
        self.subtensor(pos, 2)
    }

    /// Returns the rank-`m` sub-tensor at the given prefix coordinates.
    fn subtensor(&self, pos: &[u32], m: usize) -> (r: Option<Tensor<T>>)
        requires
            self.wf(),
            1 <= m <= 2,
        ensures
            r is Some <==> (self.shape_seq().len() >= m && prefix_coords_in_shape(
                pos@,
                self.shape_seq(),
                self.shape_seq().len() - m,
            )),
            r is Some ==> {
                let t = r.unwrap();
                let s = self.shape_seq();
                let base = subtensor_base(pos@, s, s.len() - m);
                &&& t.wf()
                &&& t.shape_seq() == s.skip(s.len() - m)
                &&& t.data_seq().len() == shape_product(s.skip(s.len() - m))
                &&& forall|q: int| 0 <= q < t.data_seq().len() ==> #[trigger] t.data_seq()[q]
                    == self.data_seq()[base + q]
            },
    {
        let ghost s = self.shape_seq();
        let rank = self.get_shape().len();
        if rank < m || pos.len() != rank - m {
            return None;
        }
        let split: usize = rank - m;

        let mut k: usize = 0;
        while k < pos.len()
            invariant
                0 <= k <= pos@.len(),
                pos@.len() == split < s.len(),
                s == self.shape_seq(),
                self.wf(),
                forall|j: int| 0 <= j < k ==> pos@[j] < s[j],
            decreases pos@.len() - k,
        {
            if pos[k] >= self.get_shape()[k] {
                return None;
            }
            k += 1;
        }

        let prefix = slice_subrange(self.get_shape().as_slice(), 0, split);
        let suffix = slice_subrange(self.get_shape().as_slice(), split, rank);
        proof {
            assert(prefix@ =~= s.take(split as int));
            assert(suffix@ =~= s.skip(split as int));
        }

        let block = crate::tensor::checked_shape_product(suffix);
        let block_len: u32;
        proof {
            lemma_skip_product_divides(s, split as int);
            assert(forall|j: int| 0 <= j < split ==> pos@[j] < s[j]);
            assert(coords_in_shape(pos@, s.take(split as int)));
            if shape_product(s.skip(split as int)) > u32::MAX {
                let a = shape_product(s.take(split as int));
                let b = shape_product(s.skip(split as int));
                assert(forall|j: int| 0 <= j < s.take(split as int).len() ==> s.take(
                    split as int,
                )[j] >= 1);
                lemma_shape_product_positive(s.take(split as int));
                assert(a * b >= b) by (nonlinear_arith)
                    requires
                        a >= 1,
                        b >= 0,
                ;
            }
        }
        block_len = block.unwrap();

        if block_len == 0 {
            let empty_data: Vec<T> = Vec::new();
            let t = Tensor::from_data(empty_data.as_slice(), suffix);
            return t;
        }

        proof {
            let a = shape_product(s.take(split as int));
            let b = shape_product(s.skip(split as int));
            lemma_flat_index_bound(pos@, s.take(split as int));
            let f = flat_index(pos@, s.take(split as int));
            assert(f * b + b <= a * b) by (nonlinear_arith)
                requires
                    f < a,
                    b >= 1,
            ;
            assert(a * b >= a) by (nonlinear_arith)
                requires
                    b >= 1,
                    a >= 0,
            ;
        }
        let base = flat_index_of(pos, prefix) * block_len;

        let sub = slice_subrange(self.get_data().as_slice(), base as usize, base as usize
            + block_len as usize);
        let t = Tensor::from_data(sub, suffix);
        proof {
            let tt = t.unwrap();
            assert(forall|q: int| 0 <= q < tt.data_seq().len() ==> #[trigger] tt.data_seq()[q]
                == self.data_seq()[subtensor_base(pos@, s, split as int) + q]);
        }
        t
    }

    /// Returns the given row of a rank-2 tensor as a `1 x c` matrix, or
    /// `None` when the rank is not 2 or the row is out of range.
    pub fn matrix_row(&self, row: u32) -> (r: Option<Tensor<T>>)
        requires
            self.wf(),
        ensures
            r is Some <==> (self.shape_seq().len() == 2 && row < self.shape_seq()[0]),
            r is Some ==> {
                let t = r.unwrap();
                let c = self.shape_seq()[1] as int;
                &&& t.wf()
                &&& t.shape_seq() == seq![1u32, self.shape_seq()[1]]
                &&& t.data_seq().len() == c
                &&& forall|q: int| 0 <= q < c ==> #[trigger] t.data_seq()[q]
                    == self.data_seq()[row * c + q]
            },
    {
        let ghost s = self.shape_seq();
        if self.get_shape().len() != 2 {
            return None;
        }
        if row >= self.get_shape()[0] {
            return None;
        }

        let row_size = self.get_shape()[1];

        proof {
            lemma_rank2_product(s);
            let r0 = row as int;
            assert((r0 + 1) * (row_size as int) <= (s[0] as int) * (row_size as int))
                by (nonlinear_arith)
                requires
                    r0 + 1 <= s[0] as int,
                    row_size as int >= 0,
            ;
            assert(r0 * (row_size as int) + (row_size as int) == (r0 + 1) * (row_size as int))
                by (nonlinear_arith);
        }
        let data_begin = row * row_size;
        let data_end = data_begin + row_size;

        let sub = slice_subrange(self.get_data().as_slice(), data_begin as usize, data_end as usize);
        let mut new_shape: Vec<u32> = Vec::with_capacity(2);
        new_shape.push(1);
        new_shape.push(row_size);
        proof {
            assert(new_shape@ =~= seq![1u32, s[1]]);
            lemma_rank2_product(new_shape@);
        }
        Tensor::from_data(sub, new_shape.as_slice())
    }

    /// Returns the given column of a rank-2 tensor as an `r x 1` matrix,
    /// or `None` when the rank is not 2 or the column is out of range.
    pub fn matrix_col(&self, col: u32) -> (r: Option<Tensor<T>>)
        requires
            self.wf(),
        ensures
            r is Some <==> (self.shape_seq().len() == 2 && col < self.shape_seq()[1]),
            r is Some ==> {
                let t = r.unwrap();
                let rows = self.shape_seq()[0] as int;
                let c = self.shape_seq()[1] as int;
                &&& t.wf()
                &&& t.shape_seq() == seq![self.shape_seq()[0], 1u32]
                &&& t.data_seq().len() == rows
                &&& forall|q: int| 0 <= q < rows ==> #[trigger] t.data_seq()[q]
                    == self.data_seq()[q * c + col]
            },
    {
        let ghost s = self.shape_seq();
        if self.get_shape().len() != 2 {
            return None;
        }
        if col >= self.get_shape()[1] {
            return None;
        }

        let rows = self.get_shape()[0];
        let row_size = self.get_shape()[1];
        proof {
            lemma_rank2_product(s);
        }

        let mut return_vector: Vec<T> = Vec::with_capacity(rows as usize);
        let mut q: u32 = 0;
        while q < rows
            invariant
                self.wf(),
                s == self.shape_seq(),
                s.len() == 2,
                rows == s[0],
                row_size == s[1],
                col < row_size,
                shape_product(s) == (s[0] as nat) * (s[1] as nat),
                0 <= q <= rows,
                return_vector@.len() == q,
                forall|j: int| 0 <= j < q ==> #[trigger] return_vector@[j]
                    == self.data_seq()[j * (s[1] as int) + col],
            decreases rows - q,
        {
            proof {
                let qi = q as int;
                let c = row_size as int;
                assert(qi * c + col < (qi + 1) * c) by (nonlinear_arith)
                    requires
                        col < c,
                ;
                assert((qi + 1) * c <= (rows as int) * c) by (nonlinear_arith)
                    requires
                        qi + 1 <= rows as int,
                        c >= 0,
                ;
            }
            return_vector.push(self.get_data()[(q * row_size + col) as usize]);
            q += 1;
        }

        let mut new_shape: Vec<u32> = Vec::with_capacity(2);
        new_shape.push(rows);
        new_shape.push(1);
        proof {
            assert(new_shape@ =~= seq![s[0], 1u32]);
            lemma_rank2_product(new_shape@);
        }
        Tensor::from_data(return_vector.as_slice(), new_shape.as_slice())
    }

    /// Transposes a rank-2 tensor: element `(i, j)` of the result is
    /// element `(j, i)` of the input.  `None` when the rank is not 2.
    pub fn matrix_transpose(&self) -> (r: Option<Tensor<T>>)
        requires
            self.wf(),
        ensures
            r is Some <==> self.shape_seq().len() == 2,
            r is Some ==> {
                let t = r.unwrap();
                let rows = self.shape_seq()[0] as int;
                let c = self.shape_seq()[1] as int;
                &&& t.wf()
                &&& t.shape_seq() == seq![self.shape_seq()[1], self.shape_seq()[0]]
                &&& t.data_seq().len() == self.data_seq().len()
                &&& forall|i: int, j: int|
                    0 <= i < rows && 0 <= j < c ==> #[trigger] t.data_seq()[j * rows + i]
                        == self.data_seq()[i * c + j]
            },
    {
        let ghost s = self.shape_seq();
        if self.get_shape().len() != 2 {
            return None;
        }

        let rows = self.get_shape()[0];
        let cols = self.get_shape()[1];
        proof {
            lemma_rank2_product(s);
        }

        let mut return_data: Vec<T> = Vec::new();
        let mut collumn: u32 = 0;
        while collumn < cols
            invariant
                self.wf(),
                s == self.shape_seq(),
                s.len() == 2,
                rows == s[0],
                cols == s[1],
                shape_product(s) == (s[0] as nat) * (s[1] as nat),
                0 <= collumn <= cols,
                return_data@.len() == collumn * rows,
                forall|i: int, j: int|
                    0 <= i < rows && 0 <= j < collumn ==> #[trigger] return_data@[j * (rows as int)
                        + i] == self.data_seq()[i * (cols as int) + j],
            decreases cols - collumn,
        {
            let mut row: u32 = 0;
            while row < rows
                invariant
                    self.wf(),
                    s == self.shape_seq(),
                    s.len() == 2,
                    rows == s[0],
                    cols == s[1],
                    shape_product(s) == (s[0] as nat) * (s[1] as nat),
                    0 <= collumn < cols,
                    0 <= row <= rows,
                    return_data@.len() == collumn * rows + row,
                    forall|i: int, j: int|
                        0 <= i < rows && 0 <= j < collumn ==> #[trigger] return_data@[j * (
                        rows as int) + i] == self.data_seq()[i * (cols as int) + j],
                    forall|i: int|
                        0 <= i < row ==> #[trigger] return_data@[collumn * (rows as int) + i]
                            == self.data_seq()[i * (cols as int) + collumn],
                decreases rows - row,
            {
                proof {
                    let ri = row as int;
                    let ci = collumn as int;
                    assert(ri * (cols as int) + ci < (ri + 1) * (cols as int)) by (nonlinear_arith)
                        requires
                            ci < cols as int,
                    ;
                    assert((ri + 1) * (cols as int) <= (rows as int) * (cols as int))
                        by (nonlinear_arith)
                        requires
                            ri + 1 <= rows as int,
                            cols as int >= 0,
                    ;
                    assert(ci * (rows as int) + ri + 1 <= (cols as int) * (rows as int))
                        by (nonlinear_arith)
                        requires
                            ci < cols as int,
                            ri < rows as int,
                    ;
                    assert((cols as int) * (rows as int) == (rows as int) * (cols as int))
                        by (nonlinear_arith);
                    assert forall|i2: int, j2: int|
                        0 <= i2 < rows && 0 <= j2 < ci implies #[trigger] (j2 * (rows as int) + i2)
                            < ci * (rows as int) by {
                        assert((j2 + 1) * (rows as int) <= ci * (rows as int)) by (nonlinear_arith)
                            requires
                                j2 + 1 <= ci,
                                (rows as int) >= 0,
                        ;
                        assert(j2 * (rows as int) + (rows as int) == (j2 + 1) * (rows as int))
                            by (nonlinear_arith);
                    }
                }
                return_data.push(self.get_data()[(row * cols + collumn) as usize]);
                row += 1;
            }
            proof {
                let ci = collumn as int;
                assert((ci + 1) * (rows as int) == ci * (rows as int) + (rows as int))
                    by (nonlinear_arith);
                assert forall|i: int, j: int|
                    0 <= i < rows && 0 <= j < ci + 1 implies #[trigger] return_data@[j * (
                rows as int) + i] == self.data_seq()[i * (cols as int) + j] by {
                    if j == ci {
                        assert(return_data@[ci * (rows as int) + i] == self.data_seq()[i * (
                        cols as int) + ci]);
                    }
                }
            }
            collumn += 1;
        }

        let mut new_shape: Vec<u32> = Vec::with_capacity(2);
        new_shape.push(cols);
        new_shape.push(rows);
        proof {
            assert(new_shape@ =~= seq![s[1], s[0]]);
            lemma_rank2_product(new_shape@);
            assert((s[1] as nat) * (s[0] as nat) == (s[0] as nat) * (s[1] as nat))
                by (nonlinear_arith);
        }
        Tensor::from_data(return_data.as_slice(), new_shape.as_slice())
    }
}

/// Left fold of the pointwise products of two equally long sequences:
/// the dot product of their first `k` entries, in evaluation order.
pub open spec fn dot_prefix<T: core::ops::Add<Output = T> + core::ops::Mul<Output = T>>(
    a: Seq<T>,
    b: Seq<T>,
    k: int,
) -> T
    recommends
        1 <= k <= a.len(),
        a.len() == b.len(),
    decreases k,
{
    if k <= 1 {
        a[0].mul_spec(b[0])
    } else {
        dot_prefix(a, b, k - 1).add_spec(a[k - 1].mul_spec(b[k - 1]))
    }
}

impl<T: Default + Copy + core::ops::Add<Output = T> + core::ops::Mul<Output = T>> Tensor<T> {
    /// Returns the dot product of two one-dimensional tensors of the same
    /// shape, or `None` when either has another rank or the shapes differ.
    pub fn dot_product(&self, tens2: &Tensor<T>) -> (r: Option<T>)
        requires
            self.wf(),
            tens2.wf(),
            self.shape_seq().len() == 1 && self.shape_seq() == tens2.shape_seq() ==> {
                if T::obeys_add_spec() && T::obeys_mul_spec() {
                    &&& forall|k: int|
                        0 <= k < self.data_seq().len() ==> #[trigger] self.data_seq()[k].mul_req(
                            tens2.data_seq()[k],
                        )
                    &&& forall|k: int|
                        1 <= k < self.data_seq().len() ==> #[trigger] dot_prefix(
                            self.data_seq(),
                            tens2.data_seq(),
                            k,
                        ).add_req(self.data_seq()[k].mul_spec(tens2.data_seq()[k]))
                } else {
                    (forall|x: T, y: T| #[trigger] x.add_req(y)) && (forall|x: T, y: T|
                        #[trigger] x.mul_req(y))
                }
            },
        ensures
            r is Some <==> (self.shape_seq().len() == 1 && self.shape_seq()
                == tens2.shape_seq()),
            (r is Some && self.data_seq().len() >= 1 && T::obeys_add_spec()
                && T::obeys_mul_spec()) ==> r.unwrap() == dot_prefix(
                self.data_seq(),
                tens2.data_seq(),
                self.data_seq().len() as int,
            ),
    {
        let ghost a = self.data_seq();
        let ghost b = tens2.data_seq();
        if self.get_shape().len() != 1 {
            return None;
        }
        if self.get_shape() != tens2.get_shape() {
            proof {
                assert(!(self.shape_seq() =~= tens2.shape_seq()));
            }
            return None;
        }
        proof {
            assert(self.shape_seq() =~= tens2.shape_seq());
            lemma_shape_product_single(self.shape_seq());
        }

        let n = self.get_data().len();
        if n == 0 {
            return Some(T::default());
        }

        let mut dot: T = self.get_data()[0] * tens2.get_data()[0];
        let mut k: usize = 1;
        while k < n
            invariant
                self.wf(),
                tens2.wf(),
                a == self.data_seq(),
                b == tens2.data_seq(),
                self.shape_seq().len() == 1,
                self.shape_seq() == tens2.shape_seq(),
                n == a.len(),
                1 <= k <= n,
                if T::obeys_add_spec() && T::obeys_mul_spec() {
                    &&& forall|j: int| 0 <= j < n ==> #[trigger] a[j].mul_req(b[j])
                    &&& forall|j: int|
                        1 <= j < n ==> #[trigger] dot_prefix(a, b, j).add_req(
                            a[j].mul_spec(b[j]),
                        )
                } else {
                    (forall|x: T, y: T| #[trigger] x.add_req(y)) && (forall|x: T, y: T|
                        #[trigger] x.mul_req(y))
                },
                T::obeys_add_spec() && T::obeys_mul_spec() ==> dot == dot_prefix(a, b, k as int),
            decreases n - k,
        {
            dot = dot + self.get_data()[k] * tens2.get_data()[k];
            k += 1;
        }
        Some(dot)
    }
}

/// One cell of a matrix product, folded over the first `t` terms: entry
/// `(i, j)` of `a x b` where `a` has `cols_a` columns and `b` has `cols_b`
/// columns, both stored row-major.
pub open spec fn matmul_cell_prefix<T: core::ops::Add<Output = T> + core::ops::Mul<Output = T>>(
    a: Seq<T>,
    b: Seq<T>,
    cols_a: int,
    cols_b: int,
    i: int,
    j: int,
    t: int,
) -> T
    decreases t,
{
    if t <= 1 {
        a[i * cols_a].mul_spec(b[j])
    } else {
        matmul_cell_prefix(a, b, cols_a, cols_b, i, j, t - 1).add_spec(
            a[i * cols_a + (t - 1)].mul_spec(b[(t - 1) * cols_b + j]),
        )
    }
}

/// The operand preconditions of [`Tensor::matrix_mul`]: every elementwise
/// product and every partial-sum addition is permitted.
pub open spec fn matmul_reqs<T: core::ops::Add<Output = T> + core::ops::Mul<Output = T>>(
    a: Seq<T>,
    b: Seq<T>,
    m: int,
    k: int,
    n: int,
) -> bool {
    if T::obeys_add_spec() && T::obeys_mul_spec() {
        &&& forall|i: int, j: int, t: int|
            0 <= i < m && 0 <= j < n && 0 <= t < k ==> #[trigger] a[i * k + t].mul_req(
                b[t * n + j],
            )
        &&& forall|i: int, j: int, t: int|
            0 <= i < m && 0 <= j < n && 1 <= t < k ==> #[trigger] matmul_cell_prefix(
                a,
                b,
                k,
                n,
                i,
                j,
                t,
            ).add_req(a[i * k + t].mul_spec(b[t * n + j]))
    } else {
        (forall|x: T, y: T| #[trigger] x.add_req(y)) && (forall|x: T, y: T|
            #[trigger] x.mul_req(y))
    }
}

impl<T: Default + Copy + core::ops::Add<Output = T> + core::ops::Mul<Output = T>> Tensor<T> {
    /// Multiplies two rank-2 tensors as matrices: cell `(i, j)` of the
    /// result is the dot product of row `i` of this tensor with column `j`
    /// of the other.  `None` when either rank is not 2 or the inner
    /// dimensions disagree.
    pub fn matrix_mul(&self, tens2: &Tensor<T>) -> (r: Option<Tensor<T>>)
        requires
            self.wf(),
            tens2.wf(),
            (self.shape_seq().len() == 2 && tens2.shape_seq().len() == 2 && self.shape_seq()[1]
                == tens2.shape_seq()[0]) ==> {
                &&& (self.shape_seq()[0] as nat) * (tens2.shape_seq()[1] as nat) <= u32::MAX
                &&& matmul_reqs(
                    self.data_seq(),
                    tens2.data_seq(),
                    self.shape_seq()[0] as int,
                    self.shape_seq()[1] as int,
                    tens2.shape_seq()[1] as int,
                )
            },
        ensures
            r is Some <==> (self.shape_seq().len() == 2 && tens2.shape_seq().len() == 2
                && self.shape_seq()[1] == tens2.shape_seq()[0]),
            r is Some ==> {
                let t = r.unwrap();
                let m = self.shape_seq()[0] as int;
                let k = self.shape_seq()[1] as int;
                let n = tens2.shape_seq()[1] as int;
                &&& t.wf()
                &&& t.shape_seq() == seq![self.shape_seq()[0], tens2.shape_seq()[1]]
                &&& t.data_seq().len() == m * n
                &&& (T::obeys_add_spec() && T::obeys_mul_spec() && k >= 1) ==> forall|
                    i: int,
                    j: int,
                |
                    0 <= i < m && 0 <= j < n ==> #[trigger] t.data_seq()[i * n + j]
                        == matmul_cell_prefix(self.data_seq(), tens2.data_seq(), k, n, i, j, k)
            },
    {
        let ghost a = self.data_seq();
        let ghost b = tens2.data_seq();
        if self.get_shape().len() != 2 {
            return None;
        }
        if tens2.get_shape().len() != 2 {
            return None;
        }
        if self.get_shape()[1] != tens2.get_shape()[0] {
            return None;
        }

        let m = self.get_shape()[0];
        let k = self.get_shape()[1];
        let n = tens2.get_shape()[1];
        proof {
            lemma_rank2_product(self.shape_seq());
            lemma_rank2_product(tens2.shape_seq());
        }

        let mut return_data: Vec<T> = Vec::new();
        let mut i: u32 = 0;
        while i < m
            invariant
                self.wf(),
                tens2.wf(),
                a == self.data_seq(),
                b == tens2.data_seq(),
                self.shape_seq().len() == 2,
                tens2.shape_seq().len() == 2,
                m == self.shape_seq()[0],
                k == self.shape_seq()[1],
                k == tens2.shape_seq()[0],
                n == tens2.shape_seq()[1],
                a.len() == (m as nat) * (k as nat),
                b.len() == (k as nat) * (n as nat),
                (m as nat) * (n as nat) <= u32::MAX,
                matmul_reqs(a, b, m as int, k as int, n as int),
                0 <= i <= m,
                return_data@.len() == i * n,
                (T::obeys_add_spec() && T::obeys_mul_spec() && k >= 1) ==> forall|
                    i2: int,
                    j2: int,
                |
                    0 <= i2 < i && 0 <= j2 < n ==> #[trigger] return_data@[i2 * (n as int) + j2]
                        == matmul_cell_prefix(a, b, k as int, n as int, i2, j2, k as int),
            decreases m - i,
        {
            let mut j: u32 = 0;
            while j < n
                invariant
                    self.wf(),
                    tens2.wf(),
                    a == self.data_seq(),
                    b == tens2.data_seq(),
                    self.shape_seq().len() == 2,
                    tens2.shape_seq().len() == 2,
                    m == self.shape_seq()[0],
                    k == self.shape_seq()[1],
                    k == tens2.shape_seq()[0],
                    n == tens2.shape_seq()[1],
                    a.len() == (m as nat) * (k as nat),
                    b.len() == (k as nat) * (n as nat),
                    (m as nat) * (n as nat) <= u32::MAX,
                    matmul_reqs(a, b, m as int, k as int, n as int),
                    0 <= i < m,
                    0 <= j <= n,
                    return_data@.len() == i * n + j,
                    (T::obeys_add_spec() && T::obeys_mul_spec() && k >= 1) ==> forall|
                        i2: int,
                        j2: int,
                    |
                        0 <= i2 < i && 0 <= j2 < n ==> #[trigger] return_data@[i2 * (n as int)
                            + j2] == matmul_cell_prefix(a, b, k as int, n as int, i2, j2, k as int),
                    (T::obeys_add_spec() && T::obeys_mul_spec() && k >= 1) ==> forall|j2: int|
                        0 <= j2 < j ==> #[trigger] return_data@[i * (n as int) + j2]
                            == matmul_cell_prefix(
                            a,
                            b,
                            k as int,
                            n as int,
                            i as int,
                            j2,
                            k as int,
                        ),
                decreases n - j,
            {
                let cell = self.matmul_cell(tens2, i, j, m, k, n);
                proof {
                    lemma_index_grid_bounds(i as int, j as int, m as int, n as int);
                    let ni = n as int;
                    assert forall|i2: int, j2: int|
                        0 <= i2 < i && 0 <= j2 < n implies #[trigger] (i2 * ni + j2) < i * ni by {
                        assert((i2 + 1) * ni <= i * ni) by (nonlinear_arith)
                            requires
                                i2 + 1 <= i as int,
                                ni >= 0,
                        ;
                        assert(i2 * ni + ni == (i2 + 1) * ni) by (nonlinear_arith);
                    }
                }
                return_data.push(cell);
                j += 1;
            }
            proof {
                let ii = i as int;
                let ni = n as int;
                assert((ii + 1) * ni == ii * ni + ni) by (nonlinear_arith);
                if T::obeys_add_spec() && T::obeys_mul_spec() && k >= 1 {
                    assert forall|i2: int, j2: int|
                        0 <= i2 < ii + 1 && 0 <= j2 < n implies #[trigger] return_data@[i2 * ni
                        + j2] == matmul_cell_prefix(a, b, k as int, ni, i2, j2, k as int) by {
                        if i2 == ii {
                            assert(return_data@[ii * ni + j2] == matmul_cell_prefix(
                                a,
                                b,
                                k as int,
                                ni,
                                ii,
                                j2,
                                k as int,
                            ));
                        }
                    }
                }
            }
            i += 1;
        }

        let mut new_shape: Vec<u32> = Vec::with_capacity(2);
        new_shape.push(m);
        new_shape.push(n);
        proof {
            assert(new_shape@ =~= seq![self.shape_seq()[0], tens2.shape_seq()[1]]);
            lemma_rank2_product(new_shape@);
        }
        Tensor::from_data(return_data.as_slice(), new_shape.as_slice())
    }

    /// One cell of the matrix product: the dot product of row `i` of this
    /// tensor with column `j` of the other.
    fn matmul_cell(&self, tens2: &Tensor<T>, i: u32, j: u32, m: u32, k: u32, n: u32) -> (cell: T)
        requires
            self.wf(),
            tens2.wf(),
            self.shape_seq().len() == 2,
            tens2.shape_seq().len() == 2,
            m == self.shape_seq()[0],
            k == self.shape_seq()[1],
            k == tens2.shape_seq()[0],
            n == tens2.shape_seq()[1],
            i < m,
            j < n,
            matmul_reqs(
                self.data_seq(),
                tens2.data_seq(),
                m as int,
                k as int,
                n as int,
            ),
        ensures
            (T::obeys_add_spec() && T::obeys_mul_spec() && k >= 1) ==> cell == matmul_cell_prefix(
                self.data_seq(),
                tens2.data_seq(),
                k as int,
                n as int,
                i as int,
                j as int,
                k as int,
            ),
    {
        let ghost a = self.data_seq();
        let ghost b = tens2.data_seq();
        proof {
            lemma_rank2_product(self.shape_seq());
            lemma_rank2_product(tens2.shape_seq());
        }
        if k == 0 {
            return T::default();
        }

        proof {
            lemma_index_grid_bounds(i as int, 0, m as int, k as int);
            lemma_index_grid_bounds(0, j as int, k as int, n as int);
            assert(a[i * (k as int)].mul_req(b[j as int])) by {
                assert(i * (k as int) + 0 == i * (k as int));
                assert(0 * (n as int) + j == j as int);
            }
        }
        let mut cell: T = self.get_data()[(i * k) as usize] * tens2.get_data()[j as usize];
        let mut t: u32 = 1;
        while t < k
            invariant
                self.wf(),
                tens2.wf(),
                a == self.data_seq(),
                b == tens2.data_seq(),
                self.shape_seq().len() == 2,
                tens2.shape_seq().len() == 2,
                m == self.shape_seq()[0],
                k == self.shape_seq()[1],
                k == tens2.shape_seq()[0],
                n == tens2.shape_seq()[1],
                a.len() == (m as nat) * (k as nat),
                b.len() == (k as nat) * (n as nat),
                i < m,
                j < n,
                1 <= t <= k,
                matmul_reqs(a, b, m as int, k as int, n as int),
                T::obeys_add_spec() && T::obeys_mul_spec() ==> cell == matmul_cell_prefix(
                    a,
                    b,
                    k as int,
                    n as int,
                    i as int,
                    j as int,
                    t as int,
                ),
            decreases k - t,
        {
            proof {
                lemma_index_grid_bounds(i as int, t as int, m as int, k as int);
                lemma_index_grid_bounds(t as int, j as int, k as int, n as int);
            }
            cell = cell + self.get_data()[(i * k + t) as usize] * tens2.get_data()[(t * n
                + j) as usize];
            t += 1;
        }
        cell
    }
}

/// The first `j` cells of row `i` of a rendered matrix, separated by
/// commas.  The cells are given flat, row-major, `cols` per row.
pub open spec fn rendered_row(cells: Seq<Seq<char>>, cols: int, i: int, j: int) -> Seq<char>
    decreases j,
{
    if j <= 0 {
        Seq::empty()
    } else if j == 1 {
        cells[i * cols]
    } else {
        rendered_row(cells, cols, i, j - 1) + ", "@ + cells[i * cols + (j - 1)]
    }
}

/// The first `i` rows of a rendered matrix: each row between vertical
/// bars, rows separated by line breaks.
pub open spec fn rendered_matrix(cells: Seq<Seq<char>>, cols: int, i: int) -> Seq<char>
    decreases i,
{
    if i <= 0 {
        Seq::empty()
    } else if i == 1 {
        "|"@ + rendered_row(cells, cols, 0, cols) + "|"@
    } else {
        rendered_matrix(cells, cols, i - 1) + "\n"@ + "|"@ + rendered_row(cells, cols, i - 1, cols)
            + "|"@
    }
}

/// A row rendered from a prefix of the cells does not change when more
/// cells arrive.
proof fn lemma_rendered_row_push(cells: Seq<Seq<char>>, x: Seq<char>, cols: int, i: int, j: int)
    requires
        0 <= i,
        0 <= j,
        cols >= 0,
        i * cols + j <= cells.len(),
    ensures
        rendered_row(cells.push(x), cols, i, j) == rendered_row(cells, cols, i, j),
    decreases j,
{
    if j <= 0 {
    } else if j == 1 {
        assert(i * cols + 1 <= cells.len());
        assert(cells.push(x)[i * cols] == cells[i * cols]);
    } else {
        lemma_rendered_row_push(cells, x, cols, i, j - 1);
        assert(cells.push(x)[i * cols + (j - 1)] == cells[i * cols + (j - 1)]);
    }
}

/// A matrix rendered from a prefix of the cells does not change when more
/// cells arrive.
proof fn lemma_rendered_matrix_push(cells: Seq<Seq<char>>, x: Seq<char>, cols: int, i: int)
    requires
        0 <= i,
        cols >= 0,
        i * cols <= cells.len(),
    ensures
        rendered_matrix(cells.push(x), cols, i) == rendered_matrix(cells, cols, i),
    decreases i,
{
    if i <= 0 {
    } else {
        assert((i - 1) * cols + cols == i * cols) by (nonlinear_arith);
        assert((i - 1) * cols >= 0) by (nonlinear_arith)
            requires
                i >= 1,
                cols >= 0,
        ;
        lemma_rendered_matrix_push(cells, x, cols, i - 1);
        lemma_rendered_row_push(cells, x, cols, i - 1, cols);
    }
}

impl<T: Default + Copy + core::fmt::Display> Tensor<T> {
    /// Renders a rank-2 tensor as text, one row per line, each row between
    /// vertical bars with the elements separated by commas.  `None` when
    /// the rank is not 2.  Each cell holds the element's textual form, as
    /// the element type's own rendering produces it.
    pub fn matrix_to_string(&self) -> (r: Option<String>)
        requires
            self.wf(),
        ensures
            r is Some <==> self.shape_seq().len() == 2,
            r is Some ==> exists|cells: Seq<Seq<char>>|
                {
                    &&& cells.len() == self.data_seq().len()
                    &&& (forall|q: int|
                        0 <= q < cells.len() ==> exists|text: String|
                            {
                                &&& (#[trigger] cells[q]) == text@
                                &&& vstd::string::to_string_from_display_ensures::<T>(
                                    &self.data_seq()[q],
                                    text,
                                )
                            })
                    &&& r.unwrap()@ == rendered_matrix(
                        cells,
                        self.shape_seq()[1] as int,
                        self.shape_seq()[0] as int,
                    )
                },
    {
        let ghost s = self.shape_seq();
        if self.get_shape().len() != 2 {
            return None;
        }

        let rows = self.get_shape()[0];
        let cols = self.get_shape()[1];
        proof {
            lemma_rank2_product(s);
        }

        let ghost mut cells: Seq<Seq<char>> = Seq::empty();
        let mut return_string = String::new();
        let mut i: u32 = 0;
        while i < rows
            invariant
                self.wf(),
                s == self.shape_seq(),
                s.len() == 2,
                rows == s[0],
                cols == s[1],
                shape_product(s) == (s[0] as nat) * (s[1] as nat),
                0 <= i <= rows,
                cells.len() == i * cols,
                forall|q: int|
                    0 <= q < cells.len() ==> exists|text: String|
                        {
                            &&& (#[trigger] cells[q]) == text@
                            &&& vstd::string::to_string_from_display_ensures::<T>(
                                &self.data_seq()[q],
                                text,
                            )
                        },
                i == 0 ==> return_string@ == Seq::<char>::empty(),
                0 < i < rows ==> return_string@ == rendered_matrix(cells, cols as int, i as int)
                    + "\n"@,
                0 < i == rows ==> return_string@ == rendered_matrix(cells, cols as int, i as int),
            decreases rows - i,
        {
            let ghost before_row = return_string@;
            return_string.append("|");
            let ghost row_prefix = return_string@;
            proof {
                assert(row_prefix == before_row + "|"@);
            }
            let mut j: u32 = 0;
            while j < cols
                invariant
                    self.wf(),
                    s == self.shape_seq(),
                    s.len() == 2,
                    rows == s[0],
                    cols == s[1],
                    shape_product(s) == (s[0] as nat) * (s[1] as nat),
                    0 <= i < rows,
                    0 <= j <= cols,
                    cells.len() == i * cols + j,
                    forall|q: int|
                        0 <= q < cells.len() ==> exists|text: String|
                            {
                                &&& (#[trigger] cells[q]) == text@
                                &&& vstd::string::to_string_from_display_ensures::<T>(
                                    &self.data_seq()[q],
                                    text,
                                )
                            },
                    row_prefix == before_row + "|"@,
                    i == 0 ==> before_row == Seq::<char>::empty(),
                    0 < i ==> before_row == rendered_matrix(cells, cols as int, i as int) + "\n"@,
                    j == 0 ==> return_string@ == row_prefix,
                    0 < j < cols ==> return_string@ == row_prefix + rendered_row(
                        cells,
                        cols as int,
                        i as int,
                        j as int,
                    ) + ", "@,
                    0 < j == cols ==> return_string@ == row_prefix + rendered_row(
                        cells,
                        cols as int,
                        i as int,
                        j as int,
                    ),
                decreases cols - j,
            {
                proof {
                    lemma_index_grid_bounds(i as int, j as int, rows as int, cols as int);
                }
                let cell = self.get_data()[(i * cols + j) as usize];
                let cell_text = cell.to_string();
                return_string.append(cell_text.as_str());
                proof {
                    let ci = cols as int;
                    let ii = i as int;
                    let ji = j as int;
                    lemma_rendered_matrix_push(cells, cell_text@, ci, ii);
                    lemma_rendered_row_push(cells, cell_text@, ci, ii, ji);
                    cells = cells.push(cell_text@);
                    assert(cells[ii * ci + ji] == cell_text@);
                    if ji == 0 {
                        assert(rendered_row(cells, ci, ii, 1) == cells[ii * ci]);
                        assert(return_string@ =~= row_prefix + rendered_row(cells, ci, ii, 1));
                    } else {
                        assert(rendered_row(cells, ci, ii, ji + 1) == rendered_row(
                            cells,
                            ci,
                            ii,
                            ji,
                        ) + ", "@ + cells[ii * ci + ji]);
                        assert(return_string@ =~= row_prefix + rendered_row(cells, ci, ii, ji + 1));
                    }
                }
                if j != cols - 1 {
                    return_string.append(", ");
                    proof {
                        assert(return_string@ =~= row_prefix + rendered_row(
                            cells,
                            cols as int,
                            i as int,
                            j + 1,
                        ) + ", "@);
                    }
                }
                j += 1;
            }
            return_string.append("|");
            proof {
                let ci = cols as int;
                let ii = i as int;
                if ii == 0 {
                    assert(rendered_matrix(cells, ci, 1) == "|"@ + rendered_row(cells, ci, 0, ci)
                        + "|"@);
                    assert(return_string@ =~= rendered_matrix(cells, ci, 1));
                } else {
                    assert(rendered_matrix(cells, ci, ii + 1) == rendered_matrix(cells, ci, ii)
                        + "\n"@ + "|"@ + rendered_row(cells, ci, ii, ci) + "|"@);
                    assert(return_string@ =~= rendered_matrix(cells, ci, ii + 1));
                }
            }
            if i != rows - 1 {
                return_string.append("\n");
            }
            proof {
                assert((i as int + 1) * (cols as int) == i * (cols as int) + cols)
                    by (nonlinear_arith);
            }
            i += 1;
        }

        proof {
            if rows == 0 {
                assert(return_string@ =~= rendered_matrix(cells, cols as int, rows as int));
            }
            assert(cells.len() == self.data_seq().len()) by {
                assert((rows as int) * (cols as int) == (s[0] as nat) * (s[1] as nat));
            }
        }
        Some(return_string)
    }
}

/// A row-major grid index stays inside the grid.
pub(crate) proof fn lemma_index_grid_bounds(i: int, j: int, rows: int, cols: int)
    requires
        0 <= i < rows,
        0 <= j < cols,
    ensures
        0 <= i * cols + j,
        i * cols + j < rows * cols,
{
    assert(i * cols + j < rows * cols) by (nonlinear_arith)
        requires
            0 <= i < rows,
            0 <= j < cols,
    ;
    assert(i * cols >= 0) by (nonlinear_arith)
        requires
            i >= 0,
            cols >= 0,
    ;
}

/// The element count of a rank-2 shape is the product of its two
/// dimensions.
pub(crate) proof fn lemma_rank2_product(s: Seq<u32>)
    requires
        s.len() == 2,
    ensures
        shape_product(s) == (s[0] as nat) * (s[1] as nat),
{
    assert(s.drop_last() =~= seq![s[0]]);
    lemma_shape_product_single(s.drop_last());
}

/// The element count of a rank-1 shape is its single dimension.
pub(crate) proof fn lemma_shape_product_single(s: Seq<u32>)
    requires
        s.len() == 1,
    ensures
        shape_product(s) == s[0],
{
    crate::tensor::lemma_shape_product_first(s);
    assert(s.drop_first() =~= Seq::<u32>::empty());
    assert(shape_product(Seq::<u32>::empty()) == 1);
    let a = s.first() as int;
    let b = shape_product(s.drop_first()) as int;
    assert(a * b == a) by (nonlinear_arith)
        requires
            b == 1,
    ;
}

} // verus!

//! Elementwise arithmetic on tensors.
//!
//! Every operation comes in four forms: combining two tensors of equal
//! shape (`tens_*`), the same in place (`tens_*_mut`), combining each
//! element with one scalar (`add`, `sub`, `mul`, `div`), and the same in
//! place (`*_mut`).  `sum` and `product` fold the whole tensor into one
//! value.
//!
//! The contracts speak through the specification hooks that vstd attaches
//! to the `core::ops` traits: for an element type whose operators obey
//! their specification (the primitive integers do), the result is pinned
//! elementwise; the preconditions demand exactly that every elementwise
//! operation is permitted (for integers: does not overflow).

use vstd::prelude::*;
use vstd::std_specs::ops::AddSpec;
use vstd::std_specs::ops::DivSpec;
use vstd::std_specs::ops::MulSpec;
use vstd::std_specs::ops::SubSpec;

use crate::tensor::Tensor;

verus! {

/// Left fold of `+` over a nonempty sequence, in evaluation order.
pub open spec fn fold_add_seq<T: core::ops::Add<Output = T>>(s: Seq<T>) -> T
    recommends
        s.len() >= 1,
    decreases s.len(),
{
    if s.len() <= 1 {
        s[0]
    } else {
        fold_add_seq(s.drop_last()).add_spec(s.last())
    }
}

/// Left fold of `*` over a nonempty sequence, in evaluation order.
pub open spec fn fold_mul_seq<T: core::ops::Mul<Output = T>>(s: Seq<T>) -> T
    recommends
        s.len() >= 1,
    decreases s.len(),
{
    if s.len() <= 1 {
        s[0]
    } else {
        fold_mul_seq(s.drop_last()).mul_spec(s.last())
    }
}

impl<T: Default + Copy + core::ops::Add<Output = T>> Tensor<T> {
    /// Adds the content of another tensor of the same shape, elementwise;
    /// `None` when the shapes differ.
    pub fn tens_add(&self, tens2: &Tensor<T>) -> (r: Option<Tensor<T>>)
        requires
            self.wf(),
            tens2.wf(),
            self.shape_seq() == tens2.shape_seq() ==> forall|i: int|
                0 <= i < self.data_seq().len() ==> #[trigger] self.data_seq()[i].add_req(
                    tens2.data_seq()[i],
                ),
        ensures
            r is Some <==> self.shape_seq() == tens2.shape_seq(),
            r is Some ==> {
                let t = r.unwrap();
                &&& t.wf()
                &&& t.shape_seq() == self.shape_seq()
                &&& t.data_seq().len() == self.data_seq().len()
                &&& T::obeys_add_spec() ==> forall|i: int|
                    0 <= i < t.data_seq().len() ==> #[trigger] t.data_seq()[i]
                        == self.data_seq()[i].add_spec(tens2.data_seq()[i])
            },
    {
        if self.get_shape() != tens2.get_shape() {
            proof {
                assert(!(self.shape_seq() =~= tens2.shape_seq()));
            }
            return None;
        }
        proof {
            assert(self.shape_seq() =~= tens2.shape_seq());
        }

        let n = self.get_data().len();
        let mut return_data: Vec<T> = Vec::with_capacity(n);
        let mut i: usize = 0;
        while i < n
            invariant
                self.wf(),
                tens2.wf(),
                self.shape_seq() == tens2.shape_seq(),
                n == self.data_seq().len(),
                forall|j: int| 0 <= j < n ==> #[trigger] self.data_seq()[j].add_req(
                    tens2.data_seq()[j],
                ),
                0 <= i <= n,
                return_data@.len() == i,
                T::obeys_add_spec() ==> forall|j: int| 0 <= j < i ==> #[trigger] return_data@[j]
                    == self.data_seq()[j].add_spec(tens2.data_seq()[j]),
            decreases n - i,
        {
            let x = self.get_data()[i] + tens2.get_data()[i];
            return_data.push(x);
            i += 1;
        }

        Tensor::from_data(return_data.as_slice(), self.get_shape().as_slice())
    }

    /// Adds the content of another tensor of the same shape, elementwise
    /// and in place; shapes that differ leave the tensor unchanged.
    pub fn tens_add_mut(&mut self, tens2: &Tensor<T>)
        requires
            old(self).wf(),
            tens2.wf(),
            old(self).shape_seq() == tens2.shape_seq() ==> forall|i: int|
                0 <= i < old(self).data_seq().len() ==> #[trigger] old(self).data_seq()[i].add_req(
                    tens2.data_seq()[i],
                ),
        ensures
            final(self).wf(),
            final(self).shape_seq() == old(self).shape_seq(),
            final(self).data_seq().len() == old(self).data_seq().len(),
            old(self).shape_seq() != tens2.shape_seq() ==> final(self).data_seq() == old(
                self,
            ).data_seq(),
            old(self).shape_seq() == tens2.shape_seq() && T::obeys_add_spec() ==> forall|i: int|
                0 <= i < old(self).data_seq().len() ==> #[trigger] final(self).data_seq()[i] == old(
                    self,
                ).data_seq()[i].add_spec(tens2.data_seq()[i]),
    {
        let result = self.tens_add(tens2);
        match result {
            None => {},
            Some(t) => {
                self.set_data(t.get_data().as_slice());
            },
        }
    }

    /// Adds one value to each element of the tensor.
    pub fn add(&self, val: T) -> (r: Tensor<T>)
        requires
            self.wf(),
            forall|i: int| 0 <= i < self.data_seq().len() ==> #[trigger] self.data_seq()[i].add_req(
                val,
            ),
        ensures
            r.wf(),
            r.shape_seq() == self.shape_seq(),
            r.data_seq().len() == self.data_seq().len(),
            T::obeys_add_spec() ==> forall|i: int| 0 <= i < r.data_seq().len()
                ==> #[trigger] r.data_seq()[i] == self.data_seq()[i].add_spec(val),
    {
        let n = self.get_data().len();
        let mut return_data: Vec<T> = Vec::with_capacity(n);
        let mut i: usize = 0;
        while i < n
            invariant
                self.wf(),
                n == self.data_seq().len(),
                forall|j: int| 0 <= j < n ==> #[trigger] self.data_seq()[j].add_req(val),
                0 <= i <= n,
                return_data@.len() == i,
                T::obeys_add_spec() ==> forall|j: int| 0 <= j < i ==> #[trigger] return_data@[j]
                    == self.data_seq()[j].add_spec(val),
            decreases n - i,
        {
            let x = self.get_data()[i] + val;
            return_data.push(x);
            i += 1;
        }

        Tensor::from_data(return_data.as_slice(), self.get_shape().as_slice()).unwrap()
    }

    /// Adds one value to each element of the tensor, in place.
    pub fn add_mut(&mut self, val: T)
        requires
            old(self).wf(),
            forall|i: int| 0 <= i < old(self).data_seq().len() ==> #[trigger] old(
                self,
            ).data_seq()[i].add_req(val),
        ensures
            final(self).wf(),
            final(self).shape_seq() == old(self).shape_seq(),
            final(self).data_seq().len() == old(self).data_seq().len(),
            T::obeys_add_spec() ==> forall|i: int| 0 <= i < old(self).data_seq().len()
                ==> #[trigger] final(self).data_seq()[i] == old(self).data_seq()[i].add_spec(val),
    {
        let result = self.add(val);
        self.set_data(result.get_data().as_slice());
    }

    /// Returns the sum of all elements in the tensor, folded left to
    /// right.
    pub fn sum(&self) -> (r: T)
        requires
            self.wf(),
            self.data_seq().len() >= 1,
            if T::obeys_add_spec() {
                forall|k: int| 1 <= k < self.data_seq().len() ==> #[trigger] fold_add_seq(
                    self.data_seq().take(k),
                ).add_req(self.data_seq()[k])
            } else {
                forall|x: T, y: T| #[trigger] x.add_req(y)
            },
        ensures
            T::obeys_add_spec() ==> r == fold_add_seq(self.data_seq()),
    {
        let n = self.get_data().len();
        let mut return_data: T = self.get_data()[0];

        proof {
            assert(self.data_seq().take(1) =~= seq![self.data_seq()[0]]);
        }
        let mut i: usize = 1;
        while i < n
            invariant
                self.wf(),
                n == self.data_seq().len(),
                1 <= i <= n,
                if T::obeys_add_spec() {
                    forall|k: int| 1 <= k < n ==> #[trigger] fold_add_seq(
                        self.data_seq().take(k),
                    ).add_req(self.data_seq()[k])
                } else {
                    forall|x: T, y: T| #[trigger] x.add_req(y)
                },
                T::obeys_add_spec() ==> return_data == fold_add_seq(self.data_seq().take(i as int)),
            decreases n - i,
        {
            proof {
                assert(self.data_seq().take(i + 1).drop_last() =~= self.data_seq().take(i as int));
                assert(self.data_seq().take(i + 1).last() == self.data_seq()[i as int]);
            }
            return_data = return_data + self.get_data()[i];
            i += 1;
        }
        proof {
            assert(self.data_seq().take(n as int) =~= self.data_seq());
        }
        return_data
    }
}

impl<T: Default + Copy + core::ops::Sub<Output = T>> Tensor<T> {
    /// Subtracts the content of another tensor of the same shape,
    /// elementwise; `None` when the shapes differ.
    pub fn tens_sub(&self, tens2: &Tensor<T>) -> (r: Option<Tensor<T>>)
        requires
            self.wf(),
            tens2.wf(),
            self.shape_seq() == tens2.shape_seq() ==> forall|i: int|
                0 <= i < self.data_seq().len() ==> #[trigger] self.data_seq()[i].sub_req(
                    tens2.data_seq()[i],
                ),
        ensures
            r is Some <==> self.shape_seq() == tens2.shape_seq(),
            r is Some ==> {
                let t = r.unwrap();
                &&& t.wf()
                &&& t.shape_seq() == self.shape_seq()
                &&& t.data_seq().len() == self.data_seq().len()
                &&& T::obeys_sub_spec() ==> forall|i: int|
                    0 <= i < t.data_seq().len() ==> #[trigger] t.data_seq()[i]
                        == self.data_seq()[i].sub_spec(tens2.data_seq()[i])
            },
    {
        if self.get_shape() != tens2.get_shape() {
            proof {
                assert(!(self.shape_seq() =~= tens2.shape_seq()));
            }
            return None;
        }
        proof {
            assert(self.shape_seq() =~= tens2.shape_seq());
        }

        let n = self.get_data().len();
        let mut return_data: Vec<T> = Vec::with_capacity(n);
        let mut i: usize = 0;
        while i < n
            invariant
                self.wf(),
                tens2.wf(),
                self.shape_seq() == tens2.shape_seq(),
                n == self.data_seq().len(),
                forall|j: int| 0 <= j < n ==> #[trigger] self.data_seq()[j].sub_req(
                    tens2.data_seq()[j],
                ),
                0 <= i <= n,
                return_data@.len() == i,
                T::obeys_sub_spec() ==> forall|j: int| 0 <= j < i ==> #[trigger] return_data@[j]
                    == self.data_seq()[j].sub_spec(tens2.data_seq()[j]),
            decreases n - i,
        {
            let x = self.get_data()[i] - tens2.get_data()[i];
            return_data.push(x);
            i += 1;
        }

        Tensor::from_data(return_data.as_slice(), self.get_shape().as_slice())
    }

    /// Subtracts the content of another tensor of the same shape,
    /// elementwise and in place; shapes that differ leave the tensor
    /// unchanged.
    pub fn tens_sub_mut(&mut self, tens2: &Tensor<T>)
        requires
            old(self).wf(),
            tens2.wf(),
            old(self).shape_seq() == tens2.shape_seq() ==> forall|i: int|
                0 <= i < old(self).data_seq().len() ==> #[trigger] old(self).data_seq()[i].sub_req(
                    tens2.data_seq()[i],
                ),
        ensures
            final(self).wf(),
            final(self).shape_seq() == old(self).shape_seq(),
            final(self).data_seq().len() == old(self).data_seq().len(),
            old(self).shape_seq() != tens2.shape_seq() ==> final(self).data_seq() == old(
                self,
            ).data_seq(),
            old(self).shape_seq() == tens2.shape_seq() && T::obeys_sub_spec() ==> forall|i: int|
                0 <= i < old(self).data_seq().len() ==> #[trigger] final(self).data_seq()[i] == old(
                    self,
                ).data_seq()[i].sub_spec(tens2.data_seq()[i]),
    {
        let result = self.tens_sub(tens2);
        match result {
            None => {},
            Some(t) => {
                self.set_data(t.get_data().as_slice());
            },
        }
    }

    /// Subtracts one value from each element of the tensor.
    pub fn sub(&self, val: T) -> (r: Tensor<T>)
        requires
            self.wf(),
            forall|i: int| 0 <= i < self.data_seq().len() ==> #[trigger] self.data_seq()[i].sub_req(
                val,
            ),
        ensures
            r.wf(),
            r.shape_seq() == self.shape_seq(),
            r.data_seq().len() == self.data_seq().len(),
            T::obeys_sub_spec() ==> forall|i: int| 0 <= i < r.data_seq().len()
                ==> #[trigger] r.data_seq()[i] == self.data_seq()[i].sub_spec(val),
    {
        let n = self.get_data().len();
        let mut return_data: Vec<T> = Vec::with_capacity(n);
        let mut i: usize = 0;
        while i < n
            invariant
                self.wf(),
                n == self.data_seq().len(),
                forall|j: int| 0 <= j < n ==> #[trigger] self.data_seq()[j].sub_req(val),
                0 <= i <= n,
                return_data@.len() == i,
                T::obeys_sub_spec() ==> forall|j: int| 0 <= j < i ==> #[trigger] return_data@[j]
                    == self.data_seq()[j].sub_spec(val),
            decreases n - i,
        {
            let x = self.get_data()[i] - val;
            return_data.push(x);
            i += 1;
        }

        Tensor::from_data(return_data.as_slice(), self.get_shape().as_slice()).unwrap()
    }

    /// Subtracts one value from each element of the tensor, in place.
    pub fn sub_mut(&mut self, val: T)
        requires
            old(self).wf(),
            forall|i: int| 0 <= i < old(self).data_seq().len() ==> #[trigger] old(
                self,
            ).data_seq()[i].sub_req(val),
        ensures
            final(self).wf(),
            final(self).shape_seq() == old(self).shape_seq(),
            final(self).data_seq().len() == old(self).data_seq().len(),
            T::obeys_sub_spec() ==> forall|i: int| 0 <= i < old(self).data_seq().len()
                ==> #[trigger] final(self).data_seq()[i] == old(self).data_seq()[i].sub_spec(val),
    {
        let result = self.sub(val);
        self.set_data(result.get_data().as_slice());
    }
}

impl<T: Default + Copy + core::ops::Mul<Output = T>> Tensor<T> {
    /// Multiplies with the content of another tensor of the same shape,
    /// elementwise; `None` when the shapes differ.
    pub fn tens_mul(&self, tens2: &Tensor<T>) -> (r: Option<Tensor<T>>)
        requires
            self.wf(),
            tens2.wf(),
            self.shape_seq() == tens2.shape_seq() ==> forall|i: int|
                0 <= i < self.data_seq().len() ==> #[trigger] self.data_seq()[i].mul_req(
                    tens2.data_seq()[i],
                ),
        ensures
            r is Some <==> self.shape_seq() == tens2.shape_seq(),
            r is Some ==> {
                let t = r.unwrap();
                &&& t.wf()
                &&& t.shape_seq() == self.shape_seq()
                &&& t.data_seq().len() == self.data_seq().len()
                &&& T::obeys_mul_spec() ==> forall|i: int|
                    0 <= i < t.data_seq().len() ==> #[trigger] t.data_seq()[i]
                        == self.data_seq()[i].mul_spec(tens2.data_seq()[i])
            },
    {
        if self.get_shape() != tens2.get_shape() {
            proof {
                assert(!(self.shape_seq() =~= tens2.shape_seq()));
            }
            return None;
        }
        proof {
            assert(self.shape_seq() =~= tens2.shape_seq());
        }

        let n = self.get_data().len();
        let mut return_data: Vec<T> = Vec::with_capacity(n);
        let mut i: usize = 0;
        while i < n
            invariant
                self.wf(),
                tens2.wf(),
                self.shape_seq() == tens2.shape_seq(),
                n == self.data_seq().len(),
                forall|j: int| 0 <= j < n ==> #[trigger] self.data_seq()[j].mul_req(
                    tens2.data_seq()[j],
                ),
                0 <= i <= n,
                return_data@.len() == i,
                T::obeys_mul_spec() ==> forall|j: int| 0 <= j < i ==> #[trigger] return_data@[j]
                    == self.data_seq()[j].mul_spec(tens2.data_seq()[j]),
            decreases n - i,
        {
            let x = self.get_data()[i] * tens2.get_data()[i];
            return_data.push(x);
            i += 1;
        }

        Tensor::from_data(return_data.as_slice(), self.get_shape().as_slice())
    }

    /// Multiplies with the content of another tensor of the same shape,
    /// elementwise and in place; shapes that differ leave the tensor
    /// unchanged.
    pub fn tens_mul_mut(&mut self, tens2: &Tensor<T>)
        requires
            old(self).wf(),
            tens2.wf(),
            old(self).shape_seq() == tens2.shape_seq() ==> forall|i: int|
                0 <= i < old(self).data_seq().len() ==> #[trigger] old(self).data_seq()[i].mul_req(
                    tens2.data_seq()[i],
                ),
        ensures
            final(self).wf(),
            final(self).shape_seq() == old(self).shape_seq(),
            final(self).data_seq().len() == old(self).data_seq().len(),
            old(self).shape_seq() != tens2.shape_seq() ==> final(self).data_seq() == old(
                self,
            ).data_seq(),
            old(self).shape_seq() == tens2.shape_seq() && T::obeys_mul_spec() ==> forall|i: int|
                0 <= i < old(self).data_seq().len() ==> #[trigger] final(self).data_seq()[i] == old(
                    self,
                ).data_seq()[i].mul_spec(tens2.data_seq()[i]),
    {
        let result = self.tens_mul(tens2);
        match result {
            None => {},
            Some(t) => {
                self.set_data(t.get_data().as_slice());
            },
        }
    }

    /// Multiplies each element of the tensor by one value.
    pub fn mul(&self, val: T) -> (r: Tensor<T>)
        requires
            self.wf(),
            forall|i: int| 0 <= i < self.data_seq().len() ==> #[trigger] self.data_seq()[i].mul_req(
                val,
            ),
        ensures
            r.wf(),
            r.shape_seq() == self.shape_seq(),
            r.data_seq().len() == self.data_seq().len(),
            T::obeys_mul_spec() ==> forall|i: int| 0 <= i < r.data_seq().len()
                ==> #[trigger] r.data_seq()[i] == self.data_seq()[i].mul_spec(val),
    {
        let n = self.get_data().len();
        let mut return_data: Vec<T> = Vec::with_capacity(n);
        let mut i: usize = 0;
        while i < n
            invariant
                self.wf(),
                n == self.data_seq().len(),
                forall|j: int| 0 <= j < n ==> #[trigger] self.data_seq()[j].mul_req(val),
                0 <= i <= n,
                return_data@.len() == i,
                T::obeys_mul_spec() ==> forall|j: int| 0 <= j < i ==> #[trigger] return_data@[j]
                    == self.data_seq()[j].mul_spec(val),
            decreases n - i,
        {
            let x = self.get_data()[i] * val;
            return_data.push(x);
            i += 1;
        }

        Tensor::from_data(return_data.as_slice(), self.get_shape().as_slice()).unwrap()
    }

    /// Multiplies each element of the tensor by one value, in place.
    pub fn mul_mut(&mut self, val: T)
        requires
            old(self).wf(),
            forall|i: int| 0 <= i < old(self).data_seq().len() ==> #[trigger] old(
                self,
            ).data_seq()[i].mul_req(val),
        ensures
            final(self).wf(),
            final(self).shape_seq() == old(self).shape_seq(),
            final(self).data_seq().len() == old(self).data_seq().len(),
            T::obeys_mul_spec() ==> forall|i: int| 0 <= i < old(self).data_seq().len()
                ==> #[trigger] final(self).data_seq()[i] == old(self).data_seq()[i].mul_spec(val),
    {
        let result = self.mul(val);
        self.set_data(result.get_data().as_slice());
    }

    /// Returns the product of all elements in the tensor, folded left to
    /// right.
    pub fn product(&self) -> (r: T)
        requires
            self.wf(),
            self.data_seq().len() >= 1,
            if T::obeys_mul_spec() {
                forall|k: int| 1 <= k < self.data_seq().len() ==> #[trigger] fold_mul_seq(
                    self.data_seq().take(k),
                ).mul_req(self.data_seq()[k])
            } else {
                forall|x: T, y: T| #[trigger] x.mul_req(y)
            },
        ensures
            T::obeys_mul_spec() ==> r == fold_mul_seq(self.data_seq()),
    {
        let n = self.get_data().len();
        let mut return_data: T = self.get_data()[0];

        proof {
            assert(self.data_seq().take(1) =~= seq![self.data_seq()[0]]);
        }
        let mut i: usize = 1;
        while i < n
            invariant
                self.wf(),
                n == self.data_seq().len(),
                1 <= i <= n,
                if T::obeys_mul_spec() {
                    forall|k: int| 1 <= k < n ==> #[trigger] fold_mul_seq(
                        self.data_seq().take(k),
                    ).mul_req(self.data_seq()[k])
                } else {
                    forall|x: T, y: T| #[trigger] x.mul_req(y)
                },
                T::obeys_mul_spec() ==> return_data == fold_mul_seq(self.data_seq().take(i as int)),
            decreases n - i,
        {
            proof {
                assert(self.data_seq().take(i + 1).drop_last() =~= self.data_seq().take(i as int));
                assert(self.data_seq().take(i + 1).last() == self.data_seq()[i as int]);
            }
            return_data = return_data * self.get_data()[i];
            i += 1;
        }
        proof {
            assert(self.data_seq().take(n as int) =~= self.data_seq());
        }
        return_data
    }
}

impl<T: Default + Copy + core::ops::Div<Output = T>> Tensor<T> {
    /// Divides by the content of another tensor of the same shape,
    /// elementwise; `None` when the shapes differ.
    pub fn tens_div(&self, tens2: &Tensor<T>) -> (r: Option<Tensor<T>>)
        requires
            self.wf(),
            tens2.wf(),
            self.shape_seq() == tens2.shape_seq() ==> forall|i: int|
                0 <= i < self.data_seq().len() ==> #[trigger] self.data_seq()[i].div_req(
                    tens2.data_seq()[i],
                ),
        ensures
            r is Some <==> self.shape_seq() == tens2.shape_seq(),
            r is Some ==> {
                let t = r.unwrap();
                &&& t.wf()
                &&& t.shape_seq() == self.shape_seq()
                &&& t.data_seq().len() == self.data_seq().len()
                &&& T::obeys_div_spec() ==> forall|i: int|
                    0 <= i < t.data_seq().len() ==> #[trigger] t.data_seq()[i]
                        == self.data_seq()[i].div_spec(tens2.data_seq()[i])
            },
    {
        if self.get_shape() != tens2.get_shape() {
            proof {
                assert(!(self.shape_seq() =~= tens2.shape_seq()));
            }
            return None;
        }
        proof {
            assert(self.shape_seq() =~= tens2.shape_seq());
        }

        let n = self.get_data().len();
        let mut return_data: Vec<T> = Vec::with_capacity(n);
        let mut i: usize = 0;
        while i < n
            invariant
                self.wf(),
                tens2.wf(),
                self.shape_seq() == tens2.shape_seq(),
                n == self.data_seq().len(),
                forall|j: int| 0 <= j < n ==> #[trigger] self.data_seq()[j].div_req(
                    tens2.data_seq()[j],
                ),
                0 <= i <= n,
                return_data@.len() == i,
                T::obeys_div_spec() ==> forall|j: int| 0 <= j < i ==> #[trigger] return_data@[j]
                    == self.data_seq()[j].div_spec(tens2.data_seq()[j]),
            decreases n - i,
        {
            let x = self.get_data()[i] / tens2.get_data()[i];
            return_data.push(x);
            i += 1;
        }

        Tensor::from_data(return_data.as_slice(), self.get_shape().as_slice())
    }

    /// Divides by the content of another tensor of the same shape,
    /// elementwise and in place; shapes that differ leave the tensor
    /// unchanged.
    pub fn tens_div_mut(&mut self, tens2: &Tensor<T>)
        requires
            old(self).wf(),
            tens2.wf(),
            old(self).shape_seq() == tens2.shape_seq() ==> forall|i: int|
                0 <= i < old(self).data_seq().len() ==> #[trigger] old(self).data_seq()[i].div_req(
                    tens2.data_seq()[i],
                ),
        ensures
            final(self).wf(),
            final(self).shape_seq() == old(self).shape_seq(),
            final(self).data_seq().len() == old(self).data_seq().len(),
            old(self).shape_seq() != tens2.shape_seq() ==> final(self).data_seq() == old(
                self,
            ).data_seq(),
            old(self).shape_seq() == tens2.shape_seq() && T::obeys_div_spec() ==> forall|i: int|
                0 <= i < old(self).data_seq().len() ==> #[trigger] final(self).data_seq()[i] == old(
                    self,
                ).data_seq()[i].div_spec(tens2.data_seq()[i]),
    {
        let result = self.tens_div(tens2);
        match result {
            None => {},
            Some(t) => {
                self.set_data(t.get_data().as_slice());
            },
        }
    }

    /// Divides each element of the tensor by one value.
    pub fn div(&self, val: T) -> (r: Tensor<T>)
        requires
            self.wf(),
            forall|i: int| 0 <= i < self.data_seq().len() ==> #[trigger] self.data_seq()[i].div_req(
                val,
            ),
        ensures
            r.wf(),
            r.shape_seq() == self.shape_seq(),
            r.data_seq().len() == self.data_seq().len(),
            T::obeys_div_spec() ==> forall|i: int| 0 <= i < r.data_seq().len()
                ==> #[trigger] r.data_seq()[i] == self.data_seq()[i].div_spec(val),
    {
        let n = self.get_data().len();
        let mut return_data: Vec<T> = Vec::with_capacity(n);
        let mut i: usize = 0;
        while i < n
            invariant
                self.wf(),
                n == self.data_seq().len(),
                forall|j: int| 0 <= j < n ==> #[trigger] self.data_seq()[j].div_req(val),
                0 <= i <= n,
                return_data@.len() == i,
                T::obeys_div_spec() ==> forall|j: int| 0 <= j < i ==> #[trigger] return_data@[j]
                    == self.data_seq()[j].div_spec(val),
            decreases n - i,
        {
            let x = self.get_data()[i] / val;
            return_data.push(x);
            i += 1;
        }

        Tensor::from_data(return_data.as_slice(), self.get_shape().as_slice()).unwrap()
    }

    /// Divides each element of the tensor by one value, in place.
    pub fn div_mut(&mut self, val: T)
        requires
            old(self).wf(),
            forall|i: int| 0 <= i < old(self).data_seq().len() ==> #[trigger] old(
                self,
            ).data_seq()[i].div_req(val),
        ensures
            final(self).wf(),
            final(self).shape_seq() == old(self).shape_seq(),
            final(self).data_seq().len() == old(self).data_seq().len(),
            T::obeys_div_spec() ==> forall|i: int| 0 <= i < old(self).data_seq().len()
                ==> #[trigger] final(self).data_seq()[i] == old(self).data_seq()[i].div_spec(val),
    {
        let result = self.div(val);
        self.set_data(result.get_data().as_slice());
    }
}

} // verus!

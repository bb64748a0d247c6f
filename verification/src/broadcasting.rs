//! Broadcast-shape computation.
//!
//! Two shapes of equal rank are broadcast-compatible when, axis by axis,
//! the dimensions are equal or one of them is 1; the broadcast shape takes
//! the larger dimension on every axis.

use vstd::prelude::*;
use vstd::std_specs::ops::AddSpec;
use vstd::std_specs::ops::DivSpec;
use vstd::std_specs::ops::MulSpec;
use vstd::std_specs::ops::SubSpec;

use crate::tensor::checked_shape_product;
use crate::tensor::coords_in_shape;
use crate::tensor::coords_of;
use crate::tensor::flat_index;
use crate::tensor::idx_to_global;
use crate::tensor::lemma_coords_of_roundtrip;
use crate::tensor::shape_product;
use crate::tensor::Tensor;

verus! {

/// Two shapes broadcast together when they have the same rank and every
/// axis either agrees or holds a 1 on at least one side.
pub open spec fn broadcast_compatible(a: Seq<u32>, b: Seq<u32>) -> bool {
    &&& a.len() == b.len()
    &&& forall|i: int| 0 <= i < a.len() ==> a[i] == b[i] || a[i] == 1 || b[i] == 1
}

/// The shape produced by broadcasting: the axis-wise maximum.
pub open spec fn spec_broadcast_shape(a: Seq<u32>, b: Seq<u32>) -> Seq<u32> {
    Seq::new(a.len(), |i: int| if a[i] < b[i] {
        b[i]
    } else {
        a[i]
    })
}

/// Broadcast shape of two shapes, or `None` when the ranks differ or some
/// axis has unequal dimensions with neither equal to 1.
pub fn get_broadcast_shape(shape_a: &[u32], shape_b: &[u32]) -> (r: Option<Vec<u32>>)
    ensures
        r is Some <==> broadcast_compatible(shape_a@, shape_b@),
        r is Some ==> r.unwrap()@ == spec_broadcast_shape(shape_a@, shape_b@),
{
    if shape_a.len() != shape_b.len() {
        return None;
    }

    for i in 0..shape_a.len()
        invariant
            shape_a@.len() == shape_b@.len(),
            forall|j: int| 0 <= j < i ==> shape_a@[j] == shape_b@[j] || shape_a@[j] == 1
                || shape_b@[j] == 1,
    {
        if shape_a[i] != shape_b[i] && shape_a[i] != 1 && shape_b[i] != 1 {
            return None;
        }
    }

    let mut output_shape: Vec<u32> = Vec::with_capacity(shape_a.len());

    for i in 0..shape_a.len()
        invariant
            broadcast_compatible(shape_a@, shape_b@),
            output_shape@.len() == i,
            forall|j: int| 0 <= j < i ==> output_shape@[j] == spec_broadcast_shape(
                shape_a@,
                shape_b@,
            )[j],
    {
        if shape_a[i] < shape_b[i] {
            output_shape.push(shape_b[i]);
        } else {
            output_shape.push(shape_a[i]);
        }
    }

    proof {
        assert(output_shape@ =~= spec_broadcast_shape(shape_a@, shape_b@));
    }
    Some(output_shape)
}

/// Coordinates wrapped into a shape, axis by axis: a size-1 axis is
/// virtually repeated by reducing the coordinate modulo the size.
pub open spec fn wrap_coords(c: Seq<u32>, s: Seq<u32>) -> Seq<u32> {
    Seq::new(s.len(), |k: int| ((c[k] as nat) % (s[k] as nat)) as u32)
}

/// Index into a source tensor of shape `s` that feeds position `i` of the
/// broadcast result of shape `bshape`.
pub open spec fn broadcast_source(i: nat, bshape: Seq<u32>, s: Seq<u32>) -> nat {
    flat_index(wrap_coords(coords_of(i, bshape), s), s)
}

/// Wrapped coordinates stay inside a shape without zero axes.
proof fn lemma_wrap_coords_in_shape(c: Seq<u32>, s: Seq<u32>)
    requires
        c.len() == s.len(),
        forall|k: int| 0 <= k < s.len() ==> s[k] >= 1,
    ensures
        coords_in_shape(wrap_coords(c, s), s),
{
    assert forall|k: int| 0 <= k < s.len() implies wrap_coords(c, s)[k] < s[k] by {
        vstd::arithmetic::div_mod::lemma_mod_bound(c[k] as int, s[k] as int);
    }
}

/// The hypotheses shared by the broadcast operations: the shapes are
/// compatible, the result is small enough for 32-bit indexing, and — when
/// the result is nonempty — neither operand has a zero axis.
pub open spec fn broadcast_feasible(a: Seq<u32>, b: Seq<u32>) -> bool {
    broadcast_compatible(a, b) ==> {
        &&& shape_product(spec_broadcast_shape(a, b)) <= u32::MAX
        &&& shape_product(spec_broadcast_shape(a, b)) > 0 ==> forall|k: int|
            0 <= k < a.len() ==> a[k] >= 1 && b[k] >= 1
    }
}

impl<T: Default + Copy + core::ops::Add<Output = T>> Tensor<T> {
    /// Broadcast-adds another tensor: the result has the broadcast shape
    /// of the two operands, and each of its elements is the sum of the
    /// operand elements whose coordinates are the result coordinates
    /// wrapped into each operand's shape.  `None` when the shapes are not
    /// broadcast-compatible.
    pub fn tens_broadcast_add(&self, tens2: &Tensor<T>) -> (r: Option<Tensor<T>>)
        requires
            self.wf(),
            tens2.wf(),
            broadcast_feasible(self.shape_seq(), tens2.shape_seq()),
            broadcast_compatible(self.shape_seq(), tens2.shape_seq()) ==> forall|i: nat|
                i < shape_product(spec_broadcast_shape(self.shape_seq(), tens2.shape_seq()))
                    ==> #[trigger] self.data_seq()[broadcast_source(
                    i,
                    spec_broadcast_shape(self.shape_seq(), tens2.shape_seq()),
                    self.shape_seq(),
                ) as int].add_req(
                    tens2.data_seq()[broadcast_source(
                        i,
                        spec_broadcast_shape(self.shape_seq(), tens2.shape_seq()),
                        tens2.shape_seq(),
                    ) as int],
                ),
        ensures
            r is Some <==> broadcast_compatible(self.shape_seq(), tens2.shape_seq()),
            r is Some ==> {
                let t = r.unwrap();
                let bshape = spec_broadcast_shape(self.shape_seq(), tens2.shape_seq());
                &&& t.wf()
                &&& t.shape_seq() == bshape
                &&& t.data_seq().len() == shape_product(bshape)
                &&& T::obeys_add_spec() ==> forall|i: int|
                    0 <= i < t.data_seq().len() ==> #[trigger] t.data_seq()[i]
                        == self.data_seq()[broadcast_source(
                        i as nat,
                        bshape,
                        self.shape_seq(),
                    ) as int].add_spec(
                        tens2.data_seq()[broadcast_source(
                            i as nat,
                            bshape,
                            tens2.shape_seq(),
                        ) as int],
                    )
            },
    {
        let ghost ga = self.shape_seq();
        let ghost gb = tens2.shape_seq();
        let broadcast_test = get_broadcast_shape(
            self.get_shape().as_slice(),
            tens2.get_shape().as_slice(),
        );
        if broadcast_test.is_none() {
            return None;
        }

        let broadcast_shape = broadcast_test.unwrap();
        let ghost bshape = spec_broadcast_shape(ga, gb);
        let output_capacity: u32 = checked_shape_product(broadcast_shape.as_slice()).unwrap();

        let mut return_data: Vec<T> = Vec::with_capacity(output_capacity as usize);
        let mut i: u32 = 0;
        while i < output_capacity
            invariant
                self.wf(),
                tens2.wf(),
                ga == self.shape_seq(),
                gb == tens2.shape_seq(),
                broadcast_compatible(ga, gb),
                broadcast_feasible(ga, gb),
                bshape == spec_broadcast_shape(ga, gb),
                broadcast_shape@ == bshape,
                output_capacity == shape_product(bshape),
                forall|j: nat| j < shape_product(bshape) ==> #[trigger] self.data_seq()[broadcast_source(
                    j,
                    bshape,
                    ga,
                ) as int].add_req(tens2.data_seq()[broadcast_source(j, bshape, gb) as int]),
                0 <= i <= output_capacity,
                return_data@.len() == i,
                T::obeys_add_spec() ==> forall|j: int| 0 <= j < i ==> #[trigger] return_data@[j]
                    == self.data_seq()[broadcast_source(j as nat, bshape, ga) as int].add_spec(
                    tens2.data_seq()[broadcast_source(j as nat, bshape, gb) as int],
                ),
            decreases output_capacity - i,
        {
            proof {
                lemma_zero_free_axes(ga, gb);
                lemma_coords_of_roundtrip(i as nat, bshape);
            }
            let output_position = idx_to_global(i, broadcast_shape.as_slice());

            let self_position = wrap_position(output_position.as_slice(), self.get_shape());
            let tens2_position = wrap_position(output_position.as_slice(), tens2.get_shape());

            proof {
                lemma_wrap_coords_in_shape(coords_of(i as nat, bshape), ga);
                lemma_wrap_coords_in_shape(coords_of(i as nat, bshape), gb);
            }
            let va = *self.value(self_position.as_slice()).unwrap();
            let vb = *tens2.value(tens2_position.as_slice()).unwrap();
            proof {
                assert(broadcast_source(i as nat, bshape, ga) == flat_index(self_position@, ga));
                assert(broadcast_source(i as nat, bshape, gb) == flat_index(tens2_position@, gb));
                assert(self.data_seq()[broadcast_source(i as nat, bshape, ga) as int].add_req(
                    tens2.data_seq()[broadcast_source(i as nat, bshape, gb) as int],
                ));
            }
            return_data.push(va + vb);
            i += 1;
        }

        Tensor::from_data(return_data.as_slice(), broadcast_shape.as_slice())
    }

    /// Broadcast-adds another tensor in place, storing the broadcast
    /// result (data and shape); incompatible shapes leave the tensor
    /// unchanged.
    pub fn tens_broadcast_add_mut(&mut self, tens2: &Tensor<T>)
        requires
            old(self).wf(),
            tens2.wf(),
            broadcast_feasible(old(self).shape_seq(), tens2.shape_seq()),
            broadcast_compatible(old(self).shape_seq(), tens2.shape_seq()) ==> forall|i: nat|
                i < shape_product(
                    spec_broadcast_shape(old(self).shape_seq(), tens2.shape_seq()),
                ) ==> #[trigger] old(self).data_seq()[broadcast_source(
                    i,
                    spec_broadcast_shape(old(self).shape_seq(), tens2.shape_seq()),
                    old(self).shape_seq(),
                ) as int].add_req(
                    tens2.data_seq()[broadcast_source(
                        i,
                        spec_broadcast_shape(old(self).shape_seq(), tens2.shape_seq()),
                        tens2.shape_seq(),
                    ) as int],
                ),
        ensures
            final(self).wf(),
            !broadcast_compatible(old(self).shape_seq(), tens2.shape_seq()) ==> *final(self)
                == *old(self),
            broadcast_compatible(old(self).shape_seq(), tens2.shape_seq()) ==> {
                let bshape = spec_broadcast_shape(old(self).shape_seq(), tens2.shape_seq());
                &&& final(self).shape_seq() == bshape
                &&& final(self).data_seq().len() == shape_product(bshape)
                &&& T::obeys_add_spec() ==> forall|i: int|
                    0 <= i < final(self).data_seq().len() ==> #[trigger] final(self).data_seq()[i]
                        == old(self).data_seq()[broadcast_source(
                        i as nat,
                        bshape,
                        old(self).shape_seq(),
                    ) as int].add_spec(
                        tens2.data_seq()[broadcast_source(
                            i as nat,
                            bshape,
                            tens2.shape_seq(),
                        ) as int],
                    )
            },
    {
        let result = self.tens_broadcast_add(tens2);
        match result {
            None => {},
            Some(t) => {
                *self = t;
            },
        }
    }
}

impl<T: Default + Copy + core::ops::Sub<Output = T>> Tensor<T> {
    /// Broadcast-subtracts another tensor: the result has the broadcast shape
    /// of the two operands, and each of its elements combines the
    /// operand elements whose coordinates are the result coordinates
    /// wrapped into each operand's shape.  `None` when the shapes are not
    /// broadcast-compatible.
    pub fn tens_broadcast_sub(&self, tens2: &Tensor<T>) -> (r: Option<Tensor<T>>)
        requires
            self.wf(),
            tens2.wf(),
            broadcast_feasible(self.shape_seq(), tens2.shape_seq()),
            broadcast_compatible(self.shape_seq(), tens2.shape_seq()) ==> forall|i: nat|
                i < shape_product(spec_broadcast_shape(self.shape_seq(), tens2.shape_seq()))
                    ==> #[trigger] self.data_seq()[broadcast_source(
                    i,
                    spec_broadcast_shape(self.shape_seq(), tens2.shape_seq()),
                    self.shape_seq(),
                ) as int].sub_req(
                    tens2.data_seq()[broadcast_source(
                        i,
                        spec_broadcast_shape(self.shape_seq(), tens2.shape_seq()),
                        tens2.shape_seq(),
                    ) as int],
                ),
        ensures
            r is Some <==> broadcast_compatible(self.shape_seq(), tens2.shape_seq()),
            r is Some ==> {
                let t = r.unwrap();
                let bshape = spec_broadcast_shape(self.shape_seq(), tens2.shape_seq());
                &&& t.wf()
                &&& t.shape_seq() == bshape
                &&& t.data_seq().len() == shape_product(bshape)
                &&& T::obeys_sub_spec() ==> forall|i: int|
                    0 <= i < t.data_seq().len() ==> #[trigger] t.data_seq()[i]
                        == self.data_seq()[broadcast_source(
                        i as nat,
                        bshape,
                        self.shape_seq(),
                    ) as int].sub_spec(
                        tens2.data_seq()[broadcast_source(
                            i as nat,
                            bshape,
                            tens2.shape_seq(),
                        ) as int],
                    )
            },
    {
        let ghost ga = self.shape_seq();
        let ghost gb = tens2.shape_seq();
        let broadcast_test = get_broadcast_shape(
            self.get_shape().as_slice(),
            tens2.get_shape().as_slice(),
        );
        if broadcast_test.is_none() {
            return None;
        }

        let broadcast_shape = broadcast_test.unwrap();
        let ghost bshape = spec_broadcast_shape(ga, gb);
        let output_capacity: u32 = checked_shape_product(broadcast_shape.as_slice()).unwrap();

        let mut return_data: Vec<T> = Vec::with_capacity(output_capacity as usize);
        let mut i: u32 = 0;
        while i < output_capacity
            invariant
                self.wf(),
                tens2.wf(),
                ga == self.shape_seq(),
                gb == tens2.shape_seq(),
                broadcast_compatible(ga, gb),
                broadcast_feasible(ga, gb),
                bshape == spec_broadcast_shape(ga, gb),
                broadcast_shape@ == bshape,
                output_capacity == shape_product(bshape),
                forall|j: nat| j < shape_product(bshape) ==> #[trigger] self.data_seq()[broadcast_source(
                    j,
                    bshape,
                    ga,
                ) as int].sub_req(tens2.data_seq()[broadcast_source(j, bshape, gb) as int]),
                0 <= i <= output_capacity,
                return_data@.len() == i,
                T::obeys_sub_spec() ==> forall|j: int| 0 <= j < i ==> #[trigger] return_data@[j]
                    == self.data_seq()[broadcast_source(j as nat, bshape, ga) as int].sub_spec(
                    tens2.data_seq()[broadcast_source(j as nat, bshape, gb) as int],
                ),
            decreases output_capacity - i,
        {
            proof {
                lemma_zero_free_axes(ga, gb);
                lemma_coords_of_roundtrip(i as nat, bshape);
            }
            let output_position = idx_to_global(i, broadcast_shape.as_slice());

            let self_position = wrap_position(output_position.as_slice(), self.get_shape());
            let tens2_position = wrap_position(output_position.as_slice(), tens2.get_shape());

            proof {
                lemma_wrap_coords_in_shape(coords_of(i as nat, bshape), ga);
                lemma_wrap_coords_in_shape(coords_of(i as nat, bshape), gb);
            }
            let va = *self.value(self_position.as_slice()).unwrap();
            let vb = *tens2.value(tens2_position.as_slice()).unwrap();
            proof {
                assert(broadcast_source(i as nat, bshape, ga) == flat_index(self_position@, ga));
                assert(broadcast_source(i as nat, bshape, gb) == flat_index(tens2_position@, gb));
                assert(self.data_seq()[broadcast_source(i as nat, bshape, ga) as int].sub_req(
                    tens2.data_seq()[broadcast_source(i as nat, bshape, gb) as int],
                ));
            }
            return_data.push(va - vb);
            i += 1;
        }

        Tensor::from_data(return_data.as_slice(), broadcast_shape.as_slice())
    }

    /// Broadcast-subtracts another tensor in place, storing the broadcast
    /// result (data and shape); incompatible shapes leave the tensor
    /// unchanged.
    pub fn tens_broadcast_sub_mut(&mut self, tens2: &Tensor<T>)
        requires
            old(self).wf(),
            tens2.wf(),
            broadcast_feasible(old(self).shape_seq(), tens2.shape_seq()),
            broadcast_compatible(old(self).shape_seq(), tens2.shape_seq()) ==> forall|i: nat|
                i < shape_product(
                    spec_broadcast_shape(old(self).shape_seq(), tens2.shape_seq()),
                ) ==> #[trigger] old(self).data_seq()[broadcast_source(
                    i,
                    spec_broadcast_shape(old(self).shape_seq(), tens2.shape_seq()),
                    old(self).shape_seq(),
                ) as int].sub_req(
                    tens2.data_seq()[broadcast_source(
                        i,
                        spec_broadcast_shape(old(self).shape_seq(), tens2.shape_seq()),
                        tens2.shape_seq(),
                    ) as int],
                ),
        ensures
            final(self).wf(),
            !broadcast_compatible(old(self).shape_seq(), tens2.shape_seq()) ==> *final(self)
                == *old(self),
            broadcast_compatible(old(self).shape_seq(), tens2.shape_seq()) ==> {
                let bshape = spec_broadcast_shape(old(self).shape_seq(), tens2.shape_seq());
                &&& final(self).shape_seq() == bshape
                &&& final(self).data_seq().len() == shape_product(bshape)
                &&& T::obeys_sub_spec() ==> forall|i: int|
                    0 <= i < final(self).data_seq().len() ==> #[trigger] final(self).data_seq()[i]
                        == old(self).data_seq()[broadcast_source(
                        i as nat,
                        bshape,
                        old(self).shape_seq(),
                    ) as int].sub_spec(
                        tens2.data_seq()[broadcast_source(
                            i as nat,
                            bshape,
                            tens2.shape_seq(),
                        ) as int],
                    )
            },
    {
        let result = self.tens_broadcast_sub(tens2);
        match result {
            None => {},
            Some(t) => {
                *self = t;
            },
        }
    }
}

impl<T: Default + Copy + core::ops::Mul<Output = T>> Tensor<T> {
    /// Broadcast-multiplies with another tensor: the result has the broadcast shape
    /// of the two operands, and each of its elements combines the
    /// operand elements whose coordinates are the result coordinates
    /// wrapped into each operand's shape.  `None` when the shapes are not
    /// broadcast-compatible.
    pub fn tens_broadcast_mul(&self, tens2: &Tensor<T>) -> (r: Option<Tensor<T>>)
        requires
            self.wf(),
            tens2.wf(),
            broadcast_feasible(self.shape_seq(), tens2.shape_seq()),
            broadcast_compatible(self.shape_seq(), tens2.shape_seq()) ==> forall|i: nat|
                i < shape_product(spec_broadcast_shape(self.shape_seq(), tens2.shape_seq()))
                    ==> #[trigger] self.data_seq()[broadcast_source(
                    i,
                    spec_broadcast_shape(self.shape_seq(), tens2.shape_seq()),
                    self.shape_seq(),
                ) as int].mul_req(
                    tens2.data_seq()[broadcast_source(
                        i,
                        spec_broadcast_shape(self.shape_seq(), tens2.shape_seq()),
                        tens2.shape_seq(),
                    ) as int],
                ),
        ensures
            r is Some <==> broadcast_compatible(self.shape_seq(), tens2.shape_seq()),
            r is Some ==> {
                let t = r.unwrap();
                let bshape = spec_broadcast_shape(self.shape_seq(), tens2.shape_seq());
                &&& t.wf()
                &&& t.shape_seq() == bshape
                &&& t.data_seq().len() == shape_product(bshape)
                &&& T::obeys_mul_spec() ==> forall|i: int|
                    0 <= i < t.data_seq().len() ==> #[trigger] t.data_seq()[i]
                        == self.data_seq()[broadcast_source(
                        i as nat,
                        bshape,
                        self.shape_seq(),
                    ) as int].mul_spec(
                        tens2.data_seq()[broadcast_source(
                            i as nat,
                            bshape,
                            tens2.shape_seq(),
                        ) as int],
                    )
            },
    {
        let ghost ga = self.shape_seq();
        let ghost gb = tens2.shape_seq();
        let broadcast_test = get_broadcast_shape(
            self.get_shape().as_slice(),
            tens2.get_shape().as_slice(),
        );
        if broadcast_test.is_none() {
            return None;
        }

        let broadcast_shape = broadcast_test.unwrap();
        let ghost bshape = spec_broadcast_shape(ga, gb);
        let output_capacity: u32 = checked_shape_product(broadcast_shape.as_slice()).unwrap();

        let mut return_data: Vec<T> = Vec::with_capacity(output_capacity as usize);
        let mut i: u32 = 0;
        while i < output_capacity
            invariant
                self.wf(),
                tens2.wf(),
                ga == self.shape_seq(),
                gb == tens2.shape_seq(),
                broadcast_compatible(ga, gb),
                broadcast_feasible(ga, gb),
                bshape == spec_broadcast_shape(ga, gb),
                broadcast_shape@ == bshape,
                output_capacity == shape_product(bshape),
                forall|j: nat| j < shape_product(bshape) ==> #[trigger] self.data_seq()[broadcast_source(
                    j,
                    bshape,
                    ga,
                ) as int].mul_req(tens2.data_seq()[broadcast_source(j, bshape, gb) as int]),
                0 <= i <= output_capacity,
                return_data@.len() == i,
                T::obeys_mul_spec() ==> forall|j: int| 0 <= j < i ==> #[trigger] return_data@[j]
                    == self.data_seq()[broadcast_source(j as nat, bshape, ga) as int].mul_spec(
                    tens2.data_seq()[broadcast_source(j as nat, bshape, gb) as int],
                ),
            decreases output_capacity - i,
        {
            proof {
                lemma_zero_free_axes(ga, gb);
                lemma_coords_of_roundtrip(i as nat, bshape);
            }
            let output_position = idx_to_global(i, broadcast_shape.as_slice());

            let self_position = wrap_position(output_position.as_slice(), self.get_shape());
            let tens2_position = wrap_position(output_position.as_slice(), tens2.get_shape());

            proof {
                lemma_wrap_coords_in_shape(coords_of(i as nat, bshape), ga);
                lemma_wrap_coords_in_shape(coords_of(i as nat, bshape), gb);
            }
            let va = *self.value(self_position.as_slice()).unwrap();
            let vb = *tens2.value(tens2_position.as_slice()).unwrap();
            proof {
                assert(broadcast_source(i as nat, bshape, ga) == flat_index(self_position@, ga));
                assert(broadcast_source(i as nat, bshape, gb) == flat_index(tens2_position@, gb));
                assert(self.data_seq()[broadcast_source(i as nat, bshape, ga) as int].mul_req(
                    tens2.data_seq()[broadcast_source(i as nat, bshape, gb) as int],
                ));
            }
            return_data.push(va * vb);
            i += 1;
        }

        Tensor::from_data(return_data.as_slice(), broadcast_shape.as_slice())
    }

    /// Broadcast-multiplies with another tensor in place, storing the broadcast
    /// result (data and shape); incompatible shapes leave the tensor
    /// unchanged.
    pub fn tens_broadcast_mul_mut(&mut self, tens2: &Tensor<T>)
        requires
            old(self).wf(),
            tens2.wf(),
            broadcast_feasible(old(self).shape_seq(), tens2.shape_seq()),
            broadcast_compatible(old(self).shape_seq(), tens2.shape_seq()) ==> forall|i: nat|
                i < shape_product(
                    spec_broadcast_shape(old(self).shape_seq(), tens2.shape_seq()),
                ) ==> #[trigger] old(self).data_seq()[broadcast_source(
                    i,
                    spec_broadcast_shape(old(self).shape_seq(), tens2.shape_seq()),
                    old(self).shape_seq(),
                ) as int].mul_req(
                    tens2.data_seq()[broadcast_source(
                        i,
                        spec_broadcast_shape(old(self).shape_seq(), tens2.shape_seq()),
                        tens2.shape_seq(),
                    ) as int],
                ),
        ensures
            final(self).wf(),
            !broadcast_compatible(old(self).shape_seq(), tens2.shape_seq()) ==> *final(self)
                == *old(self),
            broadcast_compatible(old(self).shape_seq(), tens2.shape_seq()) ==> {
                let bshape = spec_broadcast_shape(old(self).shape_seq(), tens2.shape_seq());
                &&& final(self).shape_seq() == bshape
                &&& final(self).data_seq().len() == shape_product(bshape)
                &&& T::obeys_mul_spec() ==> forall|i: int|
                    0 <= i < final(self).data_seq().len() ==> #[trigger] final(self).data_seq()[i]
                        == old(self).data_seq()[broadcast_source(
                        i as nat,
                        bshape,
                        old(self).shape_seq(),
                    ) as int].mul_spec(
                        tens2.data_seq()[broadcast_source(
                            i as nat,
                            bshape,
                            tens2.shape_seq(),
                        ) as int],
                    )
            },
    {
        let result = self.tens_broadcast_mul(tens2);
        match result {
            None => {},
            Some(t) => {
                *self = t;
            },
        }
    }
}

impl<T: Default + Copy + core::ops::Div<Output = T>> Tensor<T> {
    /// Broadcast-divides by another tensor: the result has the broadcast shape
    /// of the two operands, and each of its elements combines the
    /// operand elements whose coordinates are the result coordinates
    /// wrapped into each operand's shape.  `None` when the shapes are not
    /// broadcast-compatible.
    pub fn tens_broadcast_div(&self, tens2: &Tensor<T>) -> (r: Option<Tensor<T>>)
        requires
            self.wf(),
            tens2.wf(),
            broadcast_feasible(self.shape_seq(), tens2.shape_seq()),
            broadcast_compatible(self.shape_seq(), tens2.shape_seq()) ==> forall|i: nat|
                i < shape_product(spec_broadcast_shape(self.shape_seq(), tens2.shape_seq()))
                    ==> #[trigger] self.data_seq()[broadcast_source(
                    i,
                    spec_broadcast_shape(self.shape_seq(), tens2.shape_seq()),
                    self.shape_seq(),
                ) as int].div_req(
                    tens2.data_seq()[broadcast_source(
                        i,
                        spec_broadcast_shape(self.shape_seq(), tens2.shape_seq()),
                        tens2.shape_seq(),
                    ) as int],
                ),
        ensures
            r is Some <==> broadcast_compatible(self.shape_seq(), tens2.shape_seq()),
            r is Some ==> {
                let t = r.unwrap();
                let bshape = spec_broadcast_shape(self.shape_seq(), tens2.shape_seq());
                &&& t.wf()
                &&& t.shape_seq() == bshape
                &&& t.data_seq().len() == shape_product(bshape)
                &&& T::obeys_div_spec() ==> forall|i: int|
                    0 <= i < t.data_seq().len() ==> #[trigger] t.data_seq()[i]
                        == self.data_seq()[broadcast_source(
                        i as nat,
                        bshape,
                        self.shape_seq(),
                    ) as int].div_spec(
                        tens2.data_seq()[broadcast_source(
                            i as nat,
                            bshape,
                            tens2.shape_seq(),
                        ) as int],
                    )
            },
    {
        let ghost ga = self.shape_seq();
        let ghost gb = tens2.shape_seq();
        let broadcast_test = get_broadcast_shape(
            self.get_shape().as_slice(),
            tens2.get_shape().as_slice(),
        );
        if broadcast_test.is_none() {
            return None;
        }

        let broadcast_shape = broadcast_test.unwrap();
        let ghost bshape = spec_broadcast_shape(ga, gb);
        let output_capacity: u32 = checked_shape_product(broadcast_shape.as_slice()).unwrap();

        let mut return_data: Vec<T> = Vec::with_capacity(output_capacity as usize);
        let mut i: u32 = 0;
        while i < output_capacity
            invariant
                self.wf(),
                tens2.wf(),
                ga == self.shape_seq(),
                gb == tens2.shape_seq(),
                broadcast_compatible(ga, gb),
                broadcast_feasible(ga, gb),
                bshape == spec_broadcast_shape(ga, gb),
                broadcast_shape@ == bshape,
                output_capacity == shape_product(bshape),
                forall|j: nat| j < shape_product(bshape) ==> #[trigger] self.data_seq()[broadcast_source(
                    j,
                    bshape,
                    ga,
                ) as int].div_req(tens2.data_seq()[broadcast_source(j, bshape, gb) as int]),
                0 <= i <= output_capacity,
                return_data@.len() == i,
                T::obeys_div_spec() ==> forall|j: int| 0 <= j < i ==> #[trigger] return_data@[j]
                    == self.data_seq()[broadcast_source(j as nat, bshape, ga) as int].div_spec(
                    tens2.data_seq()[broadcast_source(j as nat, bshape, gb) as int],
                ),
            decreases output_capacity - i,
        {
            proof {
                lemma_zero_free_axes(ga, gb);
                lemma_coords_of_roundtrip(i as nat, bshape);
            }
            let output_position = idx_to_global(i, broadcast_shape.as_slice());

            let self_position = wrap_position(output_position.as_slice(), self.get_shape());
            let tens2_position = wrap_position(output_position.as_slice(), tens2.get_shape());

            proof {
                lemma_wrap_coords_in_shape(coords_of(i as nat, bshape), ga);
                lemma_wrap_coords_in_shape(coords_of(i as nat, bshape), gb);
            }
            let va = *self.value(self_position.as_slice()).unwrap();
            let vb = *tens2.value(tens2_position.as_slice()).unwrap();
            proof {
                assert(broadcast_source(i as nat, bshape, ga) == flat_index(self_position@, ga));
                assert(broadcast_source(i as nat, bshape, gb) == flat_index(tens2_position@, gb));
                assert(self.data_seq()[broadcast_source(i as nat, bshape, ga) as int].div_req(
                    tens2.data_seq()[broadcast_source(i as nat, bshape, gb) as int],
                ));
            }
            return_data.push(va / vb);
            i += 1;
        }

        Tensor::from_data(return_data.as_slice(), broadcast_shape.as_slice())
    }

    /// Broadcast-divides by another tensor in place, storing the broadcast
    /// result (data and shape); incompatible shapes leave the tensor
    /// unchanged.
    pub fn tens_broadcast_div_mut(&mut self, tens2: &Tensor<T>)
        requires
            old(self).wf(),
            tens2.wf(),
            broadcast_feasible(old(self).shape_seq(), tens2.shape_seq()),
            broadcast_compatible(old(self).shape_seq(), tens2.shape_seq()) ==> forall|i: nat|
                i < shape_product(
                    spec_broadcast_shape(old(self).shape_seq(), tens2.shape_seq()),
                ) ==> #[trigger] old(self).data_seq()[broadcast_source(
                    i,
                    spec_broadcast_shape(old(self).shape_seq(), tens2.shape_seq()),
                    old(self).shape_seq(),
                ) as int].div_req(
                    tens2.data_seq()[broadcast_source(
                        i,
                        spec_broadcast_shape(old(self).shape_seq(), tens2.shape_seq()),
                        tens2.shape_seq(),
                    ) as int],
                ),
        ensures
            final(self).wf(),
            !broadcast_compatible(old(self).shape_seq(), tens2.shape_seq()) ==> *final(self)
                == *old(self),
            broadcast_compatible(old(self).shape_seq(), tens2.shape_seq()) ==> {
                let bshape = spec_broadcast_shape(old(self).shape_seq(), tens2.shape_seq());
                &&& final(self).shape_seq() == bshape
                &&& final(self).data_seq().len() == shape_product(bshape)
                &&& T::obeys_div_spec() ==> forall|i: int|
                    0 <= i < final(self).data_seq().len() ==> #[trigger] final(self).data_seq()[i]
                        == old(self).data_seq()[broadcast_source(
                        i as nat,
                        bshape,
                        old(self).shape_seq(),
                    ) as int].div_spec(
                        tens2.data_seq()[broadcast_source(
                            i as nat,
                            bshape,
                            tens2.shape_seq(),
                        ) as int],
                    )
            },
    {
        let result = self.tens_broadcast_div(tens2);
        match result {
            None => {},
            Some(t) => {
                *self = t;
            },
        }
    }
}

/// When the broadcast result is nonempty, both operand shapes are free of
/// zero axes.
proof fn lemma_zero_free_axes(a: Seq<u32>, b: Seq<u32>)
    requires
        broadcast_compatible(a, b),
        broadcast_feasible(a, b),
        shape_product(spec_broadcast_shape(a, b)) > 0,
    ensures
        forall|k: int| 0 <= k < a.len() ==> a[k] >= 1,
        forall|k: int| 0 <= k < b.len() ==> b[k] >= 1,
        forall|k: int| 0 <= k < spec_broadcast_shape(a, b).len() ==> spec_broadcast_shape(
            a,
            b,
        )[k] >= 1,
{
}

/// Wraps result coordinates into a source tensor's shape, axis by axis.
fn wrap_position(c: &[u32], s: &Vec<u32>) -> (r: Vec<u32>)
    requires
        c@.len() == s@.len(),
        forall|k: int| 0 <= k < s@.len() ==> s@[k] >= 1,
    ensures
        r@ == wrap_coords(c@, s@),
{
    let mut r: Vec<u32> = Vec::with_capacity(s.len());
    let mut k: usize = 0;
    while k < s.len()
        invariant
            0 <= k <= s@.len(),
            c@.len() == s@.len(),
            forall|j: int| 0 <= j < s@.len() ==> s@[j] >= 1,
            r@.len() == k,
            forall|j: int| 0 <= j < k ==> r@[j] == wrap_coords(c@, s@)[j],
        decreases s@.len() - k,
    {
        r.push(c[k] % s[k]);
        k += 1;
    }
    proof {
        assert(r@ =~= wrap_coords(c@, s@));
    }
    r
}

} // verus!

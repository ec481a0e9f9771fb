//! Batch inversion of field elements: one inversion for a whole vector.
use vstd::prelude::*;
use crate::scalar::{Scalar, mul_f, inv_f};

verus! {

/// Replaces every element of the vector with its multiplicative inverse,
/// using a single field inversion. Every element must be nonzero.
pub fn batch_inverse(elements: &mut Vec<Scalar>)
    requires
        forall|i: int| 0 <= i < old(elements)@.len() ==> (#[trigger] old(elements)@[i]).wf(),
        forall|i: int| 0 <= i < old(elements)@.len() ==> (#[trigger] old(elements)@[i]).val() != 0,
    ensures
        final(elements)@.len() == old(elements)@.len(),
        forall|i: int| 0 <= i < final(elements)@.len() ==> (#[trigger] final(elements)@[i]).wf(),
        forall|i: int|
            0 <= i < final(elements)@.len() ==> mul_f(
                (#[trigger] final(elements)@[i]).val(),
                old(elements)@[i].val(),
            ) == 1,
        forall|i: int|
            0 <= i < final(elements)@.len() ==> (#[trigger] final(elements)@[i]).val() == inv_f(
                old(elements)@[i].val(),
            ),
{
    batch_inversion(elements)
}

fn batch_inversion(v: &mut Vec<Scalar>)
    requires
        forall|i: int| 0 <= i < old(v)@.len() ==> (#[trigger] old(v)@[i]).wf(),
        forall|i: int| 0 <= i < old(v)@.len() ==> (#[trigger] old(v)@[i]).val() != 0,
    ensures
        final(v)@.len() == old(v)@.len(),
        forall|i: int| 0 <= i < final(v)@.len() ==> (#[trigger] final(v)@[i]).wf(),
        forall|i: int|
            0 <= i < final(v)@.len() ==> mul_f((#[trigger] final(v)@[i]).val(), old(v)@[i].val())
                == 1,
        forall|i: int|
            0 <= i < final(v)@.len() ==> (#[trigger] final(v)@[i]).val() == inv_f(
                old(v)@[i].val(),
            ),
{
    crate::utils::serial_batch_inversion(v)
}

} // verus!

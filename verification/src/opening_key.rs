//! The opening key: the setup elements a verifier needs, and the pairing
//! equation that checks an opening proof.
use vstd::prelude::*;
use crate::scalar::Scalar;
use crate::points::{
    G1Point, G2Point, g1_sub_s, g1_mul_s, g2_sub_s, g2_mul_s, g2_neg_s, pairing_check_s, g1_sub,
    g1_mul, g2_sub, g2_mul, g2_neg, pairing_identity_check,
};

verus! {

/// The key that verifies opening proofs about a committed polynomial: the two
/// group generators of the setup and the secret times the second generator.
#[derive(Clone, Debug)]
pub struct OpeningKey {
    /// The generator of the first group used in the setup.
    pub g1_gen: G1Point,
    /// The generator of the second group used in the setup.
    pub g2_gen: G2Point,
    /// The setup secret times the generator of the second group.
    pub tau_g2_gen: G2Point,
}

impl OpeningKey {
    /// A well-formed key holds canonical points.
    pub open spec fn wf(&self) -> bool {
        self.g1_gen.wf() && self.g2_gen.wf() && self.tau_g2_gen.wf()
    }

    /// Bundles the setup elements of a verifier.
    pub fn new(g1_gen: G1Point, g2_gen: G2Point, tau_g2_gen: G2Point) -> (r: OpeningKey)
        ensures
            r.g1_gen == g1_gen,
            r.g2_gen == g2_gen,
            r.tau_g2_gen == tau_g2_gen,
    {
        OpeningKey { g1_gen, g2_gen, tau_g2_gen }
    }

    /// Checks that a polynomial committed to by `poly_comm` evaluates at the
    /// point `input_point` to the value `output_point`, against the witness
    /// commitment: the pairing identity
    /// `e(C - y*G1, G2) * e(W, -(tau*G2 - z*G2)) == 1`, computed as one
    /// combined multi-pairing.
    pub fn verify(
        &self,
        input_point: Scalar,
        output_point: Scalar,
        poly_comm: G1Point,
        witness_comm: G1Point,
    ) -> (r: bool)
        requires
            self.wf(),
            input_point.wf(),
            output_point.wf(),
            poly_comm.wf(),
            witness_comm.wf(),
        ensures
            r == pairing_check_s(
                g1_sub_s(poly_comm@, g1_mul_s(self.g1_gen@, output_point.val())),
                self.g2_gen@,
                witness_comm@,
                g2_neg_s(g2_sub_s(self.tau_g2_gen@, g2_mul_s(self.g2_gen@, input_point.val()))),
            ),
    {
        let inner_a = g1_sub(&poly_comm, &g1_mul(&self.g1_gen, &output_point));
        let inner_b = g2_sub(&self.tau_g2_gen, &g2_mul(&self.g2_gen, &input_point));
        let neg_inner_b = g2_neg(&inner_b);
        pairing_identity_check(&inner_a, &self.g2_gen, &witness_comm, &neg_inner_b)
    }
}

} // verus!

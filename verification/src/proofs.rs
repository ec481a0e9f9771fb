//! Opening proofs: creation from a polynomial and a point, and verification
//! against an opening key.
use vstd::prelude::*;
use crate::scalar::Scalar;
use crate::points::{
    G1Point, pviews, g1_msm_s, g1_sub_s, g1_mul_s, g2_sub_s, g2_mul_s, g2_neg_s, pairing_check_s,
};
use crate::domain::Domain;
use crate::polynomial::{Polynomial, eval_at};
use crate::commit_key::CommitKeyLagrange;
use crate::opening_key::OpeningKey;
use crate::utils::{self, vals, quotient_vals};

verus! {

/// An opening proof: the commitment to the polynomial, the commitment to the
/// quotient (the witness), and the claimed value at the query point. The
/// query point itself is supplied again at verification.
pub struct Proof {
    /// Commitment to the polynomial the proof speaks of.
    pub polynomial_commitment: G1Point,
    /// Commitment to the witness, the quotient polynomial.
    pub quotient_commitment: G1Point,
    /// The claimed value of the polynomial at the query point.
    pub output_point: Scalar,
}

impl Proof {
    /// A well-formed proof holds canonical points and a canonical value.
    pub open spec fn wf(&self) -> bool {
        self.polynomial_commitment.wf() && self.quotient_commitment.wf() && self.output_point.wf()
    }

    /// Creates a proof that the polynomial evaluates at `input_point` to the
    /// value the proof carries: it evaluates, computes the quotient, and
    /// commits to the quotient under the Lagrange-form key.
    pub fn create(
        commit_key: &CommitKeyLagrange,
        poly: &Polynomial,
        poly_comm: G1Point,
        input_point: Scalar,
        domain: &Domain,
    ) -> (r: Proof)
        requires
            commit_key.wf(),
            poly.wf(),
            poly_comm.wf(),
            input_point.wf(),
            domain.wf(),
            poly.evaluations@.len() == domain.roots@.len(),
            commit_key.points@.len() == domain.roots@.len(),
        ensures
            r.wf(),
            r.polynomial_commitment == poly_comm,
            r.output_point.val() == eval_at(
                vals(poly.evaluations@),
                vals(domain.roots@),
                input_point.val(),
                domain.domain_size_inv.val(),
            ),
            r.quotient_commitment@ == g1_msm_s(
                pviews(commit_key.points@),
                quotient_vals(
                    vals(poly.evaluations@),
                    vals(domain.roots@),
                    input_point.val(),
                    r.output_point.val(),
                ),
            ),
    {
        let output_point = poly.evaluate(input_point, domain);
        let quotient = utils::compute(poly, input_point, output_point, domain);
        let quotient_commitment = commit_key.commit(&quotient);
        Proof { polynomial_commitment: poly_comm, quotient_commitment, output_point }
    }

    /// Verifies the proof at the query point: the opening key's pairing
    /// identity on the stored commitments and value.
    pub fn verify(&self, input_point: Scalar, opening_key: &OpeningKey) -> (r: bool)
        requires
            self.wf(),
            input_point.wf(),
            opening_key.wf(),
        ensures
            r == pairing_check_s(
                g1_sub_s(
                    self.polynomial_commitment@,
                    g1_mul_s(opening_key.g1_gen@, self.output_point.val()),
                ),
                opening_key.g2_gen@,
                self.quotient_commitment@,
                g2_neg_s(
                    g2_sub_s(
                        opening_key.tau_g2_gen@,
                        g2_mul_s(opening_key.g2_gen@, input_point.val()),
                    ),
                ),
            ),
    {
        opening_key.verify(
            input_point,
            self.output_point,
            self.polynomial_commitment,
            self.quotient_commitment,
        )
    }
}

} // verus!

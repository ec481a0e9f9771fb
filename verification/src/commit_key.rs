//! The commitment key: the structured reference string on the first group, in
//! monomial (powers-of-tau) and in Lagrange form, and the commitment itself.
use vstd::prelude::*;
use crate::points::{G1Point, pviews, g1_msm_s, g1_msm};
use crate::domain::{Domain, ifft_g1_s};
use crate::polynomial::Polynomial;
use crate::utils::vals;

verus! {

/// The reference string in monomial basis: the powers of the secret times the
/// group generator.
pub struct CommitKey {
    /// The points of the reference string, in power order.
    pub points: Vec<G1Point>,
}

/// The reference string transformed to Lagrange basis over a domain, so that
/// an evaluation-form polynomial commits without a forward transform.
pub struct CommitKeyLagrange {
    /// The Lagrange-basis points of the reference string, in root order.
    pub points: Vec<G1Point>,
}

impl CommitKey {
    /// A well-formed key holds canonical points.
    pub open spec fn wf(&self) -> bool {
        forall|i: int| 0 <= i < self.points@.len() ==> (#[trigger] self.points@[i]).wf()
    }

    /// Wraps a reference string given in monomial basis.
    pub fn new(points: Vec<G1Point>) -> (r: CommitKey)
        ensures
            r.points@ == points@,
    {
        CommitKey { points }
    }

    /// Converts the key to Lagrange basis over the domain, through the
    /// inverse transform on the first group.
    pub fn into_lagrange(self, domain: &Domain) -> (r: CommitKeyLagrange)
        requires
            self.wf(),
            domain.wf(),
            self.points@.len() == domain.roots@.len(),
        ensures
            r.wf(),
            r.points@.len() == self.points@.len(),
            pviews(r.points@) == ifft_g1_s(
                domain.generator_inv.val(),
                domain.domain_size_inv.val(),
                pviews(self.points@),
            ),
    {
        CommitKeyLagrange { points: domain.ifft_g1(self.points) }
    }
}

impl CommitKeyLagrange {
    /// A well-formed key holds canonical points.
    pub open spec fn wf(&self) -> bool {
        forall|i: int| 0 <= i < self.points@.len() ==> (#[trigger] self.points@[i]).wf()
    }

    /// Commits to an evaluation-form polynomial: the multi-scalar
    /// multiplication of its evaluations against the Lagrange-basis points.
    pub fn commit(&self, poly: &Polynomial) -> (r: G1Point)
        requires
            self.wf(),
            poly.wf(),
            poly.evaluations@.len() == self.points@.len(),
            self.points@.len() >= 1,
        ensures
            r.wf(),
            r@ == g1_msm_s(pviews(self.points@), vals(poly.evaluations@)),
    {
        g1_msm(&self.points, &poly.evaluations)
    }
}

} // verus!

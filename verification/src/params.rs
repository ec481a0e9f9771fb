//! Public parameters: a toy structured reference string built from a known
//! secret. Only for tests — a known secret breaks the scheme's soundness, so
//! production setups must come from a multi-party ceremony of the same shape.
use vstd::prelude::*;
use crate::scalar::{Scalar, pow_f, scalar_pow};
use crate::points::{
    G1Point, pviews, g1_mul_s, g2_mul_s, g1_generator, g2_generator, g1_mul, g2_mul,
};
use crate::domain::{Domain, ifft_g1_s};
use crate::commit_key::{CommitKey, CommitKeyLagrange};
use crate::opening_key::OpeningKey;

verus! {

/// The powers of the secret against a fixed generator encoding: the reference
/// string in monomial basis.
pub open spec fn powers_of_tau(g: Seq<u8>, tau: int, n: int) -> Seq<Seq<u8>> {
    Seq::new(n as nat, |i: int| g1_mul_s(g, pow_f(tau, i as nat)))
}

/// The reference string in Lagrange form together with the opening key.
pub struct PublicParameters {
    /// The commitment key, already in Lagrange form over the domain it was
    /// built for, so that committing needs no forward transform.
    pub commit_key: CommitKeyLagrange,
    /// The key a verifier needs.
    pub opening_key: OpeningKey,
}

impl PublicParameters {
    /// Builds a reference string directly from a known secret scalar. The
    /// commitment key is the powers of the secret against the first
    /// generator, transformed to Lagrange form over the domain; the opening
    /// key carries the generators and the secret times the second generator.
    pub fn from_secret_insecure(tau: u64, domain: &Domain) -> (r: PublicParameters)
        requires
            domain.wf(),
        ensures
            r.commit_key.wf(),
            r.opening_key.wf(),
            r.commit_key.points@.len() == domain.roots@.len(),
            r.opening_key.tau_g2_gen@ == g2_mul_s(r.opening_key.g2_gen@, tau as int),
            pviews(r.commit_key.points@) == ifft_g1_s(
                domain.generator_inv.val(),
                domain.domain_size_inv.val(),
                powers_of_tau(r.opening_key.g1_gen@, tau as int, domain.roots@.len() as int),
            ),
    {
        let n = domain.size();
        let tau_fr = Scalar::from_u64(tau);
        let g1_gen = g1_generator();
        let g2_gen = g2_generator();
        let tau_g2_gen = g2_mul(&g2_gen, &tau_fr);

        let mut powers_of_tau_g1: Vec<G1Point> = Vec::new();
        let mut index: usize = 0;
        while index < n
            invariant
                index <= n,
                n == domain.roots@.len(),
                n <= 0x100000000,
                tau_fr.wf(),
                tau_fr.val() == tau,
                g1_gen.wf(),
                powers_of_tau_g1@.len() == index,
                forall|j: int| 0 <= j < index ==> (#[trigger] powers_of_tau_g1@[j]).wf(),
                forall|j: int|
                    0 <= j < index ==> (#[trigger] powers_of_tau_g1@[j])@ == g1_mul_s(
                        g1_gen@,
                        pow_f(tau as int, j as nat),
                    ),
            decreases n - index,
        {
            let secret_exp = scalar_pow(&tau_fr, index as u64);
            powers_of_tau_g1.push(g1_mul(&g1_gen, &secret_exp));
            index += 1;
        }
        proof {
            assert(pviews(powers_of_tau_g1@) =~= powers_of_tau(
                g1_gen@,
                tau as int,
                domain.roots@.len() as int,
            ));
        }

        let commit_key = CommitKey::new(powers_of_tau_g1).into_lagrange(&domain);
        let opening_key = OpeningKey::new(g1_gen, g2_gen, tau_g2_gen);
        PublicParameters { commit_key, opening_key }
    }
}

} // verus!

//! Polynomials in evaluation form: one field value per domain root, with
//! evaluation at arbitrary points through the barycentric formula.
use vstd::prelude::*;
use crate::scalar::{
    Scalar, mul_f, add_f, sub_f, inv_f, pow_f, lemma_sub_f_zero, scalar_mul, scalar_sub,
    scalar_pow,
};
use crate::domain::{Domain, is_pow_two, lemma_roots_distinct};
use crate::utils::{vals, serial_batch_inversion};

verus! {

/// Whether a field value sits among the given root values.
pub open spec fn in_domain(z: int, roots: Seq<int>) -> bool {
    exists|i: int| 0 <= i < roots.len() && roots[i] == z
}

/// The index of a field value among the given root values. Meaningful only
/// where the value sits in the domain and the roots are distinct.
pub open spec fn domain_index_of(z: int, roots: Seq<int>) -> int {
    choose|i: int| 0 <= i < roots.len() && roots[i] == z
}

/// What evaluation returns: the stored evaluation where the point is a domain
/// root, and the barycentric interpolation elsewhere.
pub open spec fn eval_at(evals: Seq<int>, roots: Seq<int>, z: int, n_inv: int) -> int {
    if in_domain(z, roots) {
        evals[domain_index_of(z, roots)]
    } else {
        barycentric_eval(evals, roots, z, n_inv)
    }
}

/// The running barycentric sum over the first `k` indices: each term is the
/// stored evaluation times its root, divided by the distance from the point.
pub open spec fn bary_sum(evals: Seq<int>, roots: Seq<int>, z: int, k: int) -> int
    decreases k,
{
    if k <= 0 {
        0
    } else {
        add_f(
            bary_sum(evals, roots, z, k - 1),
            mul_f(mul_f(evals[k - 1], roots[k - 1]), inv_f(sub_f(z, roots[k - 1]))),
        )
    }
}

/// The barycentric evaluation of an evaluation-form polynomial at a point
/// outside the domain: the weighted sum, scaled by the vanishing polynomial's
/// value at the point and by the inverse domain size.
pub open spec fn barycentric_eval(evals: Seq<int>, roots: Seq<int>, z: int, n_inv: int) -> int {
    mul_f(
        mul_f(bary_sum(evals, roots, z, evals.len() as int), sub_f(pow_f(z, evals.len()), 1)),
        n_inv,
    )
}

/// A polynomial held by its values at every root of a power-of-two domain,
/// in the domain's root order. The domain itself is kept outside.
#[derive(Clone, Debug)]
pub struct Polynomial {
    /// The value of the polynomial at each domain root, in root order.
    pub evaluations: Vec<Scalar>,
}

impl PartialEq for Polynomial {
    /// Two polynomials are equal when they hold the same field values.
    fn eq(&self, other: &Polynomial) -> (r: bool) {
        if self.evaluations.len() != other.evaluations.len() {
            return false;
        }
        let n = self.evaluations.len();
        let mut i: usize = 0;
        while i < n
            invariant
                i <= n,
                n == self.evaluations@.len(),
                n == other.evaluations@.len(),
                forall|j: int|
                    0 <= j < i ==> (#[trigger] self.evaluations@[j]).val()
                        == other.evaluations@[j].val(),
            decreases n - i,
        {
            if !self.evaluations[i].eq_value(&other.evaluations[i]) {
                return false;
            }
            i += 1;
        }
        true
    }
}

impl vstd::std_specs::cmp::PartialEqSpecImpl for Polynomial {
    open spec fn obeys_eq_spec() -> bool {
        true
    }

    open spec fn eq_spec(&self, other: &Polynomial) -> bool {
        self.evaluations@.len() == other.evaluations@.len() && forall|i: int|
            0 <= i < self.evaluations@.len() ==> (#[trigger] self.evaluations@[i]).val()
                == other.evaluations@[i].val()
    }
}

impl Polynomial {
    /// A well-formed polynomial has a power-of-two number of evaluations,
    /// each one a canonical field element.
    pub open spec fn wf(&self) -> bool {
        &&& is_pow_two(self.evaluations@.len() as int)
        &&& forall|i: int| 0 <= i < self.evaluations@.len() ==> (#[trigger] self.evaluations@[i]).wf()
    }

    /// Wraps an evaluation vector. The number of evaluations must be a power
    /// of two; in particular it may not be zero.
    pub fn new(evaluations: Vec<Scalar>) -> (r: Polynomial)
        requires
            is_pow_two(evaluations@.len() as int),
            forall|i: int| 0 <= i < evaluations@.len() ==> (#[trigger] evaluations@[i]).wf(),
        ensures
            r.wf(),
            r.evaluations@ == evaluations@,
    {
        Polynomial { evaluations }
    }

    /// Evaluates the polynomial at `z` over the given domain. At a domain
    /// root the stored evaluation is returned directly; elsewhere the
    /// barycentric formula interpolates.
    pub fn evaluate(&self, z: Scalar, domain: &Domain) -> (r: Scalar)
        requires
            self.wf(),
            domain.wf(),
            z.wf(),
            self.evaluations@.len() == domain.roots@.len(),
        ensures
            r.wf(),
            forall|i: int|
                0 <= i < domain.roots@.len() && (#[trigger] domain.roots@[i]).val() == z.val()
                    ==> r.val() == self.evaluations@[i].val(),
            !in_domain(z.val(), vals(domain.roots@)) ==> r.val() == barycentric_eval(
                vals(self.evaluations@),
                vals(domain.roots@),
                z.val(),
                domain.domain_size_inv.val(),
            ),
            r.val() == eval_at(
                vals(self.evaluations@),
                vals(domain.roots@),
                z.val(),
                domain.domain_size_inv.val(),
            ),
    {
        match domain.find(&z) {
            Some(index_in_domain) => {
                proof {
                    lemma_roots_distinct(*domain);
                    let rv = vals(domain.roots@);
                    assert(forall|i: int|
                        0 <= i < domain.roots@.len() ==> rv[i] == (
                        #[trigger] domain.roots@[i]).val());
                    assert(rv[index_in_domain as int] == z.val());
                    assert(in_domain(z.val(), rv));
                    let j0 = domain_index_of(z.val(), rv);
                    assert(0 <= j0 < rv.len() && rv[j0] == z.val());
                    assert(j0 == index_in_domain as int);
                }
                self.evaluations[index_in_domain]
            },
            None => {
                proof {
                    assert(!in_domain(z.val(), vals(domain.roots@))) by {
                        assert(forall|i: int|
                            0 <= i < domain.roots@.len() ==> vals(domain.roots@)[i]
                                == (#[trigger] domain.roots@[i]).val());
                    }
                }
                self.evaluate_outside_of_domain(z, domain)
            },
        }
    }

    /// The barycentric formula for a point that is no domain root: the sum of
    /// `evaluations[i] * root_i / (z - root_i)`, scaled by `(z^n - 1) / n`.
    fn evaluate_outside_of_domain(&self, z: Scalar, domain: &Domain) -> (r: Scalar)
        requires
            self.wf(),
            domain.wf(),
            z.wf(),
            self.evaluations@.len() == domain.roots@.len(),
            forall|i: int|
                0 <= i < domain.roots@.len() ==> (#[trigger] domain.roots@[i]).val() != z.val(),
        ensures
            r.wf(),
            r.val() == barycentric_eval(
                vals(self.evaluations@),
                vals(domain.roots@),
                z.val(),
                domain.domain_size_inv.val(),
            ),
    {
        let domain_size = domain.size();
        let ghost ev = vals(self.evaluations@);
        let ghost rv = vals(domain.roots@);

        // The distances from the point to every root, then their inverses in
        // one batch-inversion pass.
        let mut denominator: Vec<Scalar> = Vec::new();
        let mut i: usize = 0;
        while i < domain_size
            invariant
                i <= domain_size,
                domain_size == domain.roots@.len(),
                domain.wf(),
                z.wf(),
                rv == vals(domain.roots@),
                denominator@.len() == i,
                forall|j: int| 0 <= j < i ==> (#[trigger] denominator@[j]).wf(),
                forall|j: int|
                    0 <= j < i ==> (#[trigger] denominator@[j]).val() == sub_f(z.val(), rv[j]),
                forall|j: int| 0 <= j < i ==> (#[trigger] denominator@[j]).val() != 0,
                forall|j: int|
                    0 <= j < domain_size ==> (#[trigger] domain.roots@[j]).val() != z.val(),
            decreases domain_size - i,
        {
            let d = scalar_sub(&z, &domain.roots[i]);
            proof {
                lemma_sub_f_zero(z.val(), domain.roots@[i as int].val());
            }
            denominator.push(d);
            i += 1;
        }
        serial_batch_inversion(&mut denominator);

        // The weighted sum of the stored evaluations.
        let mut result = Scalar::zero();
        let mut i: usize = 0;
        while i < domain_size
            invariant
                i <= domain_size,
                domain_size == domain.roots@.len(),
                self.evaluations@.len() == domain_size,
                self.wf(),
                domain.wf(),
                z.wf(),
                ev == vals(self.evaluations@),
                rv == vals(domain.roots@),
                denominator@.len() == domain_size,
                forall|j: int| 0 <= j < domain_size ==> (#[trigger] denominator@[j]).wf(),
                forall|j: int|
                    0 <= j < domain_size ==> (#[trigger] denominator@[j]).val() == inv_f(
                        sub_f(z.val(), rv[j]),
                    ),
                result.wf(),
                result.val() == bary_sum(ev, rv, z.val(), i as int),
            decreases domain_size - i,
        {
            let term = scalar_mul(&self.evaluations[i], &domain.roots[i]);
            let term = scalar_mul(&term, &denominator[i]);
            let next = crate::scalar::scalar_add(&result, &term);
            proof {
                assert(ev[i as int] == self.evaluations@[i as int].val());
                assert(rv[i as int] == domain.roots@[i as int].val());
                assert(bary_sum(ev, rv, z.val(), i + 1) == add_f(
                    bary_sum(ev, rv, z.val(), i as int),
                    mul_f(mul_f(ev[i as int], rv[i as int]), inv_f(sub_f(z.val(), rv[i as int]))),
                ));
            }
            result = next;
            i += 1;
        }

        // Scale by the vanishing polynomial's value and the inverse size.
        let z_pow_n = scalar_pow(&z, domain_size as u64);
        let vanishing = scalar_sub(&z_pow_n, &Scalar::one());
        let scaled = scalar_mul(&result, &vanishing);
        let r = scalar_mul(&scaled, &domain.domain_size_inv);
        proof {
            assert(ev.len() == domain_size);
            assert(pow_f(z.val(), domain_size as nat) == pow_f(z.val(), ev.len()));
        }
        r
    }

    /// The number of stored evaluations.
    fn num_evaluations(&self) -> (r: usize)
        ensures
            r == self.evaluations@.len(),
    {
        self.evaluations.len()
    }
}

} // verus!

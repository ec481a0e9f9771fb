//! Batch inversion and quotient-polynomial computation.
use vstd::prelude::*;
use crate::scalar::{
    Scalar, mul_f, add_f, sub_f, inv_f, lemma_mul_f_assoc, lemma_mul_f_comm, lemma_mul_f_one,
    lemma_sub_f_zero, lemma_inv_f_is, scalar_mul, scalar_sub, scalar_add, scalar_inv,
};
use crate::domain::{Domain, lemma_roots_distinct, lemma_roots_nonzero};
use crate::polynomial::{Polynomial, in_domain, domain_index_of};

verus! {

/// The value of the quotient polynomial `(p(X) - y) / (X - z)` at the root of
/// index `i`, where the point `z` is no domain root.
pub open spec fn quotient_outside_at(ev: Seq<int>, rv: Seq<int>, z: int, y: int, i: int) -> int {
    mul_f(sub_f(ev[i], y), inv_f(sub_f(rv[i], z)))
}

/// The sum over the first `k` indices other than `j` of
/// `(ev_i - y) * r_i / (r_j * (r_j - r_i))`: the full sum is the analytic
/// limit value of the quotient at the in-domain index `j`.
pub open spec fn in_domain_sum(ev: Seq<int>, rv: Seq<int>, j: int, y: int, k: int) -> int
    decreases k,
{
    if k <= 0 {
        0
    } else if k - 1 == j {
        in_domain_sum(ev, rv, j, y, k - 1)
    } else {
        add_f(
            in_domain_sum(ev, rv, j, y, k - 1),
            mul_f(
                mul_f(sub_f(ev[k - 1], y), rv[k - 1]),
                inv_f(mul_f(rv[j], sub_f(rv[j], rv[k - 1]))),
            ),
        )
    }
}

/// The value of the quotient polynomial at the root of index `i`, whether or
/// not the point `z` sits in the domain: at an in-domain point's own index the
/// analytic limit value stands in for the vanishing division.
pub open spec fn quotient_at(ev: Seq<int>, rv: Seq<int>, z: int, y: int, i: int) -> int {
    if in_domain(z, rv) {
        if i == domain_index_of(z, rv) {
            in_domain_sum(ev, rv, domain_index_of(z, rv), y, rv.len() as int)
        } else {
            quotient_outside_at(ev, rv, z, y, i)
        }
    } else {
        quotient_outside_at(ev, rv, z, y, i)
    }
}

/// The full evaluation form of the quotient polynomial.
pub open spec fn quotient_vals(ev: Seq<int>, rv: Seq<int>, z: int, y: int) -> Seq<int> {
    Seq::new(rv.len(), |i: int| quotient_at(ev, rv, z, y, i))
}

/// Computes the quotient polynomial `(p(X) - y) / (X - z)` in evaluation
/// form, for the statement `p(z) = y`. At every root the quotient value times
/// the distance of the root from `z` gives back the shifted evaluation.
pub fn compute(
    poly: &Polynomial,
    input_point: Scalar,
    output_point: Scalar,
    domain: &Domain,
) -> (r: Polynomial)
    requires
        poly.wf(),
        domain.wf(),
        input_point.wf(),
        output_point.wf(),
        poly.evaluations@.len() == domain.roots@.len(),
    ensures
        r.wf(),
        r.evaluations@.len() == domain.roots@.len(),
        !in_domain(input_point.val(), vals(domain.roots@)) ==> forall|i: int|
            0 <= i < domain.roots@.len() ==> (#[trigger] r.evaluations@[i]).val()
                == quotient_outside_at(
                vals(poly.evaluations@),
                vals(domain.roots@),
                input_point.val(),
                output_point.val(),
                i,
            ),
        !in_domain(input_point.val(), vals(domain.roots@)) ==> forall|i: int|
            0 <= i < domain.roots@.len() ==> mul_f(
                (#[trigger] r.evaluations@[i]).val(),
                sub_f(domain.roots@[i].val(), input_point.val()),
            ) == sub_f(poly.evaluations@[i].val(), output_point.val()),
        forall|j: int|
            0 <= j < domain.roots@.len() && (#[trigger] domain.roots@[j]).val()
                == input_point.val() ==> (forall|i: int|
                0 <= i < domain.roots@.len() && i != j ==> (#[trigger] r.evaluations@[i]).val()
                    == quotient_outside_at(
                    vals(poly.evaluations@),
                    vals(domain.roots@),
                    input_point.val(),
                    output_point.val(),
                    i,
                )) && r.evaluations@[j].val() == in_domain_sum(
                vals(poly.evaluations@),
                vals(domain.roots@),
                j,
                output_point.val(),
                domain.roots@.len() as int,
            ),
        vals(r.evaluations@) == quotient_vals(
            vals(poly.evaluations@),
            vals(domain.roots@),
            input_point.val(),
            output_point.val(),
        ),
{
    proof {
        lemma_roots_distinct(*domain);
        assert(forall|i: int|
            0 <= i < domain.roots@.len() ==> vals(domain.roots@)[i] == (
            #[trigger] domain.roots@[i]).val());
    }
    match domain.find(&input_point) {
        Some(index_in_domain) => {
            let r = compute_quotient_in_domain(poly, index_in_domain, output_point, domain);
            proof {
                let ev = vals(poly.evaluations@);
                let rv = vals(domain.roots@);
                let z = input_point.val();
                let y = output_point.val();
                assert(rv[index_in_domain as int] == z);
                assert(in_domain(z, rv));
                let j0 = domain_index_of(z, rv);
                assert(0 <= j0 < rv.len() && rv[j0] == z);
                assert(j0 == index_in_domain as int);
                assert(forall|i: int|
                    0 <= i < rv.len() ==> vals(r.evaluations@)[i] == (
                    #[trigger] r.evaluations@[i]).val());
                assert(vals(r.evaluations@) =~= quotient_vals(ev, rv, z, y));
            }
            r
        },
        None => {
            proof {
                assert(!in_domain(input_point.val(), vals(domain.roots@)));
            }
            let r = compute_quotient_outside_domain(poly, input_point, output_point, domain);
            proof {
                let ev = vals(poly.evaluations@);
                let rv = vals(domain.roots@);
                assert(forall|i: int|
                    0 <= i < rv.len() ==> vals(r.evaluations@)[i] == (
                    #[trigger] r.evaluations@[i]).val());
                assert(vals(r.evaluations@) =~= quotient_vals(
                    ev,
                    rv,
                    input_point.val(),
                    output_point.val(),
                ));
            }
            r
        },
    }
}

/// The quotient when `z` is the domain root of index `index_in_domain`: the
/// generic division applies away from that index, and the analytic limit
/// value takes its place at the index itself.
fn compute_quotient_in_domain(
    poly: &Polynomial,
    index_in_domain: usize,
    output_point: Scalar,
    domain: &Domain,
) -> (r: Polynomial)
    requires
        poly.wf(),
        domain.wf(),
        output_point.wf(),
        poly.evaluations@.len() == domain.roots@.len(),
        index_in_domain < domain.roots@.len(),
    ensures
        r.wf(),
        r.evaluations@.len() == domain.roots@.len(),
        forall|i: int|
            0 <= i < domain.roots@.len() && i != index_in_domain
                ==> (#[trigger] r.evaluations@[i]).val() == quotient_outside_at(
                vals(poly.evaluations@),
                vals(domain.roots@),
                domain.roots@[index_in_domain as int].val(),
                output_point.val(),
                i,
            ),
        r.evaluations@[index_in_domain as int].val() == in_domain_sum(
            vals(poly.evaluations@),
            vals(domain.roots@),
            index_in_domain as int,
            output_point.val(),
            domain.roots@.len() as int,
        ),
{
    let n = domain.size();
    let ghost ev = vals(poly.evaluations@);
    let ghost rv = vals(domain.roots@);
    let ghost z = domain.roots@[index_in_domain as int].val();
    let ghost y = output_point.val();
    proof {
        lemma_roots_distinct(*domain);
    }

    // The shifted evaluations p_i - y.
    let mut polynomial_shifted: Vec<Scalar> = Vec::new();
    let mut i: usize = 0;
    while i < n
        invariant
            i <= n,
            n == domain.roots@.len(),
            poly.wf(),
            domain.wf(),
            output_point.wf(),
            poly.evaluations@.len() == n,
            ev == vals(poly.evaluations@),
            y == output_point.val(),
            polynomial_shifted@.len() == i,
            forall|j: int| 0 <= j < i ==> (#[trigger] polynomial_shifted@[j]).wf(),
            forall|j: int|
                0 <= j < i ==> (#[trigger] polynomial_shifted@[j]).val() == sub_f(ev[j], y),
        decreases n - i,
    {
        polynomial_shifted.push(scalar_sub(&poly.evaluations[i], &output_point));
        i += 1;
    }

    // The distances r_i - r_j, with a placeholder one at index j so that the
    // batch inversion never sees a zero.
    let input_point = domain.roots[index_in_domain];
    let mut denominator_poly: Vec<Scalar> = Vec::new();
    let mut i: usize = 0;
    while i < n
        invariant
            i <= n,
            n == domain.roots@.len(),
            domain.wf(),
            index_in_domain < n,
            input_point == domain.roots@[index_in_domain as int],
            rv == vals(domain.roots@),
            z == rv[index_in_domain as int],
            forall|a: int, b: int|
                0 <= a < n && 0 <= b < n && a != b ==> (#[trigger] domain.roots@[a]).val() != (
                #[trigger] domain.roots@[b]).val(),
            denominator_poly@.len() == i,
            forall|j: int| 0 <= j < i ==> (#[trigger] denominator_poly@[j]).wf(),
            forall|j: int|
                0 <= j < i && j != index_in_domain ==> (#[trigger] denominator_poly@[j]).val()
                    == sub_f(rv[j], z),
            forall|j: int|
                0 <= j < i && j == index_in_domain ==> (#[trigger] denominator_poly@[j]).val()
                    == 1,
            forall|j: int| 0 <= j < i ==> (#[trigger] denominator_poly@[j]).val() != 0,
        decreases n - i,
    {
        if i == index_in_domain {
            denominator_poly.push(Scalar::one());
        } else {
            let d = scalar_sub(&domain.roots[i], &input_point);
            proof {
                lemma_sub_f_zero(domain.roots@[i as int].val(), z);
            }
            denominator_poly.push(d);
        }
        i += 1;
    }
    let ghost denoms_before = denominator_poly@;
    serial_batch_inversion(&mut denominator_poly);

    // The quotient itself.
    let mut quotient_poly: Vec<Scalar> = Vec::new();
    let mut i: usize = 0;
    while i < n
        invariant
            i <= n,
            n == domain.roots@.len(),
            poly.wf(),
            domain.wf(),
            output_point.wf(),
            poly.evaluations@.len() == n,
            index_in_domain < n,
            ev == vals(poly.evaluations@),
            rv == vals(domain.roots@),
            z == rv[index_in_domain as int],
            y == output_point.val(),
            polynomial_shifted@.len() == n,
            forall|j: int| 0 <= j < n ==> (#[trigger] polynomial_shifted@[j]).wf(),
            forall|j: int|
                0 <= j < n ==> (#[trigger] polynomial_shifted@[j]).val() == sub_f(ev[j], y),
            denominator_poly@.len() == n,
            forall|j: int| 0 <= j < n ==> (#[trigger] denominator_poly@[j]).wf(),
            forall|j: int|
                0 <= j < n && j != index_in_domain ==> (#[trigger] denominator_poly@[j]).val()
                    == inv_f(sub_f(rv[j], z)),
            quotient_poly@.len() == i,
            forall|j: int| 0 <= j < i ==> (#[trigger] quotient_poly@[j]).wf(),
            forall|j: int|
                0 <= j < i && j != index_in_domain ==> (#[trigger] quotient_poly@[j]).val()
                    == quotient_outside_at(ev, rv, z, y, j),
            forall|j: int|
                0 <= j < i && j == index_in_domain ==> (#[trigger] quotient_poly@[j]).val()
                    == in_domain_sum(ev, rv, index_in_domain as int, y, n as int),
        decreases n - i,
    {
        if i == index_in_domain {
            quotient_poly.push(
                compute_quotient_eval_within_domain(poly, index_in_domain, output_point, domain),
            );
        } else {
            quotient_poly.push(scalar_mul(&polynomial_shifted[i], &denominator_poly[i]));
        }
        i += 1;
    }

    Polynomial::new(quotient_poly)
}

/// The analytic limit value of the quotient at the in-domain index `j`: the
/// sum over the other indices of `(p_i - y) * r_i / (r_j * (r_j - r_i))`,
/// from taking the limit of the vanishing division at the root itself.
fn compute_quotient_eval_within_domain(
    poly: &Polynomial,
    index_in_domain: usize,
    output_point: Scalar,
    domain: &Domain,
) -> (r: Scalar)
    requires
        poly.wf(),
        domain.wf(),
        output_point.wf(),
        poly.evaluations@.len() == domain.roots@.len(),
        index_in_domain < domain.roots@.len(),
    ensures
        r.wf(),
        r.val() == in_domain_sum(
            vals(poly.evaluations@),
            vals(domain.roots@),
            index_in_domain as int,
            output_point.val(),
            domain.roots@.len() as int,
        ),
{
    let n = domain.size();
    let ghost ev = vals(poly.evaluations@);
    let ghost rv = vals(domain.roots@);
    let ghost y = output_point.val();
    proof {
        lemma_roots_distinct(*domain);
        lemma_roots_nonzero(*domain);
    }
    let input_point = domain.roots[index_in_domain];

    let mut result = Scalar::zero();
    let mut i: usize = 0;
    while i < n
        invariant
            i <= n,
            n == domain.roots@.len(),
            poly.wf(),
            domain.wf(),
            output_point.wf(),
            poly.evaluations@.len() == n,
            index_in_domain < n,
            input_point == domain.roots@[index_in_domain as int],
            ev == vals(poly.evaluations@),
            rv == vals(domain.roots@),
            y == output_point.val(),
            forall|a: int, b: int|
                0 <= a < n && 0 <= b < n && a != b ==> (#[trigger] domain.roots@[a]).val() != (
                #[trigger] domain.roots@[b]).val(),
            forall|a: int| 0 <= a < n ==> (#[trigger] domain.roots@[a]).val() != 0,
            result.wf(),
            result.val() == in_domain_sum(ev, rv, index_in_domain as int, y, i as int),
        decreases n - i,
    {
        if i != index_in_domain {
            let f_i = scalar_sub(&poly.evaluations[i], &output_point);
            let numerator = scalar_mul(&f_i, &domain.roots[i]);
            let diff = scalar_sub(&input_point, &domain.roots[i]);
            proof {
                lemma_sub_f_zero(input_point.val(), domain.roots@[i as int].val());
            }
            let denominator = scalar_mul(&input_point, &diff);
            let inverse = scalar_inv(&denominator).unwrap();
            proof {
                lemma_inv_f_is(denominator.val(), inverse.val());
            }
            let term = scalar_mul(&numerator, &inverse);
            result = scalar_add(&result, &term);
        }
        i += 1;
    }
    result
}

/// The quotient when `z` is no domain root: every index gets the generic
/// division `(p_i - y) / (r_i - z)`, with the distances inverted in one
/// batch-inversion pass.
fn compute_quotient_outside_domain(
    poly: &Polynomial,
    input_point: Scalar,
    output_point: Scalar,
    domain: &Domain,
) -> (r: Polynomial)
    requires
        poly.wf(),
        domain.wf(),
        input_point.wf(),
        output_point.wf(),
        poly.evaluations@.len() == domain.roots@.len(),
        forall|i: int|
            0 <= i < domain.roots@.len() ==> (#[trigger] domain.roots@[i]).val()
                != input_point.val(),
    ensures
        r.wf(),
        r.evaluations@.len() == domain.roots@.len(),
        forall|i: int|
            0 <= i < domain.roots@.len() ==> (#[trigger] r.evaluations@[i]).val()
                == quotient_outside_at(
                vals(poly.evaluations@),
                vals(domain.roots@),
                input_point.val(),
                output_point.val(),
                i,
            ),
        forall|i: int|
            0 <= i < domain.roots@.len() ==> mul_f(
                (#[trigger] r.evaluations@[i]).val(),
                sub_f(domain.roots@[i].val(), input_point.val()),
            ) == sub_f(poly.evaluations@[i].val(), output_point.val()),
{
    let n = domain.size();
    let ghost ev = vals(poly.evaluations@);
    let ghost rv = vals(domain.roots@);
    let ghost z = input_point.val();
    let ghost y = output_point.val();

    // The distances r_i - z: nonzero, since z is no root.
    let mut quotient: Vec<Scalar> = Vec::new();
    let mut i: usize = 0;
    while i < n
        invariant
            i <= n,
            n == domain.roots@.len(),
            domain.wf(),
            input_point.wf(),
            rv == vals(domain.roots@),
            z == input_point.val(),
            forall|j: int| 0 <= j < n ==> (#[trigger] domain.roots@[j]).val() != z,
            quotient@.len() == i,
            forall|j: int| 0 <= j < i ==> (#[trigger] quotient@[j]).wf(),
            forall|j: int| 0 <= j < i ==> (#[trigger] quotient@[j]).val() == sub_f(rv[j], z),
            forall|j: int| 0 <= j < i ==> (#[trigger] quotient@[j]).val() != 0,
        decreases n - i,
    {
        let d = scalar_sub(&domain.roots[i], &input_point);
        proof {
            lemma_sub_f_zero(domain.roots@[i as int].val(), z);
        }
        quotient.push(d);
        i += 1;
    }
    serial_batch_inversion(&mut quotient);

    // Multiply the inverted distances against the shifted evaluations.
    let mut i: usize = 0;
    while i < n
        invariant
            i <= n,
            n == domain.roots@.len(),
            poly.wf(),
            domain.wf(),
            input_point.wf(),
            output_point.wf(),
            poly.evaluations@.len() == n,
            ev == vals(poly.evaluations@),
            rv == vals(domain.roots@),
            z == input_point.val(),
            y == output_point.val(),
            quotient@.len() == n,
            forall|j: int| 0 <= j < n ==> (#[trigger] quotient@[j]).wf(),
            forall|j: int|
                i <= j < n ==> (#[trigger] quotient@[j]).val() == inv_f(sub_f(rv[j], z)),
            forall|j: int|
                i <= j < n ==> mul_f((#[trigger] quotient@[j]).val(), sub_f(rv[j], z)) == 1,
            forall|j: int|
                0 <= j < i ==> (#[trigger] quotient@[j]).val() == quotient_outside_at(
                    ev,
                    rv,
                    z,
                    y,
                    j,
                ),
            forall|j: int|
                0 <= j < i ==> mul_f((#[trigger] quotient@[j]).val(), sub_f(rv[j], z)) == sub_f(
                    ev[j],
                    y,
                ),
        decreases n - i,
    {
        let shifted = scalar_sub(&poly.evaluations[i], &output_point);
        let q_i = scalar_mul(&shifted, &quotient[i]);
        proof {
            let s = sub_f(ev[i as int], y);
            let w = quotient@[i as int].val();
            let dd = sub_f(rv[i as int], z);
            lemma_mul_f_assoc(s, w, dd);
            assert(mul_f(w, dd) == 1);
            lemma_sub_f_zero(ev[i as int], y);
            lemma_mul_f_one(s);
            assert(mul_f(mul_f(s, w), dd) == mul_f(s, mul_f(w, dd)));
            assert(mul_f(q_i.val(), dd) == s);
        }
        quotient[i] = q_i;
        i += 1;
    }

    Polynomial::new(quotient)
}

/// The product, in the scalar field, of the first `k` values of a sequence.
pub open spec fn prefix_prod(s: Seq<int>, k: int) -> int
    decreases k,
{
    if k <= 0 {
        1
    } else {
        mul_f(prefix_prod(s, k - 1), s[k - 1])
    }
}

/// The values a sequence of scalars stands for.
pub open spec fn vals(s: Seq<Scalar>) -> Seq<int> {
    s.map_values(|x: Scalar| x.val())
}

/// Given a vector of nonzero field elements `{v_i}`, replace each element with
/// its multiplicative inverse, spending one field inversion in all.
///
/// Multiplying each result against the original element gives one, so the
/// output is exactly the vector of inverses.
pub fn serial_batch_inversion(v: &mut Vec<Scalar>)
    requires
        forall|i: int| 0 <= i < old(v)@.len() ==> (#[trigger] old(v)@[i]).wf(),
        forall|i: int| 0 <= i < old(v)@.len() ==> (#[trigger] old(v)@[i]).val() != 0,
    ensures
        final(v)@.len() == old(v)@.len(),
        forall|i: int| 0 <= i < final(v)@.len() ==> (#[trigger] final(v)@[i]).wf(),
        forall|i: int|
            0 <= i < final(v)@.len() ==> mul_f((#[trigger] final(v)@[i]).val(), old(v)@[i].val())
                == 1,
        forall|i: int|
            0 <= i < final(v)@.len() ==> (#[trigger] final(v)@[i]).val() == inv_f(
                old(v)@[i].val(),
            ),
{
    let ghost orig: Seq<Scalar> = v@;
    let ghost ov: Seq<int> = vals(orig);
    let n = v.len();

    // First pass: the vector of running products [a, ab, abc, ...].
    let mut prod: Vec<Scalar> = Vec::new();
    let mut tmp = Scalar::one();
    let mut i: usize = 0;
    while i < n
        invariant
            i <= n,
            n == v@.len(),
            v@ == orig,
            ov == vals(orig),
            ov.len() == n,
            forall|j: int| 0 <= j < n ==> (#[trigger] orig[j]).wf(),
            forall|j: int| 0 <= j < n ==> (#[trigger] ov[j]) == orig[j].val(),
            forall|j: int| 0 <= j < n ==> (#[trigger] ov[j]) != 0,
            prod@.len() == i,
            tmp.wf(),
            tmp.val() == prefix_prod(ov, i as int),
            tmp.val() != 0,
            forall|j: int| 0 <= j < i ==> (#[trigger] prod@[j]).wf(),
            forall|j: int| 0 <= j < i ==> (#[trigger] prod@[j]).val() == prefix_prod(ov, j + 1),
        decreases n - i,
    {
        proof {
            assert(v@[i as int] == orig[i as int]);
            assert(ov[i as int] == orig[i as int].val());
            assert(ov[i as int] != 0);
        }
        tmp = scalar_mul(&tmp, &v[i]);
        prod.push(tmp);
        i += 1;
    }

    // One inversion of the total product.
    let inv_total = scalar_inv(&tmp);
    let mut tmp = inv_total.unwrap();

    // Second pass, backwards: distribute the inverse of the total product.
    let mut i: usize = n;
    while i > 0
        invariant
            i <= n,
            n == v@.len(),
            ov == vals(orig),
            ov.len() == n,
            forall|j: int| 0 <= j < n ==> (#[trigger] orig[j]).wf(),
            forall|j: int| 0 <= j < n ==> (#[trigger] ov[j]) == orig[j].val(),
            forall|j: int| 0 <= j < n ==> (#[trigger] ov[j]) != 0,
            prod@.len() == n,
            forall|j: int| 0 <= j < n ==> (#[trigger] prod@[j]).wf(),
            forall|j: int| 0 <= j < n ==> (#[trigger] prod@[j]).val() == prefix_prod(ov, j + 1),
            tmp.wf(),
            mul_f(prefix_prod(ov, i as int), tmp.val()) == 1,
            forall|j: int| 0 <= j < i ==> (#[trigger] v@[j]) == orig[j],
            forall|j: int| i <= j < n ==> (#[trigger] v@[j]).wf(),
            forall|j: int| i <= j < n ==> mul_f((#[trigger] v@[j]).val(), ov[j]) == 1,
            forall|j: int| i <= j < n ==> (#[trigger] v@[j]).val() == inv_f(ov[j]),
        decreases i,
    {
        i -= 1;
        let s = if i == 0 {
            Scalar::one()
        } else {
            prod[i - 1]
        };
        proof {
            assert(s.val() == prefix_prod(ov, i as int));
        }
        let new_tmp = scalar_mul(&tmp, &v[i]);
        let inv_i = scalar_mul(&tmp, &s);
        proof {
            let p = prefix_prod(ov, i as int);
            let q = prefix_prod(ov, i + 1);
            let a = ov[i as int];
            let t = tmp.val();
            assert(q == mul_f(p, a));
            // inv_i inverts the original element at this index.
            lemma_mul_f_comm(t, s.val());
            lemma_mul_f_assoc(p, t, a);
            lemma_mul_f_comm(t, a);
            lemma_mul_f_assoc(p, a, t);
            assert(mul_f(inv_i.val(), a) == mul_f(mul_f(p, t), a));
            assert(mul_f(mul_f(p, t), a) == mul_f(p, mul_f(t, a)));
            assert(mul_f(p, mul_f(t, a)) == mul_f(p, mul_f(a, t)));
            assert(mul_f(p, mul_f(a, t)) == mul_f(mul_f(p, a), t));
            assert(mul_f(inv_i.val(), a) == mul_f(q, t));
            lemma_mul_f_comm(inv_i.val(), a);
            lemma_inv_f_is(a, inv_i.val());
            // new_tmp inverts the running product one step down.
            assert(new_tmp.val() == mul_f(t, a));
            assert(mul_f(p, new_tmp.val()) == mul_f(p, mul_f(a, t)));
            assert(mul_f(p, mul_f(a, t)) == mul_f(mul_f(p, a), t));
            assert(mul_f(p, new_tmp.val()) == mul_f(q, t));
            assert(mul_f(prefix_prod(ov, i as int), new_tmp.val()) == 1);
        }
        v[i] = inv_i;
        tmp = new_tmp;
    }
}

} // verus!

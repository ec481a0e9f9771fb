//! The scalar field of the curve: elements are held in canonical form as four
//! little-endian 64-bit limbs, and every arithmetic contract is stated over the
//! mathematical value of an element modulo the field's prime order.
use vstd::prelude::*;
use vstd::arithmetic::div_mod::{
    lemma_mul_mod_noop_left, lemma_mul_mod_noop_right, lemma_small_mod, lemma_mod_bound,
    lemma_mod_multiples_vanish,
};
use vstd::arithmetic::mul::lemma_mul_is_associative;
use ff::Field;

verus! {

/// The order of the scalar field: a prime.
pub open spec fn fr_m() -> int {
    52435875175126190479447740508185965837690552500527637822603658699938581184513int
}

/// Addition in the scalar field.
pub open spec fn add_f(a: int, b: int) -> int {
    (a + b) % fr_m()
}

/// Subtraction in the scalar field.
pub open spec fn sub_f(a: int, b: int) -> int {
    (a - b) % fr_m()
}

/// Multiplication in the scalar field.
pub open spec fn mul_f(a: int, b: int) -> int {
    (a * b) % fr_m()
}

/// Exponentiation in the scalar field.
pub open spec fn pow_f(b: int, e: nat) -> int
    decreases e,
{
    if e == 0 {
        1
    } else {
        mul_f(b, pow_f(b, (e - 1) as nat))
    }
}

/// The multiplicative inverse in the scalar field: the canonical element whose
/// product with `a` is one. Meaningful only where such an element exists.
pub open spec fn inv_f(a: int) -> int {
    choose|b: int| 0 <= b < fr_m() && mul_f(a, b) == 1
}

/// An element of the scalar field, stored as its canonical (fully reduced)
/// little-endian 64-bit limbs.
#[derive(Clone, Copy, Debug)]
pub struct Scalar {
    pub(crate) limbs: [u64; 4],
}

impl Scalar {
    /// The integer a scalar stands for.
    pub closed spec fn val(&self) -> int {
        self.limbs[0] + self.limbs[1] * 0x10000000000000000int
            + self.limbs[2] * 0x100000000000000000000000000000000int
            + self.limbs[3] * 0x1000000000000000000000000000000000000000000000000int
    }

    /// A scalar is well formed when its limbs are the canonical representation:
    /// the value they encode is reduced modulo the field order.
    pub open spec fn wf(&self) -> bool {
        0 <= self.val() < fr_m()
    }

    /// The additive identity.
    pub fn zero() -> (r: Scalar)
        ensures
            r.wf(),
            r.val() == 0,
    {
        Scalar { limbs: [0, 0, 0, 0] }
    }

    /// The multiplicative identity.
    pub fn one() -> (r: Scalar)
        ensures
            r.wf(),
            r.val() == 1,
    {
        Scalar { limbs: [1, 0, 0, 0] }
    }

    /// The field element standing for a small integer.
    pub fn from_u64(x: u64) -> (r: Scalar)
        ensures
            r.wf(),
            r.val() == x,
    {
        Scalar { limbs: [x, 0, 0, 0] }
    }

    /// The field element encoded by four canonical little-endian limbs.
    pub fn from_limbs(l0: u64, l1: u64, l2: u64, l3: u64) -> (r: Scalar)
        requires
            l0 + l1 * 0x10000000000000000int + l2 * 0x100000000000000000000000000000000int + l3
                * 0x1000000000000000000000000000000000000000000000000int < fr_m(),
        ensures
            r.wf(),
            r.val() == l0 + l1 * 0x10000000000000000int + l2
                * 0x100000000000000000000000000000000int + l3
                * 0x1000000000000000000000000000000000000000000000000int,
    {
        Scalar { limbs: [l0, l1, l2, l3] }
    }

    /// Equality of the field elements two scalars stand for.
    pub fn eq_value(&self, other: &Scalar) -> (r: bool)
        ensures
            r <==> self.val() == other.val(),
    {
        proof {
            lemma_val_injective(*self, *other);
        }
        self.limbs[0] == other.limbs[0] && self.limbs[1] == other.limbs[1]
            && self.limbs[2] == other.limbs[2] && self.limbs[3] == other.limbs[3]
    }

    /// Whether the scalar is the additive identity.
    pub fn is_zero(&self) -> (r: bool)
        ensures
            r <==> self.val() == 0,
    {
        self.eq_value(&Scalar::zero())
    }
}

/// Two limb vectors encoding the same integer are the same limbs.
proof fn lemma_val_injective(a: Scalar, b: Scalar)
    ensures
        a.val() == b.val() ==> a.limbs =~= b.limbs,
{
    if a.val() == b.val() {
        lemma_limb_peel(a.limbs[0], a.limbs[1], a.limbs[2], a.limbs[3], b.limbs[0], b.limbs[1],
            b.limbs[2], b.limbs[3]);
        assert(a.limbs =~= b.limbs);
    }
}

proof fn lemma_limb_peel(a0: u64, a1: u64, a2: u64, a3: u64, b0: u64, b1: u64, b2: u64, b3: u64)
    requires
        a0 + a1 * 0x10000000000000000int + a2 * 0x100000000000000000000000000000000int
            + a3 * 0x1000000000000000000000000000000000000000000000000int == b0 + b1
            * 0x10000000000000000int + b2 * 0x100000000000000000000000000000000int + b3
            * 0x1000000000000000000000000000000000000000000000000int,
    ensures
        a0 == b0 && a1 == b1 && a2 == b2 && a3 == b3,
{
    let base: int = 0x10000000000000000int;
    let ta: int = a1 + a2 * base + a3 * base * base;
    let tb: int = b1 + b2 * base + b3 * base * base;
    assert(a0 + ta * base == b0 + tb * base) by (nonlinear_arith)
        requires
            a0 + a1 * base + a2 * (base * base) + a3 * (base * base * base) == b0 + b1 * base + b2
                * (base * base) + b3 * (base * base * base),
            ta == a1 + a2 * base + a3 * base * base,
            tb == b1 + b2 * base + b3 * base * base,
    ;
    assert(a0 == b0 && ta == tb) by (nonlinear_arith)
        requires
            a0 + ta * base == b0 + tb * base,
            0 <= a0 < base,
            0 <= b0 < base,
            base == 0x10000000000000000int,
    ;
    let ua: int = a2 + a3 * base;
    let ub: int = b2 + b3 * base;
    assert(a1 + ua * base == b1 + ub * base) by (nonlinear_arith)
        requires
            a1 + a2 * base + a3 * (base * base) == b1 + b2 * base + b3 * (base * base),
            ua == a2 + a3 * base,
            ub == b2 + b3 * base,
    ;
    assert(a1 == b1 && ua == ub) by (nonlinear_arith)
        requires
            a1 + ua * base == b1 + ub * base,
            0 <= a1 < base,
            0 <= b1 < base,
            base == 0x10000000000000000int,
    ;
    assert(a2 == b2 && a3 == b3) by (nonlinear_arith)
        requires
            a2 + a3 * base == b2 + b3 * base,
            0 <= a2 < base,
            0 <= b2 < base,
            base == 0x10000000000000000int,
    ;
}

/// Relies on `blstrs::Scalar`: `from_u64s_le` reads canonical little-endian
/// limbs, `+` is addition modulo the field order, and `to_bytes_le` writes the
/// canonical little-endian form back out.
#[verifier::external_body]
pub fn scalar_add(a: &Scalar, b: &Scalar) -> (r: Scalar)
    requires
        a.wf(),
        b.wf(),
    ensures
        r.wf(),
        r.val() == add_f(a.val(), b.val()),
{
    let x = blstrs::Scalar::from_u64s_le(&a.limbs).unwrap();
    let y = blstrs::Scalar::from_u64s_le(&b.limbs).unwrap();
    let v = (x + y).to_bytes_le();
    Scalar {
        limbs: [
            u64::from_le_bytes(v[0..8].try_into().unwrap()),
            u64::from_le_bytes(v[8..16].try_into().unwrap()),
            u64::from_le_bytes(v[16..24].try_into().unwrap()),
            u64::from_le_bytes(v[24..32].try_into().unwrap()),
        ],
    }
}

/// Relies on `blstrs::Scalar`: `-` is subtraction modulo the field order.
#[verifier::external_body]
pub fn scalar_sub(a: &Scalar, b: &Scalar) -> (r: Scalar)
    requires
        a.wf(),
        b.wf(),
    ensures
        r.wf(),
        r.val() == sub_f(a.val(), b.val()),
{
    let x = blstrs::Scalar::from_u64s_le(&a.limbs).unwrap();
    let y = blstrs::Scalar::from_u64s_le(&b.limbs).unwrap();
    let v = (x - y).to_bytes_le();
    Scalar {
        limbs: [
            u64::from_le_bytes(v[0..8].try_into().unwrap()),
            u64::from_le_bytes(v[8..16].try_into().unwrap()),
            u64::from_le_bytes(v[16..24].try_into().unwrap()),
            u64::from_le_bytes(v[24..32].try_into().unwrap()),
        ],
    }
}

/// Relies on `blstrs::Scalar`: `*` is multiplication modulo the field order,
/// which is prime, so a product is zero exactly when a factor is.
#[verifier::external_body]
pub fn scalar_mul(a: &Scalar, b: &Scalar) -> (r: Scalar)
    requires
        a.wf(),
        b.wf(),
    ensures
        r.wf(),
        r.val() == mul_f(a.val(), b.val()),
        r.val() == 0 <==> (a.val() == 0 || b.val() == 0),
{
    let x = blstrs::Scalar::from_u64s_le(&a.limbs).unwrap();
    let y = blstrs::Scalar::from_u64s_le(&b.limbs).unwrap();
    let v = (x * y).to_bytes_le();
    Scalar {
        limbs: [
            u64::from_le_bytes(v[0..8].try_into().unwrap()),
            u64::from_le_bytes(v[8..16].try_into().unwrap()),
            u64::from_le_bytes(v[16..24].try_into().unwrap()),
            u64::from_le_bytes(v[24..32].try_into().unwrap()),
        ],
    }
}

/// Relies on `blstrs::Scalar::invert`: it succeeds exactly on nonzero
/// elements, and then returns the multiplicative inverse.
#[verifier::external_body]
pub fn scalar_inv(a: &Scalar) -> (r: Option<Scalar>)
    requires
        a.wf(),
    ensures
        r is Some <==> a.val() != 0,
        r is Some ==> r->Some_0.wf() && mul_f(a.val(), r->Some_0.val()) == 1,
{
    let x = blstrs::Scalar::from_u64s_le(&a.limbs).unwrap();
    let inv: Option<blstrs::Scalar> = x.invert().into();
    inv.map(|i| {
        let v = i.to_bytes_le();
        Scalar {
            limbs: [
                u64::from_le_bytes(v[0..8].try_into().unwrap()),
                u64::from_le_bytes(v[8..16].try_into().unwrap()),
                u64::from_le_bytes(v[16..24].try_into().unwrap()),
                u64::from_le_bytes(v[24..32].try_into().unwrap()),
            ],
        }
    })
}

/// Relies on `blstrs::Scalar::pow_vartime`: repeated squaring computes the
/// `e`-th power modulo the field order.
#[verifier::external_body]
pub fn scalar_pow(a: &Scalar, e: u64) -> (r: Scalar)
    requires
        a.wf(),
    ensures
        r.wf(),
        r.val() == pow_f(a.val(), e as nat),
{
    let x = blstrs::Scalar::from_u64s_le(&a.limbs).unwrap();
    let v = x.pow_vartime([e]).to_bytes_le();
    Scalar {
        limbs: [
            u64::from_le_bytes(v[0..8].try_into().unwrap()),
            u64::from_le_bytes(v[8..16].try_into().unwrap()),
            u64::from_le_bytes(v[16..24].try_into().unwrap()),
            u64::from_le_bytes(v[24..32].try_into().unwrap()),
        ],
    }
}

/// Field multiplication is commutative.
pub proof fn lemma_mul_f_comm(a: int, b: int)
    ensures
        mul_f(a, b) == mul_f(b, a),
{
}

/// Field multiplication is associative.
pub proof fn lemma_mul_f_assoc(a: int, b: int, c: int)
    ensures
        mul_f(mul_f(a, b), c) == mul_f(a, mul_f(b, c)),
{
    lemma_mul_mod_noop_left(a * b, c, fr_m());
    lemma_mul_mod_noop_right(a, b * c, fr_m());
    lemma_mul_is_associative(a, b, c);
}

/// One is the multiplicative identity on canonical elements.
pub proof fn lemma_mul_f_one(a: int)
    requires
        0 <= a < fr_m(),
    ensures
        mul_f(1, a) == a,
        mul_f(a, 1) == a,
{
    lemma_small_mod(a as nat, fr_m() as nat);
}

/// An element has at most one canonical multiplicative inverse.
pub proof fn lemma_inv_unique(a: int, b: int, c: int)
    requires
        0 <= b < fr_m(),
        0 <= c < fr_m(),
        mul_f(a, b) == 1,
        mul_f(a, c) == 1,
    ensures
        b == c,
{
    lemma_mul_f_one(b);
    lemma_mul_f_comm(a, c);
    lemma_mul_f_assoc(b, a, c);
    lemma_mul_f_comm(b, a);
    lemma_mul_f_one(c);
    assert(b == mul_f(b, mul_f(a, c)));
    assert(mul_f(b, mul_f(a, c)) == mul_f(mul_f(b, a), c));
    assert(mul_f(mul_f(a, b), c) == mul_f(1, c));
}

/// A canonical witness of invertibility is the inverse.
pub proof fn lemma_inv_f_is(a: int, b: int)
    requires
        0 <= b < fr_m(),
        mul_f(a, b) == 1,
    ensures
        inv_f(a) == b,
        mul_f(a, inv_f(a)) == 1,
        0 <= inv_f(a) < fr_m(),
{
    assert(exists|x: int| 0 <= x < fr_m() && mul_f(a, x) == 1) by {
        assert(0 <= b < fr_m() && mul_f(a, b) == 1);
    }
    let w = inv_f(a);
    assert(0 <= w < fr_m() && mul_f(a, w) == 1);
    lemma_inv_unique(a, w, b);
}

/// Powers stay within the field.
pub proof fn lemma_pow_f_bound(b: int, e: nat)
    ensures
        0 <= pow_f(b, e) < fr_m(),
    decreases e,
{
    if e == 0 {
    } else {
        lemma_mod_bound(b * pow_f(b, (e - 1) as nat), fr_m());
    }
}

/// The first power of a canonical element is the element.
pub proof fn lemma_pow_f_one(b: int)
    requires
        0 <= b < fr_m(),
    ensures
        pow_f(b, 1) == b,
{
    lemma_mul_f_one(b);
    assert(pow_f(b, 0nat) == 1);
    assert(pow_f(b, 1) == mul_f(b, pow_f(b, 0nat)));
}

/// Every power of one is one.
pub proof fn lemma_pow_f_base_one(e: nat)
    ensures
        pow_f(1, e) == 1,
    decreases e,
{
    if e == 0 {
    } else {
        lemma_pow_f_base_one((e - 1) as nat);
        lemma_small_mod(1nat, fr_m() as nat);
    }
}

/// Exponents add across a product of powers.
pub proof fn lemma_pow_f_add(b: int, e1: nat, e2: nat)
    ensures
        pow_f(b, e1 + e2) == mul_f(pow_f(b, e1), pow_f(b, e2)),
    decreases e1,
{
    if e1 == 0 {
        lemma_pow_f_bound(b, e2);
        lemma_mul_f_one(pow_f(b, e2));
    } else {
        lemma_pow_f_add(b, (e1 - 1) as nat, e2);
        assert(pow_f(b, e1 + e2) == mul_f(b, pow_f(b, ((e1 + e2) - 1) as nat)));
        assert(pow_f(b, ((e1 + e2) - 1) as nat) == mul_f(pow_f(b, (e1 - 1) as nat), pow_f(b, e2)));
        lemma_mul_f_assoc(b, pow_f(b, (e1 - 1) as nat), pow_f(b, e2));
    }
}

/// Exponents multiply across iterated powers.
pub proof fn lemma_pow_f_mul(b: int, e1: nat, e2: nat)
    ensures
        pow_f(b, e1 * e2) == pow_f(pow_f(b, e1), e2),
    decreases e2,
{
    if e2 == 0 {
        assert(e1 * e2 == 0) by (nonlinear_arith)
            requires
                e2 == 0,
        ;
    } else {
        lemma_pow_f_mul(b, e1, (e2 - 1) as nat);
        assert(e1 * e2 == e1 + e1 * (e2 - 1)) by (nonlinear_arith)
            requires
                e2 >= 1,
        ;
        lemma_pow_f_add(b, e1, (e1 * (e2 - 1)) as nat);
        assert(pow_f(pow_f(b, e1), e2) == mul_f(pow_f(b, e1), pow_f(pow_f(b, e1), (e2 - 1) as nat)));
    }
}

/// Subtraction of canonical elements vanishes exactly on equals.
pub proof fn lemma_sub_f_zero(a: int, b: int)
    requires
        0 <= a < fr_m(),
        0 <= b < fr_m(),
    ensures
        sub_f(a, b) == 0 <==> a == b,
        0 <= sub_f(a, b) < fr_m(),
{
    lemma_mod_bound(a - b, fr_m());
    if a >= b {
        lemma_small_mod((a - b) as nat, fr_m() as nat);
    } else {
        lemma_mod_multiples_vanish(1, a - b, fr_m());
        lemma_small_mod((a - b + fr_m()) as nat, fr_m() as nat);
        assert(sub_f(a, b) == a - b + fr_m());
    }
}

} // verus!

//! Curve points, held as their canonical compressed encodings. What the curve
//! library computes on them is named, never restated: the contracts of the
//! rest of the library compose these names.
use vstd::prelude::*;
use group::Group;
use pairing::{MillerLoopResult, MultiMillerLoop};
use crate::scalar::Scalar;

verus! {

/// Whether 48 bytes are the canonical compressed encoding of a point of the
/// first curve group: exactly the encodings `from_compressed` accepts and
/// `to_compressed` produces.
pub uninterp spec fn g1_wf(b: Seq<u8>) -> bool;

/// The compressed encoding of the sum of two points of the first group.
pub uninterp spec fn g1_add_s(a: Seq<u8>, b: Seq<u8>) -> Seq<u8>;

/// The compressed encoding of the difference of two points of the first group.
pub uninterp spec fn g1_sub_s(a: Seq<u8>, b: Seq<u8>) -> Seq<u8>;

/// The compressed encoding of a point of the first group times a scalar.
pub uninterp spec fn g1_mul_s(p: Seq<u8>, k: int) -> Seq<u8>;

/// The compressed encoding of the multi-scalar multiplication of a vector of
/// points of the first group against a vector of scalars.
pub uninterp spec fn g1_msm_s(points: Seq<Seq<u8>>, scalars: Seq<int>) -> Seq<u8>;

/// Whether 96 bytes are the canonical compressed encoding of a point of the
/// second curve group.
pub uninterp spec fn g2_wf(b: Seq<u8>) -> bool;

/// The compressed encoding of a point of the second group times a scalar.
pub uninterp spec fn g2_mul_s(p: Seq<u8>, k: int) -> Seq<u8>;

/// The compressed encoding of the difference of two points of the second group.
pub uninterp spec fn g2_sub_s(a: Seq<u8>, b: Seq<u8>) -> Seq<u8>;

/// The compressed encoding of the negation of a point of the second group.
pub uninterp spec fn g2_neg_s(p: Seq<u8>) -> Seq<u8>;

/// Whether the product of the two pairings `e(a, p) * e(w, q)` is the
/// identity of the target group.
pub uninterp spec fn pairing_check_s(a: Seq<u8>, p: Seq<u8>, w: Seq<u8>, q: Seq<u8>) -> bool;

/// A point of the first curve group, as its compressed encoding.
#[derive(Clone, Copy, Debug)]
pub struct G1Point {
    bytes: [u8; 48],
}

/// A point of the second curve group, as its compressed encoding.
#[derive(Clone, Copy, Debug)]
pub struct G2Point {
    bytes: [u8; 96],
}

impl View for G1Point {
    type V = Seq<u8>;

    closed spec fn view(&self) -> Seq<u8> {
        self.bytes@
    }
}

impl View for G2Point {
    type V = Seq<u8>;

    closed spec fn view(&self) -> Seq<u8> {
        self.bytes@
    }
}

impl G1Point {
    /// A well-formed point holds a canonical compressed encoding.
    pub open spec fn wf(&self) -> bool {
        g1_wf(self@)
    }

    /// Whether two points hold the same encoding; canonical encodings are
    /// unique, so this is point equality.
    pub fn eq_point(&self, other: &G1Point) -> (r: bool)
        ensures
            r <==> self@ == other@,
    {
        let mut i: usize = 0;
        while i < 48
            invariant
                i <= 48,
                forall|j: int| 0 <= j < i ==> self.bytes[j] == other.bytes[j],
            decreases 48 - i,
        {
            if self.bytes[i] != other.bytes[i] {
                proof {
                    assert(self@[i as int] != other@[i as int]);
                }
                return false;
            }
            i += 1;
        }
        proof {
            assert(self@ =~= other@);
        }
        true
    }
}

impl G2Point {
    /// A well-formed point holds a canonical compressed encoding.
    pub open spec fn wf(&self) -> bool {
        g2_wf(self@)
    }
}

/// The views of a sequence of points of the first group.
pub open spec fn pviews(s: Seq<G1Point>) -> Seq<Seq<u8>> {
    s.map_values(|p: G1Point| p@)
}

/// Relies on `blstrs::G1Projective::generator` and `to_compressed`: the fixed
/// group generator, compressed.
#[verifier::external_body]
pub fn g1_generator() -> (r: G1Point)
    ensures
        g1_wf(r@),
{
    G1Point { bytes: blstrs::G1Projective::generator().to_compressed() }
}

/// Relies on `blstrs::G1Projective`: `+` is the group operation, and
/// compression round-trips through `from_compressed`/`to_compressed`.
#[verifier::external_body]
pub fn g1_add(a: &G1Point, b: &G1Point) -> (r: G1Point)
    requires
        a.wf(),
        b.wf(),
    ensures
        r.wf(),
        r@ == g1_add_s(a@, b@),
{
    let x = blstrs::G1Projective::from_compressed(&a.bytes).unwrap();
    let y = blstrs::G1Projective::from_compressed(&b.bytes).unwrap();
    G1Point { bytes: (x + y).to_compressed() }
}

/// Relies on `blstrs::G1Projective`: `-` is the group difference.
#[verifier::external_body]
pub fn g1_sub(a: &G1Point, b: &G1Point) -> (r: G1Point)
    requires
        a.wf(),
        b.wf(),
    ensures
        r.wf(),
        r@ == g1_sub_s(a@, b@),
{
    let x = blstrs::G1Projective::from_compressed(&a.bytes).unwrap();
    let y = blstrs::G1Projective::from_compressed(&b.bytes).unwrap();
    G1Point { bytes: (x - y).to_compressed() }
}

/// Relies on `blstrs::G1Projective`: `*` is scalar multiplication.
#[verifier::external_body]
pub fn g1_mul(p: &G1Point, k: &Scalar) -> (r: G1Point)
    requires
        p.wf(),
        k.wf(),
    ensures
        r.wf(),
        r@ == g1_mul_s(p@, k.val()),
{
    let x = blstrs::G1Projective::from_compressed(&p.bytes).unwrap();
    let s = blstrs::Scalar::from_u64s_le(&k.limbs).unwrap();
    G1Point { bytes: (x * s).to_compressed() }
}

/// Relies on `blstrs::G1Projective::multi_exp`: the sum of each point times
/// its scalar.
#[verifier::external_body]
pub fn g1_msm(points: &Vec<G1Point>, scalars: &Vec<Scalar>) -> (r: G1Point)
    requires
        points@.len() == scalars@.len(),
        points@.len() >= 1,
        forall|i: int| 0 <= i < points@.len() ==> (#[trigger] points@[i]).wf(),
        forall|i: int| 0 <= i < scalars@.len() ==> (#[trigger] scalars@[i]).wf(),
    ensures
        r.wf(),
        r@ == g1_msm_s(pviews(points@), crate::utils::vals(scalars@)),
{
    let ps: Vec<blstrs::G1Projective> = points.iter().map(
        |p| blstrs::G1Projective::from_compressed(&p.bytes).unwrap(),
    ).collect();
    let ks: Vec<blstrs::Scalar> = scalars.iter().map(
        |s| blstrs::Scalar::from_u64s_le(&s.limbs).unwrap(),
    ).collect();
    G1Point { bytes: blstrs::G1Projective::multi_exp(&ps, &ks).to_compressed() }
}

/// Relies on `blstrs::G2Projective::generator` and `to_compressed`.
#[verifier::external_body]
pub fn g2_generator() -> (r: G2Point)
    ensures
        g2_wf(r@),
{
    G2Point { bytes: blstrs::G2Projective::generator().to_compressed() }
}

/// Relies on `blstrs::G2Projective`: `*` is scalar multiplication.
#[verifier::external_body]
pub fn g2_mul(p: &G2Point, k: &Scalar) -> (r: G2Point)
    requires
        p.wf(),
        k.wf(),
    ensures
        r.wf(),
        r@ == g2_mul_s(p@, k.val()),
{
    let x = blstrs::G2Projective::from_compressed(&p.bytes).unwrap();
    let s = blstrs::Scalar::from_u64s_le(&k.limbs).unwrap();
    G2Point { bytes: (x * s).to_compressed() }
}

/// Relies on `blstrs::G2Projective`: `-` is the group difference.
#[verifier::external_body]
pub fn g2_sub(a: &G2Point, b: &G2Point) -> (r: G2Point)
    requires
        a.wf(),
        b.wf(),
    ensures
        r.wf(),
        r@ == g2_sub_s(a@, b@),
{
    let x = blstrs::G2Projective::from_compressed(&a.bytes).unwrap();
    let y = blstrs::G2Projective::from_compressed(&b.bytes).unwrap();
    G2Point { bytes: (x - y).to_compressed() }
}

/// Relies on `blstrs::G2Projective::neg`: the group negation.
#[verifier::external_body]
pub fn g2_neg(p: &G2Point) -> (r: G2Point)
    requires
        p.wf(),
    ensures
        r.wf(),
        r@ == g2_neg_s(p@),
{
    let x = blstrs::G2Projective::from_compressed(&p.bytes).unwrap();
    G2Point { bytes: (-x).to_compressed() }
}

/// Relies on `Bls12::multi_miller_loop` and `final_exponentiation` of the
/// pairing interface, with `G2Prepared` precomputation: whether the product
/// of the pairings `e(a, p) * e(w, q)` is the identity of the target group.
#[verifier::external_body]
pub fn pairing_identity_check(a: &G1Point, p: &G2Point, w: &G1Point, q: &G2Point) -> (r: bool)
    requires
        a.wf(),
        p.wf(),
        w.wf(),
        q.wf(),
    ensures
        r == pairing_check_s(a@, p@, w@, q@),
{
    let pa = blstrs::G1Affine::from_compressed(&a.bytes).unwrap();
    let pw = blstrs::G1Affine::from_compressed(&w.bytes).unwrap();
    let pp = blstrs::G2Prepared::from(blstrs::G2Affine::from_compressed(&p.bytes).unwrap());
    let pq = blstrs::G2Prepared::from(blstrs::G2Affine::from_compressed(&q.bytes).unwrap());
    let terms = [(&pa, &pp), (&pw, &pq)];
    let pairing = blstrs::Bls12::multi_miller_loop(&terms).final_exponentiation();
    pairing.is_identity().into()
}

} // verus!

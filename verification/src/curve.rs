//! Group elements of BLS12-381, carried by their canonical byte encodings.
//!
//! Every value of the data model is kept as the byte string that the canonical
//! codec of the curve library produces: 96 bytes for an uncompressed G1 point,
//! 192 for an uncompressed G2 point, 48 and 96 for the compressed forms, and
//! 32 bytes (little endian, below the group order) for a scalar.  Those
//! encodings are injective, so equality of encodings is equality of the
//! underlying elements, and the identity of each group has exactly one
//! encoding, written out concretely below.  All arithmetic on the elements is
//! done by the curve library behind the trusted functions of this module; each
//! states its result through an uninterpreted name, a function of the argument
//! encodings alone.

use vstd::prelude::*;

verus! {

/// An element of G1 as its 96-byte canonical uncompressed encoding.
pub struct G1Elem {
    pub bytes: Vec<u8>,
}

/// An element of G2 as its 192-byte canonical uncompressed encoding.
pub struct G2Elem {
    pub bytes: Vec<u8>,
}

/// An element of G1 as its 48-byte canonical compressed encoding.
pub struct G1Comp {
    pub bytes: Vec<u8>,
}

/// An element of G2 as its 96-byte canonical compressed encoding.
pub struct G2Comp {
    pub bytes: Vec<u8>,
}

/// A scalar (an element of the prime field of the group order) as its
/// 32-byte canonical little-endian encoding.
pub struct FrElem {
    pub bytes: Vec<u8>,
}

impl View for G1Elem {
    type V = Seq<u8>;

    open spec fn view(&self) -> Seq<u8> {
        self.bytes@
    }
}

impl View for G2Elem {
    type V = Seq<u8>;

    open spec fn view(&self) -> Seq<u8> {
        self.bytes@
    }
}

impl View for G1Comp {
    type V = Seq<u8>;

    open spec fn view(&self) -> Seq<u8> {
        self.bytes@
    }
}

impl View for G2Comp {
    type V = Seq<u8>;

    open spec fn view(&self) -> Seq<u8> {
        self.bytes@
    }
}

impl View for FrElem {
    type V = Seq<u8>;

    open spec fn view(&self) -> Seq<u8> {
        self.bytes@
    }
}

/// The bytes are a well-formed uncompressed G1 encoding: canonical field
/// elements and flags, as the format-level decoder accepts them.
pub uninterp spec fn g1_wellformed(b: Seq<u8>) -> bool;

/// The bytes are a well-formed uncompressed G1 encoding of a point on the
/// curve and in the prime-order subgroup.
pub uninterp spec fn g1_valid(b: Seq<u8>) -> bool;

/// The bytes are a well-formed uncompressed G2 encoding.
pub uninterp spec fn g2_wellformed(b: Seq<u8>) -> bool;

/// The bytes are a well-formed uncompressed G2 encoding of a point on the
/// curve and in the prime-order subgroup.
pub uninterp spec fn g2_valid(b: Seq<u8>) -> bool;

/// The bytes are a canonical compressed encoding of a G1 point in the
/// prime-order subgroup.
pub uninterp spec fn g1c_valid(b: Seq<u8>) -> bool;

/// The bytes are a canonical compressed encoding of a G2 point in the
/// prime-order subgroup.
pub uninterp spec fn g2c_valid(b: Seq<u8>) -> bool;

/// The encoding of the sum of the two G1 elements encoded by the arguments.
pub uninterp spec fn g1_add_bytes(a: Seq<u8>, b: Seq<u8>) -> Seq<u8>;

/// The encoding of the G1 element encoded by `base` multiplied by the scalar
/// encoded by `s`.
pub uninterp spec fn g1_mul_bytes(base: Seq<u8>, s: Seq<u8>) -> Seq<u8>;

/// The encoding of the negation of the G1 element encoded by the argument.
pub uninterp spec fn g1_neg_bytes(a: Seq<u8>) -> Seq<u8>;

/// The encoding of the sum of the two G2 elements encoded by the arguments.
pub uninterp spec fn g2_add_bytes(a: Seq<u8>, b: Seq<u8>) -> Seq<u8>;

/// The encoding of the G2 element encoded by `base` multiplied by the scalar
/// encoded by `s`.
pub uninterp spec fn g2_mul_bytes(base: Seq<u8>, s: Seq<u8>) -> Seq<u8>;

/// The encoding of the negation of the G2 element encoded by the argument.
pub uninterp spec fn g2_neg_bytes(a: Seq<u8>) -> Seq<u8>;

/// The bytes are a canonical scalar encoding (a 32-byte little-endian
/// integer below the group order).
pub uninterp spec fn fr_valid(b: Seq<u8>) -> bool;

/// The encoding of the sum (mod the group order) of the scalars encoded by
/// the arguments.
pub uninterp spec fn fr_add_bytes(a: Seq<u8>, b: Seq<u8>) -> Seq<u8>;

/// The encoding of the product (mod the group order) of the scalars encoded
/// by the arguments.
pub uninterp spec fn fr_mul_bytes(a: Seq<u8>, b: Seq<u8>) -> Seq<u8>;

/// The encoding of the multiplicative inverse of the nonzero scalar encoded
/// by the argument.
pub uninterp spec fn fr_inv_bytes(a: Seq<u8>) -> Seq<u8>;

/// The encoding of a generator of the multiplicative subgroup of order
/// `2^k` of the scalar field (the root of unity the evaluation domain of
/// size `2^k` is built on), or of its inverse when `inv` is true.
pub uninterp spec fn fr_domain_gen_bytes(k: u32, inv: bool) -> Seq<u8>;

/// The value of the bilinear pairing on the elements encoded by the
/// arguments, as an abstract code for the target-group element.
pub uninterp spec fn pairing_of(a: Seq<u8>, b: Seq<u8>) -> int;

/// Whether the product of the pairings of the encoded pairs is the identity
/// of the target group.
pub uninterp spec fn miller_product_is_one(pairs: Seq<(Seq<u8>, Seq<u8>)>) -> bool;

/// The canonical uncompressed encoding of the G1 identity: the infinity
/// flag, then zeroes.
pub open spec fn g1_identity_repr() -> Seq<u8> {
    Seq::new(96, |i: int| if i == 0 { 0x40u8 } else { 0u8 })
}

/// The canonical uncompressed encoding of the G2 identity.
pub open spec fn g2_identity_repr() -> Seq<u8> {
    Seq::new(192, |i: int| if i == 0 { 0x40u8 } else { 0u8 })
}

/// The canonical encoding of the zero scalar.
pub open spec fn fr_zero_repr() -> Seq<u8> {
    Seq::new(32, |i: int| 0u8)
}

/// The canonical encoding of the scalar with the small integer value `n`:
/// `n` in little-endian order, then zeroes.
pub open spec fn fr_u64_repr(n: u64) -> Seq<u8> {
    Seq::new(32, |i: int| if i < 8 { (n >> (8 * i)) as u8 } else { 0u8 })
}

/// Relies on `bls12_381::G1Affine::from_uncompressed` (canonical encoding of
/// an on-curve, in-subgroup point) and `from_uncompressed_unchecked`
/// (canonical encoding only); the identity's canonical encoding is accepted
/// by both.
#[verifier::external_body]
pub(crate) fn g1_validate(bytes: &Vec<u8>, checked: bool) -> (r: bool)
    requires
        bytes@.len() == 96,
    ensures
        r == if checked { g1_valid(bytes@) } else { g1_wellformed(bytes@) },
        r ==> g1_wellformed(bytes@),
        bytes@ == g1_identity_repr() ==> r,
{
    let mut a = [0u8; 96];
    a.copy_from_slice(bytes.as_slice());
    if checked {
        bool::from(bls12_381::G1Affine::from_uncompressed(&a).is_some())
    } else {
        bool::from(bls12_381::G1Affine::from_uncompressed_unchecked(&a).is_some())
    }
}

/// Relies on `bls12_381::G2Affine::from_uncompressed` and
/// `from_uncompressed_unchecked`, as for G1.
#[verifier::external_body]
pub(crate) fn g2_validate(bytes: &Vec<u8>, checked: bool) -> (r: bool)
    requires
        bytes@.len() == 192,
    ensures
        r == if checked { g2_valid(bytes@) } else { g2_wellformed(bytes@) },
        r ==> g2_wellformed(bytes@),
        bytes@ == g2_identity_repr() ==> r,
{
    let mut a = [0u8; 192];
    a.copy_from_slice(bytes.as_slice());
    if checked {
        bool::from(bls12_381::G2Affine::from_uncompressed(&a).is_some())
    } else {
        bool::from(bls12_381::G2Affine::from_uncompressed_unchecked(&a).is_some())
    }
}

/// Relies on `bls12_381::G1Affine::from_compressed`: accepts exactly the
/// canonical compressed encodings of in-subgroup points, the identity's
/// canonical compressed encoding among them.
#[verifier::external_body]
pub(crate) fn g1c_validate(bytes: &Vec<u8>) -> (r: bool)
    requires
        bytes@.len() == 48,
    ensures
        r == g1c_valid(bytes@),
        bytes@ == g1c_identity_repr() ==> r,
{
    let mut a = [0u8; 48];
    a.copy_from_slice(bytes.as_slice());
    bool::from(bls12_381::G1Affine::from_compressed(&a).is_some())
}

/// Relies on `bls12_381::G2Affine::from_compressed`, as for G1.
#[verifier::external_body]
pub(crate) fn g2c_validate(bytes: &Vec<u8>) -> (r: bool)
    requires
        bytes@.len() == 96,
    ensures
        r == g2c_valid(bytes@),
        bytes@ == g2c_identity_repr() ==> r,
{
    let mut a = [0u8; 96];
    a.copy_from_slice(bytes.as_slice());
    bool::from(bls12_381::G2Affine::from_compressed(&a).is_some())
}

/// The canonical compressed encoding of the G1 identity.
pub open spec fn g1c_identity_repr() -> Seq<u8> {
    Seq::new(48, |i: int| if i == 0 { 0xc0u8 } else { 0u8 })
}

/// The canonical compressed encoding of the G2 identity.
pub open spec fn g2c_identity_repr() -> Seq<u8> {
    Seq::new(96, |i: int| if i == 0 { 0xc0u8 } else { 0u8 })
}

/// Relies on `bls12_381::G1Affine::identity` and `to_uncompressed`: the
/// identity encodes as the infinity flag followed by zeroes, and that
/// encoding is well-formed and valid.
#[verifier::external_body]
pub(crate) fn g1_identity() -> (r: G1Elem)
    ensures
        r@ == g1_identity_repr(),
        g1_wellformed(r@),
        g1_valid(r@),
{
    G1Elem { bytes: bls12_381::G1Affine::identity().to_uncompressed().to_vec() }
}

/// Relies on `bls12_381::G2Affine::identity` and `to_uncompressed`, as for G1.
#[verifier::external_body]
pub(crate) fn g2_identity() -> (r: G2Elem)
    ensures
        r@ == g2_identity_repr(),
        g2_wellformed(r@),
        g2_valid(r@),
{
    G2Elem { bytes: bls12_381::G2Affine::identity().to_uncompressed().to_vec() }
}

/// Relies on G1 point addition of `bls12_381` (`G1Projective` `+`); the sum
/// is re-encoded canonically, so the result is well-formed, and the
/// prime-order subgroup is closed under addition.
#[verifier::external_body]
pub(crate) fn g1_add(a: &G1Elem, b: &G1Elem) -> (r: G1Elem)
    requires
        g1_wellformed(a@),
        g1_wellformed(b@),
    ensures
        r@ == g1_add_bytes(a@, b@),
        g1_wellformed(r@),
        r@.len() == 96,
        g1_valid(a@) && g1_valid(b@) ==> g1_valid(r@),
{
    let mut ab = [0u8; 96];
    ab.copy_from_slice(a.bytes.as_slice());
    let mut bb = [0u8; 96];
    bb.copy_from_slice(b.bytes.as_slice());
    let pa = bls12_381::G1Projective::from(bls12_381::G1Affine::from_uncompressed_unchecked(&ab).unwrap());
    let pb = bls12_381::G1Projective::from(bls12_381::G1Affine::from_uncompressed_unchecked(&bb).unwrap());
    G1Elem { bytes: bls12_381::G1Affine::from(pa + pb).to_uncompressed().to_vec() }
}

/// Relies on G1 scalar multiplication of `bls12_381` (`G1Projective` `*`);
/// the prime-order subgroup is closed under scalar multiplication.
#[verifier::external_body]
pub(crate) fn g1_mul(base: &G1Elem, s: &FrElem) -> (r: G1Elem)
    requires
        g1_wellformed(base@),
        fr_valid(s@),
    ensures
        r@ == g1_mul_bytes(base@, s@),
        g1_wellformed(r@),
        r@.len() == 96,
        g1_valid(base@) ==> g1_valid(r@),
{
    let mut bb = [0u8; 96];
    bb.copy_from_slice(base.bytes.as_slice());
    let mut sb = [0u8; 32];
    sb.copy_from_slice(s.bytes.as_slice());
    let p = bls12_381::G1Projective::from(bls12_381::G1Affine::from_uncompressed_unchecked(&bb).unwrap());
    let k = bls12_381::Scalar::from_bytes(&sb).unwrap();
    G1Elem { bytes: bls12_381::G1Affine::from(p * k).to_uncompressed().to_vec() }
}

/// Relies on G1 negation of `bls12_381` (`G1Affine` `-`); the prime-order
/// subgroup is closed under negation.
#[verifier::external_body]
pub(crate) fn g1_neg(a: &G1Elem) -> (r: G1Elem)
    requires
        g1_wellformed(a@),
    ensures
        r@ == g1_neg_bytes(a@),
        g1_wellformed(r@),
        r@.len() == 96,
        g1_valid(a@) ==> g1_valid(r@),
{
    let mut ab = [0u8; 96];
    ab.copy_from_slice(a.bytes.as_slice());
    let pa = bls12_381::G1Affine::from_uncompressed_unchecked(&ab).unwrap();
    G1Elem { bytes: (-pa).to_uncompressed().to_vec() }
}

/// Relies on G2 point addition of `bls12_381` (`G2Projective` `+`); the
/// prime-order subgroup is closed under addition.
#[verifier::external_body]
pub(crate) fn g2_add(a: &G2Elem, b: &G2Elem) -> (r: G2Elem)
    requires
        g2_wellformed(a@),
        g2_wellformed(b@),
    ensures
        r@ == g2_add_bytes(a@, b@),
        g2_wellformed(r@),
        r@.len() == 192,
        g2_valid(a@) && g2_valid(b@) ==> g2_valid(r@),
{
    let mut ab = [0u8; 192];
    ab.copy_from_slice(a.bytes.as_slice());
    let mut bb = [0u8; 192];
    bb.copy_from_slice(b.bytes.as_slice());
    let pa = bls12_381::G2Projective::from(bls12_381::G2Affine::from_uncompressed_unchecked(&ab).unwrap());
    let pb = bls12_381::G2Projective::from(bls12_381::G2Affine::from_uncompressed_unchecked(&bb).unwrap());
    G2Elem { bytes: bls12_381::G2Affine::from(pa + pb).to_uncompressed().to_vec() }
}

/// Relies on G2 scalar multiplication of `bls12_381` (`G2Projective` `*`);
/// the prime-order subgroup is closed under scalar multiplication.
#[verifier::external_body]
pub(crate) fn g2_mul(base: &G2Elem, s: &FrElem) -> (r: G2Elem)
    requires
        g2_wellformed(base@),
        fr_valid(s@),
    ensures
        r@ == g2_mul_bytes(base@, s@),
        g2_wellformed(r@),
        r@.len() == 192,
        g2_valid(base@) ==> g2_valid(r@),
{
    let mut bb = [0u8; 192];
    bb.copy_from_slice(base.bytes.as_slice());
    let mut sb = [0u8; 32];
    sb.copy_from_slice(s.bytes.as_slice());
    let p = bls12_381::G2Projective::from(bls12_381::G2Affine::from_uncompressed_unchecked(&bb).unwrap());
    let k = bls12_381::Scalar::from_bytes(&sb).unwrap();
    G2Elem { bytes: bls12_381::G2Affine::from(p * k).to_uncompressed().to_vec() }
}

/// Relies on G2 negation of `bls12_381` (`G2Affine` `-`); the prime-order
/// subgroup is closed under negation.
#[verifier::external_body]
pub(crate) fn g2_neg(a: &G2Elem) -> (r: G2Elem)
    requires
        g2_wellformed(a@),
    ensures
        r@ == g2_neg_bytes(a@),
        g2_wellformed(r@),
        r@.len() == 192,
        g2_valid(a@) ==> g2_valid(r@),
{
    let mut ab = [0u8; 192];
    ab.copy_from_slice(a.bytes.as_slice());
    let pa = bls12_381::G2Affine::from_uncompressed_unchecked(&ab).unwrap();
    G2Elem { bytes: (-pa).to_uncompressed().to_vec() }
}

/// Relies on `bls12_381::Scalar::from` (of `u64`) and `to_bytes`: a small
/// integer encodes as itself in little-endian order.
#[verifier::external_body]
pub(crate) fn fr_from_u64(n: u64) -> (r: FrElem)
    ensures
        r@ == fr_u64_repr(n),
        fr_valid(r@),
{
    FrElem { bytes: bls12_381::Scalar::from(n).to_bytes().to_vec() }
}

/// Relies on `bls12_381::Scalar::from_bytes`: accepts exactly the canonical
/// little-endian encodings of integers below the group order.
#[verifier::external_body]
pub(crate) fn fr_validate(bytes: &Vec<u8>) -> (r: bool)
    requires
        bytes@.len() == 32,
    ensures
        r == fr_valid(bytes@),
{
    let mut a = [0u8; 32];
    a.copy_from_slice(bytes.as_slice());
    bool::from(bls12_381::Scalar::from_bytes(&a).is_some())
}

/// Relies on scalar addition of `bls12_381` (`Scalar` `+`).
#[verifier::external_body]
pub(crate) fn fr_add(a: &FrElem, b: &FrElem) -> (r: FrElem)
    requires
        fr_valid(a@),
        fr_valid(b@),
    ensures
        r@ == fr_add_bytes(a@, b@),
        fr_valid(r@),
        r@.len() == 32,
{
    let mut ab = [0u8; 32];
    ab.copy_from_slice(a.bytes.as_slice());
    let mut bb = [0u8; 32];
    bb.copy_from_slice(b.bytes.as_slice());
    let sa = bls12_381::Scalar::from_bytes(&ab).unwrap();
    let sb = bls12_381::Scalar::from_bytes(&bb).unwrap();
    FrElem { bytes: (sa + sb).to_bytes().to_vec() }
}

/// Relies on scalar multiplication of `bls12_381` (`Scalar` `*`).
#[verifier::external_body]
pub(crate) fn fr_mul(a: &FrElem, b: &FrElem) -> (r: FrElem)
    requires
        fr_valid(a@),
        fr_valid(b@),
    ensures
        r@ == fr_mul_bytes(a@, b@),
        fr_valid(r@),
        r@.len() == 32,
{
    let mut ab = [0u8; 32];
    ab.copy_from_slice(a.bytes.as_slice());
    let mut bb = [0u8; 32];
    bb.copy_from_slice(b.bytes.as_slice());
    let sa = bls12_381::Scalar::from_bytes(&ab).unwrap();
    let sb = bls12_381::Scalar::from_bytes(&bb).unwrap();
    FrElem { bytes: (sa * sb).to_bytes().to_vec() }
}

/// Relies on `bls12_381::Scalar::invert`: `None` exactly for the zero
/// scalar, the inverse otherwise.
#[verifier::external_body]
pub(crate) fn fr_invert(a: &FrElem) -> (r: Option<FrElem>)
    requires
        fr_valid(a@),
    ensures
        r is None <==> a@ == fr_zero_repr(),
        r is Some ==> r->0@ == fr_inv_bytes(a@) && fr_valid(r->0@) && r->0@.len() == 32,
{
    let mut ab = [0u8; 32];
    ab.copy_from_slice(a.bytes.as_slice());
    let sa = bls12_381::Scalar::from_bytes(&ab).unwrap();
    let inv = sa.invert();
    if bool::from(inv.is_some()) {
        Some(FrElem { bytes: inv.unwrap().to_bytes().to_vec() })
    } else {
        None
    }
}

/// Relies on `Scalar::ROOT_OF_UNITY` / `ROOT_OF_UNITY_INV` (of order `2^32`)
/// and `Scalar::pow`: raising to `2^(32-k)` gives a generator of the order
/// `2^k` subgroup, which is never zero.
#[verifier::external_body]
pub(crate) fn fr_domain_gen(k: u32, inv: bool) -> (r: FrElem)
    requires
        k <= 32,
    ensures
        r@ == fr_domain_gen_bytes(k, inv),
        fr_valid(r@),
        r@.len() == 32,
        r@ != fr_zero_repr(),
{
    let root = if inv {
        <bls12_381::Scalar as ff::PrimeField>::ROOT_OF_UNITY_INV
    } else {
        <bls12_381::Scalar as ff::PrimeField>::ROOT_OF_UNITY
    };
    FrElem { bytes: root.pow(&[1u64 << (32 - k), 0, 0, 0]).to_bytes().to_vec() }
}

/// Relies on `bls12_381::pairing`: on points of the prime-order subgroups
/// the Miller value is invertible, so the final exponentiation is defined,
/// and the pairing value is a function of the two canonical encodings alone.
#[verifier::external_body]
pub(crate) fn pairing_eq(a: &G1Elem, b: &G2Elem, c: &G1Elem, d: &G2Elem) -> (r: bool)
    requires
        g1_wellformed(a@),
        g2_wellformed(b@),
        g1_wellformed(c@),
        g2_wellformed(d@),
        g1_valid(a@),
        g2_valid(b@),
        g1_valid(c@),
        g2_valid(d@),
    ensures
        r == (pairing_of(a@, b@) == pairing_of(c@, d@)),
{
    let dec1 = |e: &G1Elem| {
        let mut eb = [0u8; 96];
        eb.copy_from_slice(e.bytes.as_slice());
        bls12_381::G1Affine::from_uncompressed_unchecked(&eb).unwrap()
    };
    let dec2 = |e: &G2Elem| {
        let mut eb = [0u8; 192];
        eb.copy_from_slice(e.bytes.as_slice());
        bls12_381::G2Affine::from_uncompressed_unchecked(&eb).unwrap()
    };
    bls12_381::pairing(&dec1(a), &dec2(b)) == bls12_381::pairing(&dec1(c), &dec2(d))
}

/// Relies on `bls12_381::multi_miller_loop` and
/// `MillerLoopResult::final_exponentiation`: on points of the prime-order
/// subgroups the Miller product is invertible, so the final exponentiation
/// is defined, and whether the product of the pairings is the identity of
/// the target group is a function of the canonical encodings alone.
#[verifier::external_body]
pub(crate) fn gt_product_is_one(pairs: &Vec<(G1Elem, G2Elem)>) -> (r: bool)
    requires
        forall|i: int|
            0 <= i < pairs@.len() ==> g1_wellformed(#[trigger] pairs@[i].0@) && g2_wellformed(
                pairs@[i].1@,
            ) && g1_valid(pairs@[i].0@) && g2_valid(pairs@[i].1@),
    ensures
        r == miller_product_is_one(pairs@.map_values(|p: (G1Elem, G2Elem)| (p.0@, p.1@))),
{
    let dec = |p: &(G1Elem, G2Elem)| {
        let a = bls12_381::G1Affine::from_uncompressed_unchecked(
            p.0.bytes[..].try_into().unwrap(),
        ).unwrap();
        let b = bls12_381::G2Affine::from_uncompressed_unchecked(
            p.1.bytes[..].try_into().unwrap(),
        ).unwrap();
        (a, bls12_381::G2Prepared::from(b))
    };
    let dv: std::vec::Vec<_> = pairs.iter().map(dec).collect();
    let rv: std::vec::Vec<_> = dv.iter().map(|p| (&p.0, &p.1)).collect();
    bls12_381::multi_miller_loop(rv.as_slice()).final_exponentiation() == bls12_381::Gt::identity()
}

#[verifier::external_type_specification]
#[verifier::external_body]
pub struct ExGt(bls12_381::Gt);

/// Relies on `bls12_381::pairing`: on points of the prime-order subgroups
/// the final exponentiation is defined.  The target-group value is kept
/// opaque (it has no byte view a contract could speak of), only to be
/// cached next to a verifying key.
#[verifier::external_body]
pub(crate) fn pairing_gt(a: &G1Elem, b: &G2Elem) -> (r: bls12_381::Gt)
    requires
        g1_wellformed(a@),
        g2_wellformed(b@),
        g1_valid(a@),
        g2_valid(b@),
{
    let mut ab = [0u8; 96];
    ab.copy_from_slice(a.bytes.as_slice());
    let mut bb = [0u8; 192];
    bb.copy_from_slice(b.bytes.as_slice());
    let pa = bls12_381::G1Affine::from_uncompressed_unchecked(&ab).unwrap();
    let pb = bls12_381::G2Affine::from_uncompressed_unchecked(&bb).unwrap();
    bls12_381::pairing(&pa, &pb)
}

#[verifier::external_type_specification]
#[verifier::external_body]
pub struct ExOsRng(rand_core::OsRng);

/// A source of audit randomness, backed by the operating system's generator.
pub struct CrsRng {
    rng: rand_core::OsRng,
}

impl CrsRng {
    /// Relies on `rand_core::OsRng` being a stateless handle to the
    /// operating system's random generator.
    #[verifier::external_body]
    pub fn new() -> (r: CrsRng) {
        CrsRng { rng: rand_core::OsRng }
    }
}

/// Relies on `ff::Field::random` for `bls12_381::Scalar`: whatever is drawn,
/// its canonical encoding is a valid scalar encoding.  Nothing else is
/// promised of the drawn value.
#[verifier::external_body]
pub(crate) fn fr_random(rng: &mut CrsRng) -> (r: FrElem)
    ensures
        fr_valid(r@),
        r@.len() == 32,
{
    FrElem { bytes: <bls12_381::Scalar as ff::Field>::random(&mut rng.rng).to_bytes().to_vec() }
}

/// Byte-string equality, checked element by element.
pub fn bytes_eq(a: &Vec<u8>, b: &Vec<u8>) -> (r: bool)
    ensures
        r == (a@ == b@),
{
    if a.len() != b.len() {
        return false;
    }
    let mut i: usize = 0;
    while i < a.len()
        invariant
            0 <= i <= a@.len(),
            a@.len() == b@.len(),
            forall|j: int| 0 <= j < i ==> a@[j] == b@[j],
        decreases a@.len() - i,
    {
        if a[i] != b[i] {
            return false;
        }
        i += 1;
    }
    proof {
        assert(a@ =~= b@);
    }
    true
}

/// A copy of a byte string.
pub fn bytes_dup(a: &Vec<u8>) -> (r: Vec<u8>)
    ensures
        r@ == a@,
{
    let mut r: Vec<u8> = Vec::new();
    let mut i: usize = 0;
    while i < a.len()
        invariant
            0 <= i <= a@.len(),
            r@ == a@.subrange(0, i as int),
        decreases a@.len() - i,
    {
        r.push(a[i]);
        proof {
            assert(r@ =~= a@.subrange(0, i + 1 as int));
        }
        i += 1;
    }
    proof {
        assert(r@ =~= a@);
    }
    r
}

impl G1Elem {
    /// A copy of this element.
    pub fn dup(&self) -> (r: G1Elem)
        ensures
            r@ == self@,
    {
        G1Elem { bytes: bytes_dup(&self.bytes) }
    }
}

impl G2Elem {
    /// A copy of this element.
    pub fn dup(&self) -> (r: G2Elem)
        ensures
            r@ == self@,
    {
        G2Elem { bytes: bytes_dup(&self.bytes) }
    }
}

impl FrElem {
    /// A copy of this scalar.
    pub fn dup(&self) -> (r: FrElem)
        ensures
            r@ == self@,
    {
        FrElem { bytes: bytes_dup(&self.bytes) }
    }
}

impl PartialEq for G1Elem {
    fn eq(&self, other: &Self) -> bool {
        bytes_eq(&self.bytes, &other.bytes)
    }
}

impl vstd::std_specs::cmp::PartialEqSpecImpl for G1Elem {
    open spec fn obeys_eq_spec() -> bool {
        true
    }

    open spec fn eq_spec(&self, other: &Self) -> bool {
        self.bytes@ == other.bytes@
    }
}

impl Eq for G1Elem {

}

impl PartialEq for G2Elem {
    fn eq(&self, other: &Self) -> bool {
        bytes_eq(&self.bytes, &other.bytes)
    }
}

impl vstd::std_specs::cmp::PartialEqSpecImpl for G2Elem {
    open spec fn obeys_eq_spec() -> bool {
        true
    }

    open spec fn eq_spec(&self, other: &Self) -> bool {
        self.bytes@ == other.bytes@
    }
}

impl Eq for G2Elem {

}

impl PartialEq for G1Comp {
    fn eq(&self, other: &Self) -> bool {
        bytes_eq(&self.bytes, &other.bytes)
    }
}

impl vstd::std_specs::cmp::PartialEqSpecImpl for G1Comp {
    open spec fn obeys_eq_spec() -> bool {
        true
    }

    open spec fn eq_spec(&self, other: &Self) -> bool {
        self.bytes@ == other.bytes@
    }
}

impl Eq for G1Comp {

}

impl PartialEq for G2Comp {
    fn eq(&self, other: &Self) -> bool {
        bytes_eq(&self.bytes, &other.bytes)
    }
}

impl vstd::std_specs::cmp::PartialEqSpecImpl for G2Comp {
    open spec fn obeys_eq_spec() -> bool {
        true
    }

    open spec fn eq_spec(&self, other: &Self) -> bool {
        self.bytes@ == other.bytes@
    }
}

impl Eq for G2Comp {

}

impl PartialEq for FrElem {
    fn eq(&self, other: &Self) -> bool {
        bytes_eq(&self.bytes, &other.bytes)
    }
}

impl vstd::std_specs::cmp::PartialEqSpecImpl for FrElem {
    open spec fn obeys_eq_spec() -> bool {
        true
    }

    open spec fn eq_spec(&self, other: &Self) -> bool {
        self.bytes@ == other.bytes@
    }
}

impl Eq for FrElem {

}

} // verus!

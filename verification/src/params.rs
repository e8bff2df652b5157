//! The Groth16 CRS data model: proofs, verifying keys, proving parameters,
//! and the audit-extended parameters carrying the encoded powers of tau.

use vstd::prelude::*;

use crate::curve::{
    bytes_eq, g1_identity_repr, g1_valid, g1_wellformed, g1c_identity_repr, g1c_valid,
    g2_identity_repr, g2_neg, g2_neg_bytes, g2_valid, g2_wellformed, g2c_identity_repr, g2c_valid,
    pairing_gt, G1Comp, G1Elem, G2Comp, G2Elem,
};

verus! {

/// A Groth16 proof: two G1 elements and one G2 element, compressed.
pub struct Proof {
    pub a: G1Comp,
    pub b: G2Comp,
    pub c: G1Comp,
}

/// The view of a proof: the three compressed encodings.
#[verifier::ext_equal]
pub ghost struct ProofView {
    pub a: Seq<u8>,
    pub b: Seq<u8>,
    pub c: Seq<u8>,
}

impl View for Proof {
    type V = ProofView;

    open spec fn view(&self) -> ProofView {
        ProofView { a: self.a@, b: self.b@, c: self.c@ }
    }
}

/// The sequence of encodings of a sequence of G1 elements.
pub open spec fn g1_views(s: Seq<G1Elem>) -> Seq<Seq<u8>> {
    Seq::new(s.len(), |i: int| s[i]@)
}

/// The sequence of encodings of a sequence of G2 elements.
pub open spec fn g2_views(s: Seq<G2Elem>) -> Seq<Seq<u8>> {
    Seq::new(s.len(), |i: int| s[i]@)
}

/// A Groth16 verifying key.  The six fixed elements and every entry of `ic`
/// are never the group identity in an honestly generated key, and the codec
/// refuses to decode them as such.
pub struct VerifyingKey {
    pub alpha_g1: G1Elem,
    pub beta_g1: G1Elem,
    pub beta_g2: G2Elem,
    pub gamma_g2: G2Elem,
    pub delta_g1: G1Elem,
    pub delta_g2: G2Elem,
    /// One G1 element per public input, the constant-one input included.
    pub ic: Vec<G1Elem>,
}

/// The view of a verifying key: the uncompressed encodings of its elements.
#[verifier::ext_equal]
pub ghost struct VkView {
    pub alpha_g1: Seq<u8>,
    pub beta_g1: Seq<u8>,
    pub beta_g2: Seq<u8>,
    pub gamma_g2: Seq<u8>,
    pub delta_g1: Seq<u8>,
    pub delta_g2: Seq<u8>,
    pub ic: Seq<Seq<u8>>,
}

impl View for VerifyingKey {
    type V = VkView;

    open spec fn view(&self) -> VkView {
        VkView {
            alpha_g1: self.alpha_g1@,
            beta_g1: self.beta_g1@,
            beta_g2: self.beta_g2@,
            gamma_g2: self.gamma_g2@,
            delta_g1: self.delta_g1@,
            delta_g2: self.delta_g2@,
            ic: g1_views(self.ic@),
        }
    }
}

/// The full proving-and-verifying CRS.  Wire polynomials whose evaluation is
/// zero are omitted from `a`, `b_g1` and `b_g2`, not stored as the identity.
pub struct Parameters {
    pub vk: VerifyingKey,
    /// `(tau^i * z(tau)) / delta` in G1, for `i` below the domain size less one.
    pub h: Vec<G1Elem>,
    /// `(beta u_i(tau) + alpha v_i(tau) + w_i(tau)) / delta` in G1, one entry
    /// per auxiliary wire.
    pub l: Vec<G1Elem>,
    /// The nonzero `u_i(tau)` in G1.
    pub a: Vec<G1Elem>,
    /// The nonzero `v_i(tau)` in G1.
    pub b_g1: Vec<G1Elem>,
    /// The nonzero `v_i(tau)` in G2.
    pub b_g2: Vec<G2Elem>,
}

/// The view of the CRS: encodings of its elements.
#[verifier::ext_equal]
pub ghost struct ParamsView {
    pub vk: VkView,
    pub h: Seq<Seq<u8>>,
    pub l: Seq<Seq<u8>>,
    pub a: Seq<Seq<u8>>,
    pub b_g1: Seq<Seq<u8>>,
    pub b_g2: Seq<Seq<u8>>,
}

impl View for Parameters {
    type V = ParamsView;

    open spec fn view(&self) -> ParamsView {
        ParamsView {
            vk: self.vk@,
            h: g1_views(self.h@),
            l: g1_views(self.l@),
            a: g1_views(self.a@),
            b_g1: g1_views(self.b_g1@),
            b_g2: g2_views(self.b_g2@),
        }
    }
}

/// The CRS together with the encoded powers of the trapdoor `tau`, as the
/// audit consumes them: `taus_g1[i]` and `taus_g2[i]` encode `tau^i` in each
/// group, the generators standing at index zero.
pub struct ExtendedParameters {
    pub params: Parameters,
    pub taus_g1: Vec<G1Elem>,
    pub taus_g2: Vec<G2Elem>,
}

/// The view of the extended CRS.
#[verifier::ext_equal]
pub ghost struct ExtView {
    pub params: ParamsView,
    pub taus_g1: Seq<Seq<u8>>,
    pub taus_g2: Seq<Seq<u8>>,
}

impl View for ExtendedParameters {
    type V = ExtView;

    open spec fn view(&self) -> ExtView {
        ExtView {
            params: self.params@,
            taus_g1: g1_views(self.taus_g1@),
            taus_g2: g2_views(self.taus_g2@),
        }
    }
}

/// A verifier-side cache derived from a verifying key: the constant pairing
/// `e(alpha_g1, beta_g2)`, the negated `gamma_g2` and `delta_g2`, and a copy
/// of `ic`.
pub struct PreparedVerifyingKey {
    pub alpha_g1_beta_g2: bls12_381::Gt,
    pub neg_gamma_g2: G2Elem,
    pub neg_delta_g2: G2Elem,
    pub ic: Vec<G1Elem>,
}

/// The view of the cache: the encodings of its group elements (the opaque
/// target-group constant is not modelled).
#[verifier::ext_equal]
pub ghost struct PvkView {
    pub neg_gamma_g2: Seq<u8>,
    pub neg_delta_g2: Seq<u8>,
    pub ic: Seq<Seq<u8>>,
}

impl View for PreparedVerifyingKey {
    type V = PvkView;

    open spec fn view(&self) -> PvkView {
        PvkView {
            neg_gamma_g2: self.neg_gamma_g2@,
            neg_delta_g2: self.neg_delta_g2@,
            ic: g1_views(self.ic@),
        }
    }
}

/// Derives the verifier-side cache from a verifying key, whose elements
/// must be fully valid (the cached pairing is only defined on points of the
/// prime-order subgroups).
pub fn prepare_verifying_key(vk: &VerifyingKey) -> (r: PreparedVerifyingKey)
    requires
        vk@.valid(),
    ensures
        r@.neg_gamma_g2 == g2_neg_bytes(vk@.gamma_g2),
        r@.neg_delta_g2 == g2_neg_bytes(vk@.delta_g2),
        r@.ic == vk@.ic,
{
    let gt = pairing_gt(&vk.alpha_g1, &vk.beta_g2);
    let r = PreparedVerifyingKey {
        alpha_g1_beta_g2: gt,
        neg_gamma_g2: g2_neg(&vk.gamma_g2),
        neg_delta_g2: g2_neg(&vk.delta_g2),
        ic: g1_vec_dup(&vk.ic),
    };
    proof {
        assert(r@.ic =~= vk@.ic);
    }
    r
}

/// An element encoding a decoder in either mode accepts for a fixed G1
/// field: well-formed, fully valid, and not the identity.
pub open spec fn g1_elem_ok(b: Seq<u8>) -> bool {
    b.len() == 96 && g1_wellformed(b) && g1_valid(b) && b != g1_identity_repr()
}

/// As `g1_elem_ok`, for G2.
pub open spec fn g2_elem_ok(b: Seq<u8>) -> bool {
    b.len() == 192 && g2_wellformed(b) && g2_valid(b) && b != g2_identity_repr()
}

/// Every element of the sequence satisfies `g1_elem_ok`.
pub open spec fn g1_seq_ok(s: Seq<Seq<u8>>) -> bool {
    forall|i: int| 0 <= i < s.len() ==> g1_elem_ok(#[trigger] s[i])
}

/// Every element of the sequence satisfies `g2_elem_ok`.
pub open spec fn g2_seq_ok(s: Seq<Seq<u8>>) -> bool {
    forall|i: int| 0 <= i < s.len() ==> g2_elem_ok(#[trigger] s[i])
}

/// Every element of the sequence is a fully valid uncompressed G1 encoding:
/// canonical, on the curve, in the prime-order subgroup.
pub open spec fn g1_seq_valid(s: Seq<Seq<u8>>) -> bool {
    forall|i: int|
        0 <= i < s.len() ==> (#[trigger] s[i]).len() == 96 && g1_wellformed(s[i]) && g1_valid(
            s[i],
        )
}

/// As `g1_seq_valid`, for G2.
pub open spec fn g2_seq_valid(s: Seq<Seq<u8>>) -> bool {
    forall|i: int|
        0 <= i < s.len() ==> (#[trigger] s[i]).len() == 192 && g2_wellformed(s[i]) && g2_valid(
            s[i],
        )
}

impl ProofView {
    /// A proof value the codec can write and read back: valid compressed
    /// encodings, none of them the identity.
    pub open spec fn codec_valid(self) -> bool {
        &&& self.a.len() == 48
        &&& self.b.len() == 96
        &&& self.c.len() == 48
        &&& g1c_valid(self.a)
        &&& g2c_valid(self.b)
        &&& g1c_valid(self.c)
        &&& self.a != g1c_identity_repr()
        &&& self.b != g2c_identity_repr()
        &&& self.c != g1c_identity_repr()
    }
}

impl VkView {
    /// A verifying key the codec can write and read back.
    pub open spec fn codec_valid(self) -> bool {
        &&& g1_elem_ok(self.alpha_g1)
        &&& g1_elem_ok(self.beta_g1)
        &&& g2_elem_ok(self.beta_g2)
        &&& g2_elem_ok(self.gamma_g2)
        &&& g1_elem_ok(self.delta_g1)
        &&& g2_elem_ok(self.delta_g2)
        &&& g1_seq_ok(self.ic)
        &&& self.ic.len() <= u32::MAX
    }

    /// Every element of the key is a fully valid encoding: canonical, on
    /// the curve and in the prime-order subgroup — what the pairing
    /// operations of the audit and of key preparation need.
    pub open spec fn valid(self) -> bool {
        &&& self.alpha_g1.len() == 96 && g1_wellformed(self.alpha_g1) && g1_valid(self.alpha_g1)
        &&& self.beta_g1.len() == 96 && g1_wellformed(self.beta_g1) && g1_valid(self.beta_g1)
        &&& self.beta_g2.len() == 192 && g2_wellformed(self.beta_g2) && g2_valid(self.beta_g2)
        &&& self.gamma_g2.len() == 192 && g2_wellformed(self.gamma_g2) && g2_valid(self.gamma_g2)
        &&& self.delta_g1.len() == 96 && g1_wellformed(self.delta_g1) && g1_valid(self.delta_g1)
        &&& self.delta_g2.len() == 192 && g2_wellformed(self.delta_g2) && g2_valid(self.delta_g2)
        &&& g1_seq_valid(self.ic)
    }
}

impl ParamsView {
    /// A CRS the codec can write and read back.
    pub open spec fn codec_valid(self) -> bool {
        &&& self.vk.codec_valid()
        &&& g1_seq_ok(self.h)
        &&& g1_seq_ok(self.l)
        &&& g1_seq_ok(self.a)
        &&& g1_seq_ok(self.b_g1)
        &&& g2_seq_ok(self.b_g2)
        &&& self.h.len() <= u32::MAX
        &&& self.l.len() <= u32::MAX
        &&& self.a.len() <= u32::MAX
        &&& self.b_g1.len() <= u32::MAX
        &&& self.b_g2.len() <= u32::MAX
    }
}

impl ExtView {
    /// An extended CRS the codec can write and read back.
    pub open spec fn codec_valid(self) -> bool {
        &&& self.params.codec_valid()
        &&& g1_seq_ok(self.taus_g1)
        &&& g2_seq_ok(self.taus_g2)
        &&& self.taus_g1.len() <= u32::MAX
        &&& self.taus_g2.len() <= u32::MAX
    }
}

/// Element-wise equality of two G1 vectors.
pub fn g1_vec_eq(a: &Vec<G1Elem>, b: &Vec<G1Elem>) -> (r: bool)
    ensures
        r == (g1_views(a@) == g1_views(b@)),
{
    if a.len() != b.len() {
        proof {
            assert(g1_views(a@).len() != g1_views(b@).len());
        }
        return false;
    }
    let mut i: usize = 0;
    while i < a.len()
        invariant
            0 <= i <= a@.len(),
            a@.len() == b@.len(),
            forall|j: int| 0 <= j < i ==> g1_views(a@)[j] == g1_views(b@)[j],
        decreases a@.len() - i,
    {
        if !bytes_eq(&a[i].bytes, &b[i].bytes) {
            proof {
                assert(g1_views(a@)[i as int] != g1_views(b@)[i as int]);
            }
            return false;
        }
        i += 1;
    }
    proof {
        assert(g1_views(a@) =~= g1_views(b@));
    }
    true
}

/// Element-wise equality of two G2 vectors.
pub fn g2_vec_eq(a: &Vec<G2Elem>, b: &Vec<G2Elem>) -> (r: bool)
    ensures
        r == (g2_views(a@) == g2_views(b@)),
{
    if a.len() != b.len() {
        proof {
            assert(g2_views(a@).len() != g2_views(b@).len());
        }
        return false;
    }
    let mut i: usize = 0;
    while i < a.len()
        invariant
            0 <= i <= a@.len(),
            a@.len() == b@.len(),
            forall|j: int| 0 <= j < i ==> g2_views(a@)[j] == g2_views(b@)[j],
        decreases a@.len() - i,
    {
        if !bytes_eq(&a[i].bytes, &b[i].bytes) {
            proof {
                assert(g2_views(a@)[i as int] != g2_views(b@)[i as int]);
            }
            return false;
        }
        i += 1;
    }
    proof {
        assert(g2_views(a@) =~= g2_views(b@));
    }
    true
}

/// A copy of a G1 vector.
pub fn g1_vec_dup(a: &Vec<G1Elem>) -> (r: Vec<G1Elem>)
    ensures
        g1_views(r@) == g1_views(a@),
        r@.len() == a@.len(),
{
    let mut r: Vec<G1Elem> = Vec::new();
    let mut i: usize = 0;
    while i < a.len()
        invariant
            0 <= i <= a@.len(),
            r@.len() == i,
            forall|j: int| 0 <= j < i ==> g1_views(r@)[j] == g1_views(a@)[j],
        decreases a@.len() - i,
    {
        r.push(a[i].dup());
        i += 1;
    }
    proof {
        assert(g1_views(r@) =~= g1_views(a@));
    }
    r
}

/// A copy of a G2 vector.
pub fn g2_vec_dup(a: &Vec<G2Elem>) -> (r: Vec<G2Elem>)
    ensures
        g2_views(r@) == g2_views(a@),
        r@.len() == a@.len(),
{
    let mut r: Vec<G2Elem> = Vec::new();
    let mut i: usize = 0;
    while i < a.len()
        invariant
            0 <= i <= a@.len(),
            r@.len() == i,
            forall|j: int| 0 <= j < i ==> g2_views(r@)[j] == g2_views(a@)[j],
        decreases a@.len() - i,
    {
        r.push(a[i].dup());
        i += 1;
    }
    proof {
        assert(g2_views(r@) =~= g2_views(a@));
    }
    r
}

impl VerifyingKey {
    /// A deep copy of this key.
    pub fn dup(&self) -> (r: VerifyingKey)
        ensures
            r@ == self@,
    {
        let r = VerifyingKey {
            alpha_g1: self.alpha_g1.dup(),
            beta_g1: self.beta_g1.dup(),
            beta_g2: self.beta_g2.dup(),
            gamma_g2: self.gamma_g2.dup(),
            delta_g1: self.delta_g1.dup(),
            delta_g2: self.delta_g2.dup(),
            ic: g1_vec_dup(&self.ic),
        };
        proof {
            assert(r@ =~= self@);
        }
        r
    }
}

impl Parameters {
    /// The verifying key, as a copy.
    pub fn get_vk(&self) -> (r: VerifyingKey)
        ensures
            r@ == self.vk@,
    {
        self.vk.dup()
    }

    /// The H query.
    pub fn get_h(&self) -> (r: &Vec<G1Elem>)
        ensures
            g1_views(r@) == self@.h,
    {
        &self.h
    }

    /// The L query (the auxiliary-wire combinations divided by delta).
    pub fn get_l(&self) -> (r: &Vec<G1Elem>)
        ensures
            g1_views(r@) == self@.l,
    {
        &self.l
    }

    /// The A query (the nonzero QAP A-polynomial evaluations).
    pub fn get_a(&self) -> (r: &Vec<G1Elem>)
        ensures
            g1_views(r@) == self@.a,
    {
        &self.a
    }

    /// The B query in G1.
    pub fn get_b_g1(&self) -> (r: &Vec<G1Elem>)
        ensures
            g1_views(r@) == self@.b_g1,
    {
        &self.b_g1
    }

    /// The B query in G2.
    pub fn get_b_g2(&self) -> (r: &Vec<G2Elem>)
        ensures
            g2_views(r@) == self@.b_g2,
    {
        &self.b_g2
    }
}

impl PartialEq for Proof {
    fn eq(&self, other: &Self) -> bool {
        let r = bytes_eq(&self.a.bytes, &other.a.bytes) && bytes_eq(&self.b.bytes, &other.b.bytes)
            && bytes_eq(&self.c.bytes, &other.c.bytes);
        proof {
            if self@.a == other@.a && self@.b == other@.b && self@.c == other@.c {
                assert(self@ =~= other@);
            }
        }
        r
    }
}

impl vstd::std_specs::cmp::PartialEqSpecImpl for Proof {
    open spec fn obeys_eq_spec() -> bool {
        true
    }

    open spec fn eq_spec(&self, other: &Self) -> bool {
        self@ == other@
    }
}

impl PartialEq for VerifyingKey {
    fn eq(&self, other: &Self) -> bool {
        let r = bytes_eq(&self.alpha_g1.bytes, &other.alpha_g1.bytes) && bytes_eq(
            &self.beta_g1.bytes,
            &other.beta_g1.bytes,
        ) && bytes_eq(&self.beta_g2.bytes, &other.beta_g2.bytes) && bytes_eq(
            &self.gamma_g2.bytes,
            &other.gamma_g2.bytes,
        ) && bytes_eq(&self.delta_g1.bytes, &other.delta_g1.bytes) && bytes_eq(
            &self.delta_g2.bytes,
            &other.delta_g2.bytes,
        ) && g1_vec_eq(&self.ic, &other.ic);
        proof {
            if r {
                assert(self@ =~= other@);
            } else {
                assert(self@ != other@);
            }
        }
        r
    }
}

impl vstd::std_specs::cmp::PartialEqSpecImpl for VerifyingKey {
    open spec fn obeys_eq_spec() -> bool {
        true
    }

    open spec fn eq_spec(&self, other: &Self) -> bool {
        self@ == other@
    }
}

impl PartialEq for Parameters {
    fn eq(&self, other: &Self) -> bool {
        let r = self.vk.eq(&other.vk) && g1_vec_eq(&self.h, &other.h) && g1_vec_eq(
            &self.l,
            &other.l,
        ) && g1_vec_eq(&self.a, &other.a) && g1_vec_eq(&self.b_g1, &other.b_g1) && g2_vec_eq(
            &self.b_g2,
            &other.b_g2,
        );
        proof {
            if r {
                assert(self@ =~= other@);
            } else {
                assert(self@ != other@);
            }
        }
        r
    }
}

impl vstd::std_specs::cmp::PartialEqSpecImpl for Parameters {
    open spec fn obeys_eq_spec() -> bool {
        true
    }

    open spec fn eq_spec(&self, other: &Self) -> bool {
        self@ == other@
    }
}

impl PartialEq for ExtendedParameters {
    fn eq(&self, other: &Self) -> bool {
        let r = self.params.eq(&other.params) && g1_vec_eq(&self.taus_g1, &other.taus_g1)
            && g2_vec_eq(&self.taus_g2, &other.taus_g2);
        proof {
            if r {
                assert(self@ =~= other@);
            } else {
                assert(self@ != other@);
            }
        }
        r
    }
}

impl vstd::std_specs::cmp::PartialEqSpecImpl for ExtendedParameters {
    open spec fn obeys_eq_spec() -> bool {
        true
    }

    open spec fn eq_spec(&self, other: &Self) -> bool {
        self@ == other@
    }
}

} // verus!

//! The CRS subversion audit: decides whether extended parameters could have
//! been produced by an honest trusted-setup run for a given circuit, using
//! only public group elements and randomized batched pairing checks, without
//! the trapdoor.
//!
//! All checks are all-or-nothing: the first failure yields `MalformedCrs`.
//! The verdict of `verify_assembly` is an exact function of the parameters,
//! the synthesized assembly and the drawn scalars (`audit_accepts`); the
//! probabilistic soundness of the pairing identities themselves is the
//! curve library's ground, named but not restated here.

use vstd::prelude::*;

use crate::assembly::{AssemblyView, Circuit, KeypairAssembly, matrix_views, rows_wf, term_wf};
use crate::curve::{
    bytes_eq, fr_add, fr_add_bytes, fr_random, fr_valid, fr_validate, g1_identity, g1_identity_repr,
    g1_mul_bytes, g1_add_bytes, g1_neg, g1_neg_bytes, g1_valid, g1_validate, g1_wellformed,
    g2_identity, g2_identity_repr, g2_mul_bytes, g2_add_bytes, g2_neg, g2_neg_bytes, g2_valid,
    g2_validate, g2_wellformed,
    gt_product_is_one, miller_product_is_one, pairing_eq, pairing_of, CrsRng, FrElem, G1Elem,
    G2Elem,
};
use crate::params::{g1_seq_valid, g1_views, g2_seq_valid, g2_views, ExtView, ExtendedParameters};
use crate::qap::{
    compute_lagrange_g1, compute_lagrange_g2, compute_msm_g1, compute_msm_g2, compute_wire_evals_g1,
    compute_wire_evals_g2, filter_nonident, filter_nonident_g1, filter_nonident_g2, fr_seq_valid,
    fr_vec_slice, fr_views, g1_vec_slice, g2_vec_slice, lagrange_g1, lagrange_g2,
    lemma_pow2_pos, msm_g1, msm_g2, pow2, rows_bounded, wire_evals_g1, wire_evals_g2,
};
use crate::SynthesisError;

verus! {

/// The base-two logarithm, rounded down.
pub open spec fn lg(n: int) -> int
    decreases n,
{
    if n <= 1 {
        0
    } else {
        1 + lg(n / 2)
    }
}

/// `lg` inverts `pow2`.
pub proof fn lemma_lg_pow2(k: int)
    requires
        0 <= k,
    ensures
        lg(pow2(k)) == k,
    decreases k,
{
    if k == 0 {
    } else {
        lemma_lg_pow2(k - 1);
        lemma_pow2_pos(k - 1);
        assert(pow2(k) == 2 * pow2(k - 1));
        assert(pow2(k) / 2 == pow2(k - 1));
    }
}

/// Every group element of the extended parameters is a fully valid
/// canonical encoding — on the curve and in the prime-order subgroup — as
/// the audit's element operations and pairings need them.
pub open spec fn ext_valid(e: ExtView) -> bool {
    &&& e.params.vk.valid()
    &&& g1_seq_valid(e.params.h)
    &&& g1_seq_valid(e.params.l)
    &&& g1_seq_valid(e.params.a)
    &&& g1_seq_valid(e.params.b_g1)
    &&& g2_seq_valid(e.params.b_g2)
    &&& g1_seq_valid(e.taus_g1)
    &&& g2_seq_valid(e.taus_g2)
}

/// The structural shape an honest extended CRS has for the given assembly:
/// equal power arrays of length `d + 1` with `d + 1` a supported power of
/// two, `h` of length `d`, `l` matching the auxiliary wires, `ic` covering
/// the public inputs, a well-formed assembly whose constraints fit in the
/// domain, and machine-representable wire counts.
pub open spec fn audit_shape_ok(e: ExtView, a: AssemblyView) -> bool {
    let d = e.taus_g1.len() as int - 1;
    &&& e.taus_g1.len() == e.taus_g2.len()
    &&& e.taus_g1.len() >= 2
    &&& d + 1 == pow2(lg(d + 1))
    &&& lg(d + 1) <= 32
    &&& e.params.h.len() == d
    &&& e.params.l.len() == a.num_aux
    &&& e.params.vk.ic.len() >= a.num_inputs
    &&& a.wf()
    &&& a.num_constraints <= d + 1
    &&& a.num_inputs + a.num_aux <= usize::MAX
}

/// Non-degeneracy: neither generator, none of `alpha_g1`, `beta_g1`,
/// `gamma_g2`, `delta_g1`, nor `h[0]` is the group identity.
pub open spec fn nondegenerate(e: ExtView) -> bool {
    &&& e.taus_g1[0] != g1_identity_repr()
    &&& e.taus_g2[0] != g2_identity_repr()
    &&& e.params.vk.alpha_g1 != g1_identity_repr()
    &&& e.params.vk.beta_g1 != g1_identity_repr()
    &&& e.params.vk.gamma_g2 != g2_identity_repr()
    &&& e.params.vk.delta_g1 != g1_identity_repr()
    &&& e.params.h[0] != g1_identity_repr()
}

/// Cross-group trapdoor consistency: `beta` and `delta` encode the same
/// scalar in both groups, witnessed by two pairing equalities.
pub open spec fn trapdoor_consistent(e: ExtView) -> bool {
    &&& pairing_of(e.taus_g1[0], e.params.vk.beta_g2) == pairing_of(
        e.params.vk.beta_g1,
        e.taus_g2[0],
    )
    &&& pairing_of(e.taus_g1[0], e.params.vk.delta_g2) == pairing_of(
        e.params.vk.delta_g1,
        e.taus_g2[0],
    )
}

/// The pairing-product pairs of the batched H-query check: with random
/// scalars `rh`, the weighted sums of `h`, of `taus_g2[0..d]` and of
/// `taus_g2[1..=d]` must pair to one against `-delta_g2`, `-g1` and the top
/// power `taus_g1[d]`.
pub open spec fn h_check_pairs(e: ExtView, rh: Seq<Seq<u8>>) -> Seq<(Seq<u8>, Seq<u8>)> {
    let d = e.taus_g1.len() as int - 1;
    seq![
        (msm_g1(e.params.h, rh, d), g2_neg_bytes(e.params.vk.delta_g2)),
        (g1_neg_bytes(e.taus_g1[0]), msm_g2(e.taus_g2.subrange(0, d), rh, d)),
        (e.taus_g1[d], msm_g2(e.taus_g2.subrange(1, d + 1), rh, d)),
    ]
}

/// The pairing-product pairs of the batched powers-of-tau check: with
/// random scalars `p`, `q` and `pq = p + q`, consistency of consecutive
/// powers across the two groups reduces to one product being one.
pub open spec fn taus_check_pairs(e: ExtView, p: Seq<Seq<u8>>, q: Seq<Seq<u8>>) -> Seq<
    (Seq<u8>, Seq<u8>),
> {
    let d = e.taus_g1.len() as int - 1;
    let pq = Seq::new(d as nat, |i: int| fr_add_bytes(p[i], q[i]));
    seq![
        (msm_g1(e.taus_g1.subrange(1, d + 1), pq, d), g2_neg_bytes(e.taus_g2[0])),
        (msm_g1(e.taus_g1.subrange(0, d), p, d), e.taus_g2[1]),
        (e.taus_g1[0], msm_g2(e.taus_g2.subrange(1, d + 1), q, d)),
    ]
}

/// The Lagrange-basis powers of tau in G1 the audit recomputes.
pub open spec fn audit_coeffs_g1(e: ExtView) -> Seq<Seq<u8>> {
    lagrange_g1(e.taus_g1, lg(e.taus_g1.len() as int) as u32)
}

/// The Lagrange-basis powers of tau in G2.
pub open spec fn audit_coeffs_g2(e: ExtView) -> Seq<Seq<u8>> {
    lagrange_g2(e.taus_g2, lg(e.taus_g1.len() as int) as u32)
}

/// The per-wire A-polynomial evaluations the audit recomputes.
pub open spec fn audit_a_evals(e: ExtView, a: AssemblyView) -> Seq<Seq<u8>> {
    wire_evals_g1(audit_coeffs_g1(e), a.at_inputs + a.at_aux)
}

/// The per-wire B-polynomial evaluations in G1.
pub open spec fn audit_b1_evals(e: ExtView, a: AssemblyView) -> Seq<Seq<u8>> {
    wire_evals_g1(audit_coeffs_g1(e), a.bt_inputs + a.bt_aux)
}

/// The per-wire B-polynomial evaluations in G2.
pub open spec fn audit_b2_evals(e: ExtView, a: AssemblyView) -> Seq<Seq<u8>> {
    wire_evals_g2(audit_coeffs_g2(e), a.bt_inputs + a.bt_aux)
}

/// The per-wire C-polynomial evaluations.
pub open spec fn audit_c_evals(e: ExtView, a: AssemblyView) -> Seq<Seq<u8>> {
    wire_evals_g1(audit_coeffs_g1(e), a.ct_inputs + a.ct_aux)
}

/// A density-masked multi-exponentiation: wires whose row is empty are
/// skipped; every other wire consumes the next base in order, weighted by
/// its scalar.  `None` when the bases run out before the wires do.
pub open spec fn density_msm_g1(
    bases: Seq<Seq<u8>>,
    rows: Seq<Seq<(Seq<u8>, int)>>,
    z: Seq<Seq<u8>>,
    n: int,
) -> Option<(Seq<u8>, int)>
    decreases n,
{
    if n <= 0 {
        Some((g1_identity_repr(), 0))
    } else {
        match density_msm_g1(bases, rows, z, n - 1) {
            None => None,
            Some((acc, k)) => if rows[n - 1].len() == 0 {
                Some((acc, k))
            } else if k >= bases.len() {
                None
            } else {
                Some((g1_add_bytes(acc, g1_mul_bytes(bases[k], z[n - 1])), k + 1))
            },
        }
    }
}

/// As `density_msm_g1`, in G2.
pub open spec fn density_msm_g2(
    bases: Seq<Seq<u8>>,
    rows: Seq<Seq<(Seq<u8>, int)>>,
    z: Seq<Seq<u8>>,
    n: int,
) -> Option<(Seq<u8>, int)>
    decreases n,
{
    if n <= 0 {
        Some((g2_identity_repr(), 0))
    } else {
        match density_msm_g2(bases, rows, z, n - 1) {
            None => None,
            Some((acc, k)) => if rows[n - 1].len() == 0 {
                Some((acc, k))
            } else if k >= bases.len() {
                None
            } else {
                Some((g2_add_bytes(acc, g2_mul_bytes(bases[k], z[n - 1])), k + 1))
            },
        }
    }
}

/// The batched QAP-evaluation check: the freshly computed, zero-filtered
/// evaluations, random-weighted with one scalar per wire (density-masked),
/// the CRS's `l` array over the auxiliary wires and `ic` over the inputs,
/// must satisfy a single five-pairing product identity.
pub open spec fn qap_check_ok(e: ExtView, a: AssemblyView, z: Seq<Seq<u8>>) -> bool {
    let ni = a.num_inputs;
    let na = a.num_aux;
    let n = ni + na;
    let a_f = filter_nonident(audit_a_evals(e, a), g1_identity_repr());
    let b2_f = filter_nonident(audit_b2_evals(e, a), g2_identity_repr());
    let c_f = filter_nonident(audit_c_evals(e, a), g1_identity_repr());
    let acc_a = density_msm_g1(a_f, a.at_inputs + a.at_aux, z, n);
    let acc_b2 = density_msm_g2(b2_f, a.bt_inputs + a.bt_aux, z, n);
    let acc_c = density_msm_g1(c_f, a.ct_inputs + a.ct_aux, z, n);
    &&& acc_a is Some
    &&& acc_b2 is Some
    &&& acc_c is Some
    &&& miller_product_is_one(
        seq![
            (acc_a->Some_0.0, e.params.vk.beta_g2),
            (e.params.vk.alpha_g1, acc_b2->Some_0.0),
            (acc_c->Some_0.0, e.taus_g2[0]),
            (
                msm_g1(e.params.l, z.subrange(ni, ni + na), na),
                g2_neg_bytes(e.params.vk.delta_g2),
            ),
            (
                msm_g1(e.params.vk.ic.subrange(0, ni), z.subrange(0, ni), ni),
                g2_neg_bytes(e.params.vk.gamma_g2),
            ),
        ],
    )
}

/// Structural equality of the recomputed, zero-filtered evaluations against
/// the stored CRS arrays: the check that ties the CRS to this circuit.
pub open spec fn evals_match_crs(e: ExtView, a: AssemblyView) -> bool {
    &&& filter_nonident(audit_a_evals(e, a), g1_identity_repr()) == e.params.a
    &&& filter_nonident(audit_b1_evals(e, a), g1_identity_repr()) == e.params.b_g1
    &&& filter_nonident(audit_b2_evals(e, a), g2_identity_repr()) == e.params.b_g2
}

/// The audit's verdict for the given parameters, assembly and drawn
/// scalars: all six checks hold.
#[verifier::opaque]
pub open spec fn audit_accepts(
    e: ExtView,
    a: AssemblyView,
    rh: Seq<Seq<u8>>,
    p: Seq<Seq<u8>>,
    q: Seq<Seq<u8>>,
    z: Seq<Seq<u8>>,
) -> bool {
    &&& ext_valid(e)
    &&& audit_shape_ok(e, a)
    &&& nondegenerate(e)
    &&& trapdoor_consistent(e)
    &&& miller_product_is_one(h_check_pairs(e, rh))
    &&& miller_product_is_one(taus_check_pairs(e, p, q))
    &&& qap_check_ok(e, a, z)
    &&& evals_match_crs(e, a)
}

/// `pow2` grows monotonically.
pub proof fn lemma_pow2_mono(a: int, b: int)
    requires
        a <= b,
    ensures
        pow2(a) <= pow2(b),
    decreases b,
{
    if a < b && b > 0 {
        lemma_pow2_mono(a, b - 1);
        lemma_pow2_pos(b - 1);
    }
}

/// Finds the exponent of a power of two no larger than `2^32`; `None` when
/// `n` is no such power.
fn find_log2(n: usize) -> (r: Option<u32>)
    ensures
        match r {
            Some(k) => k <= 32 && n as int == pow2(k as int) && k as int == lg(n as int),
            None => !(n as int == pow2(lg(n as int)) && lg(n as int) <= 32),
        },
{
    let nn = n as u64;
    let mut m: u64 = 1;
    let mut k: u32 = 0;
    while m < nn && k < 32
        invariant
            k <= 32,
            m as int == pow2(k as int),
            nn as int == n as int,
            forall|j: int| 0 <= j < k ==> pow2(j) < n as int,
        decreases 32 - k,
    {
        proof {
            crate::qap::lemma_pow2_shift(k);
        }
        m = m * 2;
        k = k + 1;
    }
    if m == nn {
        proof {
            lemma_lg_pow2(k as int);
        }
        Some(k)
    } else {
        proof {
            if n as int == pow2(lg(n as int)) && lg(n as int) <= 32 {
                let j = lg(n as int);
                if j < k {
                    assert(pow2(j) < n as int);
                } else {
                    lemma_pow2_mono(k as int, j);
                    if m > nn {
                        assert(pow2(j) >= pow2(k as int));
                        assert(pow2(k as int) > n as int);
                    } else {
                        assert(k == 32);
                        assert(j == 32);
                        assert(pow2(j) == m as int);
                        assert(m < nn);
                    }
                }
                assert(false);
            }
        }
        None
    }
}

/// Draws `n` fresh random scalars from the caller's generator.
pub fn draw_scalars(rng: &mut CrsRng, n: usize) -> (r: Vec<FrElem>)
    ensures
        r@.len() == n,
        fr_seq_valid(fr_views(r@)),
{
    let mut r: Vec<FrElem> = Vec::new();
    let mut i: usize = 0;
    while i < n
        invariant
            0 <= i <= n,
            r@.len() == i,
            forall|j: int|
                0 <= j < i ==> (#[trigger] fr_views(r@)[j]).len() == 32 && fr_valid(
                    fr_views(r@)[j],
                ),
        decreases n - i,
    {
        let ghost prev = fr_views(r@);
        let s = fr_random(rng);
        r.push(s);
        proof {
            assert(fr_views(r@) =~= prev.push(s@));
            assert(forall|j: int| 0 <= j < prev.len() ==> #[trigger] fr_views(r@)[j] == prev[j]);
            assert(fr_views(r@)[i as int] == s@);
        }
        i += 1;
    }
    r
}

/// Checks that every element of a G1 vector is a fully valid encoding: on
/// the curve and in the prime-order subgroup.
fn check_g1_vec(v: &Vec<G1Elem>) -> (r: bool)
    ensures
        r == g1_seq_valid(g1_views(v@)),
{
    let mut i: usize = 0;
    while i < v.len()
        invariant
            0 <= i <= v@.len(),
            forall|j: int|
                0 <= j < i ==> (#[trigger] g1_views(v@)[j]).len() == 96 && g1_wellformed(
                    g1_views(v@)[j],
                ) && g1_valid(g1_views(v@)[j]),
        decreases v@.len() - i,
    {
        proof {
            assert(g1_views(v@)[i as int] == v@[i as int]@);
        }
        if v[i].bytes.len() != 96 || !g1_validate(&v[i].bytes, true) {
            proof {
                assert(!((g1_views(v@)[i as int]).len() == 96 && g1_valid(
                    g1_views(v@)[i as int],
                )));
            }
            return false;
        }
        i += 1;
    }
    true
}

/// Checks that every element of a G2 vector is a fully valid encoding.
fn check_g2_vec(v: &Vec<G2Elem>) -> (r: bool)
    ensures
        r == g2_seq_valid(g2_views(v@)),
{
    let mut i: usize = 0;
    while i < v.len()
        invariant
            0 <= i <= v@.len(),
            forall|j: int|
                0 <= j < i ==> (#[trigger] g2_views(v@)[j]).len() == 192 && g2_wellformed(
                    g2_views(v@)[j],
                ) && g2_valid(g2_views(v@)[j]),
        decreases v@.len() - i,
    {
        proof {
            assert(g2_views(v@)[i as int] == v@[i as int]@);
        }
        if v[i].bytes.len() != 192 || !g2_validate(&v[i].bytes, true) {
            proof {
                assert(!((g2_views(v@)[i as int]).len() == 192 && g2_valid(
                    g2_views(v@)[i as int],
                )));
            }
            return false;
        }
        i += 1;
    }
    true
}

/// Checks that one wire class of one matrix is well-formed for `nc`
/// constraints.
fn check_rows(m: &Vec<Vec<(FrElem, usize)>>, nc: usize) -> (r: bool)
    ensures
        r == rows_wf(matrix_views(m@), nc as int),
{
    let mut i: usize = 0;
    while i < m.len()
        invariant
            0 <= i <= m@.len(),
            forall|a: int, b: int|
                0 <= a < i && 0 <= b < matrix_views(m@)[a].len() ==> term_wf(
                    #[trigger] matrix_views(m@)[a][b],
                    nc as int,
                ),
        decreases m@.len() - i,
    {
        let row = &m[i];
        let mut j: usize = 0;
        while j < row.len()
            invariant
                0 <= i < m@.len(),
                0 <= j <= row@.len(),
                row@ == m@[i as int]@,
                forall|a: int, b: int|
                    0 <= a < i && 0 <= b < matrix_views(m@)[a].len() ==> term_wf(
                        #[trigger] matrix_views(m@)[a][b],
                        nc as int,
                    ),
                forall|b: int|
                    0 <= b < j ==> term_wf(#[trigger] matrix_views(m@)[i as int][b], nc as int),
            decreases row@.len() - j,
        {
            proof {
                assert(matrix_views(m@)[i as int][j as int] == (
                    row@[j as int].0@,
                    row@[j as int].1 as int,
                ));
            }
            if row[j].1 >= nc || row[j].0.bytes.len() != 32 || !fr_validate(&row[j].0.bytes) {
                proof {
                    assert(!term_wf(matrix_views(m@)[i as int][j as int], nc as int));
                }
                return false;
            }
            j += 1;
        }
        i += 1;
    }
    true
}

/// When a density-masked sum has already failed on a prefix of the wires, it
/// fails on the whole range.
proof fn lemma_density_none_g1(
    bases: Seq<Seq<u8>>,
    rows: Seq<Seq<(Seq<u8>, int)>>,
    z: Seq<Seq<u8>>,
    w: int,
    n: int,
)
    requires
        0 <= w <= n,
        density_msm_g1(bases, rows, z, w) is None,
    ensures
        density_msm_g1(bases, rows, z, n) is None,
    decreases n - w,
{
    if n > w {
        lemma_density_none_g1(bases, rows, z, w, n - 1);
    }
}

/// As `lemma_density_none_g1`, in G2.
proof fn lemma_density_none_g2(
    bases: Seq<Seq<u8>>,
    rows: Seq<Seq<(Seq<u8>, int)>>,
    z: Seq<Seq<u8>>,
    w: int,
    n: int,
)
    requires
        0 <= w <= n,
        density_msm_g2(bases, rows, z, w) is None,
    ensures
        density_msm_g2(bases, rows, z, n) is None,
    decreases n - w,
{
    if n > w {
        lemma_density_none_g2(bases, rows, z, w, n - 1);
    }
}

/// Computes the density-masked multi-exponentiation `density_msm_g1` over
/// wires listed input rows first, then auxiliary rows.
fn compute_density_msm_g1(
    bases: &Vec<G1Elem>,
    inp: &Vec<Vec<(FrElem, usize)>>,
    aux: &Vec<Vec<(FrElem, usize)>>,
    z: &Vec<FrElem>,
) -> (r: Option<G1Elem>)
    requires
        g1_seq_valid(g1_views(bases@)),
        fr_seq_valid(fr_views(z@)),
        z@.len() == inp@.len() + aux@.len(),
    ensures
        ({
            let rows = matrix_views(inp@) + matrix_views(aux@);
            let n = rows.len() as int;
            match r {
                Some(e) => density_msm_g1(g1_views(bases@), rows, fr_views(z@), n) is Some && e@
                    == density_msm_g1(g1_views(bases@), rows, fr_views(z@), n)->Some_0.0
                    && g1_wellformed(e@) && g1_valid(e@) && e@.len() == 96,
                None => density_msm_g1(g1_views(bases@), rows, fr_views(z@), n) is None,
            }
        }),
{
    let zlen = z.len();
    let ghost rows = matrix_views(inp@) + matrix_views(aux@);
    let ghost bw = g1_views(bases@);
    let ghost zw = fr_views(z@);
    let ghost n = rows.len() as int;
    let mut acc = g1_identity();
    let mut k: usize = 0;
    let mut w: usize = 0;
    while w < inp.len()
        invariant
            0 <= w <= inp@.len(),
            rows == matrix_views(inp@) + matrix_views(aux@),
            bw == g1_views(bases@),
            zw == fr_views(z@),
            zw.len() == inp@.len() + aux@.len(),
            n == rows.len() as int,
            g1_seq_valid(bw),
            fr_seq_valid(zw),
            k <= bw.len(),
            density_msm_g1(bw, rows, zw, w as int) == Some((acc@, k as int)),
            g1_wellformed(acc@),
            g1_valid(acc@),
            acc@.len() == 96,
        decreases inp@.len() - w,
    {
        proof {
            assert(rows[w as int] == matrix_views(inp@)[w as int]);
            assert(rows[w as int].len() == inp@[w as int]@.len());
            assert(zw[w as int] == z@[w as int]@);
        }
        if inp[w].len() > 0 {
            if k >= bases.len() {
                proof {
                    assert(density_msm_g1(bw, rows, zw, w + 1) is None);
                    lemma_density_none_g1(bw, rows, zw, w + 1, n);
                }
                return None;
            }
            proof {
                assert(bw[k as int] == bases@[k as int]@);
            }
            let t = crate::curve::g1_mul(&bases[k], &z[w]);
            acc = crate::curve::g1_add(&acc, &t);
            k = k + 1;
        }
        proof {
            assert(density_msm_g1(bw, rows, zw, w + 1) == Some((acc@, k as int)));
        }
        w += 1;
    }
    let mut u: usize = 0;
    while u < aux.len()
        invariant
            0 <= u <= aux@.len(),
            rows == matrix_views(inp@) + matrix_views(aux@),
            bw == g1_views(bases@),
            zw == fr_views(z@),
            zw.len() == inp@.len() + aux@.len(),
            n == rows.len() as int,
            g1_seq_valid(bw),
            fr_seq_valid(zw),
            k <= bw.len(),
            density_msm_g1(bw, rows, zw, inp@.len() + u) == Some((acc@, k as int)),
            z@.len() == zlen,
            g1_wellformed(acc@),
            g1_valid(acc@),
            acc@.len() == 96,
        decreases aux@.len() - u,
    {
        proof {
            assert(rows[inp@.len() + u] == matrix_views(aux@)[u as int]);
            assert(rows[inp@.len() + u].len() == aux@[u as int]@.len());
            assert(zw[inp@.len() + u] == z@[inp@.len() + u]@);
        }
        if aux[u].len() > 0 {
            if k >= bases.len() {
                proof {
                    assert(density_msm_g1(bw, rows, zw, inp@.len() + u + 1) is None);
                    lemma_density_none_g1(bw, rows, zw, inp@.len() + u + 1, n);
                }
                return None;
            }
            proof {
                assert(bw[k as int] == bases@[k as int]@);
            }
            let zi = inp.len() + u;
            let t = crate::curve::g1_mul(&bases[k], &z[zi]);
            acc = crate::curve::g1_add(&acc, &t);
            k = k + 1;
        }
        proof {
            assert(density_msm_g1(bw, rows, zw, inp@.len() + u + 1) == Some((acc@, k as int)));
        }
        u += 1;
    }
    Some(acc)
}

/// As `compute_density_msm_g1`, in G2.
fn compute_density_msm_g2(
    bases: &Vec<G2Elem>,
    inp: &Vec<Vec<(FrElem, usize)>>,
    aux: &Vec<Vec<(FrElem, usize)>>,
    z: &Vec<FrElem>,
) -> (r: Option<G2Elem>)
    requires
        g2_seq_valid(g2_views(bases@)),
        fr_seq_valid(fr_views(z@)),
        z@.len() == inp@.len() + aux@.len(),
    ensures
        ({
            let rows = matrix_views(inp@) + matrix_views(aux@);
            let n = rows.len() as int;
            match r {
                Some(e) => density_msm_g2(g2_views(bases@), rows, fr_views(z@), n) is Some && e@
                    == density_msm_g2(g2_views(bases@), rows, fr_views(z@), n)->Some_0.0
                    && g2_wellformed(e@) && g2_valid(e@) && e@.len() == 192,
                None => density_msm_g2(g2_views(bases@), rows, fr_views(z@), n) is None,
            }
        }),
{
    let zlen = z.len();
    let ghost rows = matrix_views(inp@) + matrix_views(aux@);
    let ghost bw = g2_views(bases@);
    let ghost zw = fr_views(z@);
    let ghost n = rows.len() as int;
    let mut acc = g2_identity();
    let mut k: usize = 0;
    let mut w: usize = 0;
    while w < inp.len()
        invariant
            0 <= w <= inp@.len(),
            rows == matrix_views(inp@) + matrix_views(aux@),
            bw == g2_views(bases@),
            zw == fr_views(z@),
            zw.len() == inp@.len() + aux@.len(),
            n == rows.len() as int,
            g2_seq_valid(bw),
            fr_seq_valid(zw),
            k <= bw.len(),
            density_msm_g2(bw, rows, zw, w as int) == Some((acc@, k as int)),
            g2_wellformed(acc@),
            g2_valid(acc@),
            acc@.len() == 192,
        decreases inp@.len() - w,
    {
        proof {
            assert(rows[w as int] == matrix_views(inp@)[w as int]);
            assert(rows[w as int].len() == inp@[w as int]@.len());
            assert(zw[w as int] == z@[w as int]@);
        }
        if inp[w].len() > 0 {
            if k >= bases.len() {
                proof {
                    assert(density_msm_g2(bw, rows, zw, w + 1) is None);
                    lemma_density_none_g2(bw, rows, zw, w + 1, n);
                }
                return None;
            }
            proof {
                assert(bw[k as int] == bases@[k as int]@);
            }
            let t = crate::curve::g2_mul(&bases[k], &z[w]);
            acc = crate::curve::g2_add(&acc, &t);
            k = k + 1;
        }
        proof {
            assert(density_msm_g2(bw, rows, zw, w + 1) == Some((acc@, k as int)));
        }
        w += 1;
    }
    let mut u: usize = 0;
    while u < aux.len()
        invariant
            0 <= u <= aux@.len(),
            rows == matrix_views(inp@) + matrix_views(aux@),
            bw == g2_views(bases@),
            zw == fr_views(z@),
            zw.len() == inp@.len() + aux@.len(),
            n == rows.len() as int,
            g2_seq_valid(bw),
            fr_seq_valid(zw),
            k <= bw.len(),
            density_msm_g2(bw, rows, zw, inp@.len() + u) == Some((acc@, k as int)),
            z@.len() == zlen,
            g2_wellformed(acc@),
            g2_valid(acc@),
            acc@.len() == 192,
        decreases aux@.len() - u,
    {
        proof {
            assert(rows[inp@.len() + u] == matrix_views(aux@)[u as int]);
            assert(rows[inp@.len() + u].len() == aux@[u as int]@.len());
            assert(zw[inp@.len() + u] == z@[inp@.len() + u]@);
        }
        if aux[u].len() > 0 {
            if k >= bases.len() {
                proof {
                    assert(density_msm_g2(bw, rows, zw, inp@.len() + u + 1) is None);
                    lemma_density_none_g2(bw, rows, zw, inp@.len() + u + 1, n);
                }
                return None;
            }
            proof {
                assert(bw[k as int] == bases@[k as int]@);
            }
            let zi = inp.len() + u;
            let t = crate::curve::g2_mul(&bases[k], &z[zi]);
            acc = crate::curve::g2_add(&acc, &t);
            k = k + 1;
        }
        proof {
            assert(density_msm_g2(bw, rows, zw, inp@.len() + u + 1) == Some((acc@, k as int)));
        }
        u += 1;
    }
    Some(acc)
}

impl ExtendedParameters {
    /// Checks that every carried group element is a fully valid encoding:
    /// canonical, on the curve, and in the prime-order subgroup — as the
    /// pairing operations below need.
    fn check_valid(&self) -> (r: bool)
        ensures
            r == ext_valid(self@),
    {
        let vk = &self.params.vk;
        let fixed = vk.alpha_g1.bytes.len() == 96 && g1_validate(&vk.alpha_g1.bytes, true)
            && vk.beta_g1.bytes.len() == 96 && g1_validate(&vk.beta_g1.bytes, true)
            && vk.beta_g2.bytes.len() == 192 && g2_validate(&vk.beta_g2.bytes, true)
            && vk.gamma_g2.bytes.len() == 192 && g2_validate(&vk.gamma_g2.bytes, true)
            && vk.delta_g1.bytes.len() == 96 && g1_validate(&vk.delta_g1.bytes, true)
            && vk.delta_g2.bytes.len() == 192 && g2_validate(&vk.delta_g2.bytes, true);
        if !fixed {
            return false;
        }
        let ic_ok = check_g1_vec(&vk.ic);
        proof {
            let icv = self@.params.vk.ic;
            assert(icv == g1_views(vk.ic@));
            if ic_ok {
                assert(self@.params.vk.valid());
            } else {
                assert(!g1_seq_valid(icv));
                assert(!self@.params.vk.valid());
            }
        }
        if !ic_ok {
            return false;
        }
        check_g1_vec(&self.params.h) && check_g1_vec(&self.params.l) && check_g1_vec(
            &self.params.a,
        ) && check_g1_vec(&self.params.b_g1) && check_g2_vec(&self.params.b_g2) && check_g1_vec(
            &self.taus_g1,
        ) && check_g2_vec(&self.taus_g2)
    }

    /// Checks the structural shape for the given assembly.
    fn check_shape(&self, cs: &KeypairAssembly) -> (r: bool)
        ensures
            r == audit_shape_ok(self@, cs@),
    {
        if self.taus_g1.len() != self.taus_g2.len() || self.taus_g1.len() < 2 {
            return false;
        }
        let d = self.taus_g1.len() - 1;
        match find_log2(d + 1) {
            Some(_) => {},
            None => {
                return false;
            },
        }
        if self.params.h.len() != d {
            return false;
        }
        if self.params.l.len() != cs.num_aux {
            return false;
        }
        if self.params.vk.ic.len() < cs.num_inputs {
            return false;
        }
        let counts = cs.at_inputs.len() == cs.num_inputs && cs.bt_inputs.len()
            == cs.num_inputs && cs.ct_inputs.len() == cs.num_inputs && cs.at_aux.len()
            == cs.num_aux && cs.bt_aux.len() == cs.num_aux && cs.ct_aux.len() == cs.num_aux;
        if !counts {
            return false;
        }
        let rows_ok = check_rows(&cs.at_inputs, cs.num_constraints) && check_rows(
            &cs.bt_inputs,
            cs.num_constraints,
        ) && check_rows(&cs.ct_inputs, cs.num_constraints) && check_rows(
            &cs.at_aux,
            cs.num_constraints,
        ) && check_rows(&cs.bt_aux, cs.num_constraints) && check_rows(
            &cs.ct_aux,
            cs.num_constraints,
        );
        if !rows_ok {
            return false;
        }
        if cs.num_constraints > d + 1 {
            return false;
        }
        if cs.num_inputs > usize::MAX - cs.num_aux {
            return false;
        }
        true
    }

    /// Checks non-degeneracy of the generators, the fixed key elements and
    /// `h[0]`.
    fn check_nondegenerate(&self) -> (r: bool)
        requires
            self.taus_g1@.len() >= 1,
            self.taus_g2@.len() >= 1,
            self.params.h@.len() >= 1,
        ensures
            r == nondegenerate(self@),
    {
        let g1_id = g1_identity();
        let g2_id = g2_identity();
        proof {
            assert(self@.taus_g1[0] == self.taus_g1@[0]@);
            assert(self@.taus_g2[0] == self.taus_g2@[0]@);
            assert(self@.params.h[0] == self.params.h@[0]@);
        }
        !bytes_eq(&self.taus_g1[0].bytes, &g1_id.bytes) && !bytes_eq(
            &self.taus_g2[0].bytes,
            &g2_id.bytes,
        ) && !bytes_eq(&self.params.vk.alpha_g1.bytes, &g1_id.bytes) && !bytes_eq(
            &self.params.vk.beta_g1.bytes,
            &g1_id.bytes,
        ) && !bytes_eq(&self.params.vk.gamma_g2.bytes, &g2_id.bytes) && !bytes_eq(
            &self.params.vk.delta_g1.bytes,
            &g1_id.bytes,
        ) && !bytes_eq(&self.params.h[0].bytes, &g1_id.bytes)
    }

    /// Checks the two cross-group trapdoor-consistency pairing equalities.
    fn check_trapdoor(&self) -> (r: bool)
        requires
            ext_valid(self@),
            self.taus_g1@.len() >= 1,
            self.taus_g2@.len() >= 1,
        ensures
            r == trapdoor_consistent(self@),
    {
        proof {
            assert(self@.taus_g1[0] == self.taus_g1@[0]@);
            assert(self@.taus_g2[0] == self.taus_g2@[0]@);
        }
        pairing_eq(
            &self.taus_g1[0],
            &self.params.vk.beta_g2,
            &self.params.vk.beta_g1,
            &self.taus_g2[0],
        ) && pairing_eq(
            &self.taus_g1[0],
            &self.params.vk.delta_g2,
            &self.params.vk.delta_g1,
            &self.taus_g2[0],
        )
    }

    /// Runs the batched H-query pairing-product check.
    fn check_h_query(&self, rh: &Vec<FrElem>) -> (r: bool)
        requires
            ext_valid(self@),
            self.taus_g1@.len() == self.taus_g2@.len(),
            self.taus_g1@.len() >= 2,
            self.params.h@.len() == self.taus_g1@.len() - 1,
            rh@.len() == self.taus_g1@.len() - 1,
            fr_seq_valid(fr_views(rh@)),
        ensures
            r == miller_product_is_one(h_check_pairs(self@, fr_views(rh@))),
    {
        let d = self.taus_g1.len() - 1;
        let acc_h = compute_msm_g1(&self.params.h, rh);
        let t2a = g2_vec_slice(&self.taus_g2, 0, d);
        let t2b = g2_vec_slice(&self.taus_g2, 1, d + 1);
        proof {
            assert forall|i: int|
                0 <= i < g2_views(t2a@).len() implies (#[trigger] g2_views(t2a@)[i]).len() == 192
                && g2_wellformed(g2_views(t2a@)[i]) && g2_valid(g2_views(t2a@)[i]) by {
                assert(g2_views(t2a@)[i] == self@.taus_g2[i]);
            }
            assert forall|i: int|
                0 <= i < g2_views(t2b@).len() implies (#[trigger] g2_views(t2b@)[i]).len() == 192
                && g2_wellformed(g2_views(t2b@)[i]) && g2_valid(g2_views(t2b@)[i]) by {
                assert(g2_views(t2b@)[i] == self@.taus_g2[i + 1]);
            }
        }
        let acc_t2a = compute_msm_g2(&t2a, rh);
        let acc_t2b = compute_msm_g2(&t2b, rh);
        let neg_delta = g2_neg(&self.params.vk.delta_g2);
        proof {
            assert(self@.taus_g1[0] == self.taus_g1@[0]@);
            assert(self@.taus_g1[d as int] == self.taus_g1@[d as int]@);
        }
        let neg_g1 = g1_neg(&self.taus_g1[0]);
        let top = self.taus_g1[d].dup();
        let mut pairs: Vec<(G1Elem, G2Elem)> = Vec::new();
        pairs.push((acc_h, neg_delta));
        pairs.push((neg_g1, acc_t2a));
        pairs.push((top, acc_t2b));
        proof {
            assert(pairs@.len() == 3);
            assert(pairs@[0].0@ == msm_g1(self@.params.h, fr_views(rh@), d as int));
            assert(pairs@[1].1@ == msm_g2(self@.taus_g2.subrange(0, d as int), fr_views(rh@), d as int));
            assert(pairs@[2].1@ == msm_g2(
                self@.taus_g2.subrange(1, d + 1 as int),
                fr_views(rh@),
                d as int,
            ));
        }
        let r = gt_product_is_one(&pairs);
        proof {
            assert(pairs@.map_values(|p: (G1Elem, G2Elem)| (p.0@, p.1@)) =~= h_check_pairs(
                self@,
                fr_views(rh@),
            ));
        }
        r
    }

    /// Runs the batched powers-of-tau pairing-product check.
    fn check_taus(&self, p: &Vec<FrElem>, q: &Vec<FrElem>) -> (r: bool)
        requires
            ext_valid(self@),
            self.taus_g1@.len() == self.taus_g2@.len(),
            self.taus_g1@.len() >= 2,
            p@.len() == self.taus_g1@.len() - 1,
            q@.len() == self.taus_g1@.len() - 1,
            fr_seq_valid(fr_views(p@)),
            fr_seq_valid(fr_views(q@)),
        ensures
            r == miller_product_is_one(taus_check_pairs(self@, fr_views(p@), fr_views(q@))),
    {
        let d = self.taus_g1.len() - 1;
        let ghost pq_spec = Seq::new(
            d as nat,
            |i: int| fr_add_bytes(fr_views(p@)[i], fr_views(q@)[i]),
        );
        let mut pq: Vec<FrElem> = Vec::new();
        let mut i: usize = 0;
        while i < d
            invariant
                0 <= i <= d,
                d == self.taus_g1@.len() - 1,
                p@.len() == d,
                q@.len() == d,
                fr_seq_valid(fr_views(p@)),
                fr_seq_valid(fr_views(q@)),
                pq_spec == Seq::new(
                    d as nat,
                    |t: int| fr_add_bytes(fr_views(p@)[t], fr_views(q@)[t]),
                ),
                pq@.len() == i,
                forall|t: int|
                    0 <= t < i ==> #[trigger] fr_views(pq@)[t] == pq_spec[t] && fr_valid(
                        fr_views(pq@)[t],
                    ) && fr_views(pq@)[t].len() == 32,
            decreases d - i,
        {
            let ghost prev = fr_views(pq@);
            proof {
                assert(fr_views(p@)[i as int] == p@[i as int]@);
                assert(fr_views(q@)[i as int] == q@[i as int]@);
            }
            let s = fr_add(&p[i], &q[i]);
            pq.push(s);
            proof {
                assert(fr_views(pq@) =~= prev.push(s@));
                assert(forall|t: int|
                    0 <= t < prev.len() ==> #[trigger] fr_views(pq@)[t] == prev[t]);
                assert(fr_views(pq@)[i as int] == s@);
                assert(pq_spec[i as int] == fr_add_bytes(fr_views(p@)[i as int], fr_views(q@)[i as int]));
            }
            i += 1;
        }
        proof {
            assert(fr_views(pq@) =~= pq_spec);
            assert(fr_seq_valid(fr_views(pq@)));
        }
        let t1a = g1_vec_slice(&self.taus_g1, 1, d + 1);
        let t1b = g1_vec_slice(&self.taus_g1, 0, d);
        let t2 = g2_vec_slice(&self.taus_g2, 1, d + 1);
        proof {
            assert forall|t: int|
                0 <= t < g1_views(t1a@).len() implies (#[trigger] g1_views(t1a@)[t]).len() == 96
                && g1_wellformed(g1_views(t1a@)[t]) && g1_valid(g1_views(t1a@)[t]) by {
                assert(g1_views(t1a@)[t] == self@.taus_g1[t + 1]);
            }
            assert forall|t: int|
                0 <= t < g1_views(t1b@).len() implies (#[trigger] g1_views(t1b@)[t]).len() == 96
                && g1_wellformed(g1_views(t1b@)[t]) && g1_valid(g1_views(t1b@)[t]) by {
                assert(g1_views(t1b@)[t] == self@.taus_g1[t]);
            }
            assert forall|t: int|
                0 <= t < g2_views(t2@).len() implies (#[trigger] g2_views(t2@)[t]).len() == 192
                && g2_wellformed(g2_views(t2@)[t]) && g2_valid(g2_views(t2@)[t]) by {
                assert(g2_views(t2@)[t] == self@.taus_g2[t + 1]);
            }
        }
        let acc_pq = compute_msm_g1(&t1a, &pq);
        let acc_p = compute_msm_g1(&t1b, p);
        let acc_q = compute_msm_g2(&t2, q);
        proof {
            assert(self@.taus_g1[0] == self.taus_g1@[0]@);
            assert(self@.taus_g2[0] == self.taus_g2@[0]@);
            assert(self@.taus_g2[1] == self.taus_g2@[1]@);
        }
        let neg_g2 = g2_neg(&self.taus_g2[0]);
        let g1_gen = self.taus_g1[0].dup();
        let tau_g2 = self.taus_g2[1].dup();
        let mut pairs: Vec<(G1Elem, G2Elem)> = Vec::new();
        pairs.push((acc_pq, neg_g2));
        pairs.push((acc_p, tau_g2));
        pairs.push((g1_gen, acc_q));
        proof {
            assert(pairs@.len() == 3);
        }
        let r = gt_product_is_one(&pairs);
        proof {
            assert(pairs@.map_values(|pr: (G1Elem, G2Elem)| (pr.0@, pr.1@)) =~= taus_check_pairs(
                self@,
                fr_views(p@),
                fr_views(q@),
            ));
        }
        r
    }
}

/// Concatenated well-formed rows stay bounded by any count at least the
/// constraint count.
proof fn lemma_rows_bounded_concat(
    inp: Seq<Seq<(Seq<u8>, int)>>,
    aux: Seq<Seq<(Seq<u8>, int)>>,
    nc: int,
    cl: int,
)
    requires
        rows_wf(inp, nc),
        rows_wf(aux, nc),
        nc <= cl,
    ensures
        rows_bounded(inp + aux, cl),
{
    let rows = inp + aux;
    assert forall|w: int, j: int|
        0 <= w < rows.len() && 0 <= j < rows[w].len() implies ({
        let t = #[trigger] rows[w][j];
        0 <= t.1 < cl && t.0.len() == 32 && fr_valid(t.0)
    }) by {
        if w < inp.len() {
            assert(rows[w] == inp[w]);
            assert(term_wf(inp[w][j], nc));
        } else {
            assert(rows[w] == aux[w - inp.len()]);
            assert(term_wf(aux[w - inp.len()][j], nc));
        }
    }
}

impl ExtendedParameters {
    /// Recomputes the QAP evaluations and runs the batched evaluation check
    /// and the structural-equality check, in that order of the result pair.
    fn qap_checks(&self, cs: &KeypairAssembly, z: &Vec<FrElem>) -> (r: (bool, bool))
        requires
            ext_valid(self@),
            audit_shape_ok(self@, cs@),
            fr_seq_valid(fr_views(z@)),
            z@.len() == cs@.num_inputs + cs@.num_aux,
        ensures
            r.0 == qap_check_ok(self@, cs@, fr_views(z@)),
            r.1 == evals_match_crs(self@, cs@),
    {
        let d = self.taus_g1.len() - 1;
        let k = match find_log2(d + 1) {
            Some(k) => k,
            None => {
                proof {
                    assert(false);
                }
                0
            },
        };
        proof {
            assert(k >= 1) by {
                if k == 0 {
                    assert(pow2(0) == 1);
                }
            }
            assert(lg(self@.taus_g1.len() as int) == k as int);
            assert((lg(self@.taus_g1.len() as int) as u32) == k);
        }
        let coeffs_g1 = compute_lagrange_g1(&self.taus_g1, k);
        let coeffs_g2 = compute_lagrange_g2(&self.taus_g2, k);
        proof {
            assert(g1_views(coeffs_g1@) == audit_coeffs_g1(self@));
            assert(g2_views(coeffs_g2@) == audit_coeffs_g2(self@));
            lemma_rows_bounded_concat(
                cs@.at_inputs,
                cs@.at_aux,
                cs@.num_constraints,
                coeffs_g1@.len() as int,
            );
            lemma_rows_bounded_concat(
                cs@.bt_inputs,
                cs@.bt_aux,
                cs@.num_constraints,
                coeffs_g1@.len() as int,
            );
            lemma_rows_bounded_concat(
                cs@.ct_inputs,
                cs@.ct_aux,
                cs@.num_constraints,
                coeffs_g1@.len() as int,
            );
            assert(coeffs_g2@.len() == coeffs_g1@.len());
        }
        let a_evals = compute_wire_evals_g1(&coeffs_g1, &cs.at_inputs, &cs.at_aux);
        let b1_evals = compute_wire_evals_g1(&coeffs_g1, &cs.bt_inputs, &cs.bt_aux);
        let b2_evals = compute_wire_evals_g2(&coeffs_g2, &cs.bt_inputs, &cs.bt_aux);
        let c_evals = compute_wire_evals_g1(&coeffs_g1, &cs.ct_inputs, &cs.ct_aux);
        let a_f = filter_nonident_g1(&a_evals);
        let b1_f = filter_nonident_g1(&b1_evals);
        let b2_f = filter_nonident_g2(&b2_evals);
        let c_f = filter_nonident_g1(&c_evals);
        proof {
            assert(g1_views(a_f@) == filter_nonident(
                audit_a_evals(self@, cs@),
                g1_identity_repr(),
            ));
            assert(g1_views(b1_f@) == filter_nonident(
                audit_b1_evals(self@, cs@),
                g1_identity_repr(),
            ));
            assert(g2_views(b2_f@) == filter_nonident(
                audit_b2_evals(self@, cs@),
                g2_identity_repr(),
            ));
            assert(g1_views(c_f@) == filter_nonident(
                audit_c_evals(self@, cs@),
                g1_identity_repr(),
            ));
        }
        let m6 = crate::params::g1_vec_eq(&a_f, &self.params.a) && crate::params::g1_vec_eq(
            &b1_f,
            &self.params.b_g1,
        ) && crate::params::g2_vec_eq(&b2_f, &self.params.b_g2);
        proof {
            assert(m6 == evals_match_crs(self@, cs@));
        }
        let acc_a = match compute_density_msm_g1(&a_f, &cs.at_inputs, &cs.at_aux, z) {
            Some(x) => x,
            None => {
                return (false, m6);
            },
        };
        let acc_b2 = match compute_density_msm_g2(&b2_f, &cs.bt_inputs, &cs.bt_aux, z) {
            Some(x) => x,
            None => {
                return (false, m6);
            },
        };
        let acc_c = match compute_density_msm_g1(&c_f, &cs.ct_inputs, &cs.ct_aux, z) {
            Some(x) => x,
            None => {
                return (false, m6);
            },
        };
        let ni = cs.num_inputs;
        let ic_pref = g1_vec_slice(&self.params.vk.ic, 0, ni);
        let z_inp = fr_vec_slice(z, 0, ni);
        let z_aux = fr_vec_slice(z, ni, z.len());
        proof {
            assert forall|t: int|
                0 <= t < g1_views(ic_pref@).len() implies (#[trigger] g1_views(ic_pref@)[t]).len()
                == 96 && g1_wellformed(g1_views(ic_pref@)[t]) && g1_valid(
                g1_views(ic_pref@)[t]) by {
                assert(g1_views(ic_pref@)[t] == self@.params.vk.ic[t]);
            }
            assert forall|t: int|
                0 <= t < fr_views(z_inp@).len() implies (#[trigger] fr_views(z_inp@)[t]).len()
                == 32 && fr_valid(fr_views(z_inp@)[t]) by {
                assert(fr_views(z_inp@)[t] == fr_views(z@)[t]);
            }
            assert forall|t: int|
                0 <= t < fr_views(z_aux@).len() implies (#[trigger] fr_views(z_aux@)[t]).len()
                == 32 && fr_valid(fr_views(z_aux@)[t]) by {
                assert(fr_views(z_aux@)[t] == fr_views(z@)[ni + t]);
            }
        }
        let acc_l = compute_msm_g1(&self.params.l, &z_aux);
        let acc_ic = compute_msm_g1(&ic_pref, &z_inp);
        let neg_delta = g2_neg(&self.params.vk.delta_g2);
        let neg_gamma = g2_neg(&self.params.vk.gamma_g2);
        let alpha = self.params.vk.alpha_g1.dup();
        let beta2 = self.params.vk.beta_g2.dup();
        proof {
            assert(self@.taus_g2[0] == self.taus_g2@[0]@);
        }
        let g2_gen = self.taus_g2[0].dup();
        let mut pairs: Vec<(G1Elem, G2Elem)> = Vec::new();
        pairs.push((acc_a, beta2));
        pairs.push((alpha, acc_b2));
        pairs.push((acc_c, g2_gen));
        pairs.push((acc_l, neg_delta));
        pairs.push((acc_ic, neg_gamma));
        proof {
            assert(pairs@.len() == 5);
        }
        let ok5 = gt_product_is_one(&pairs);
        proof {
            let e = self@;
            let a = cs@;
            let zw = fr_views(z@);
            let na = a.num_aux;
            let a_fs = filter_nonident(audit_a_evals(e, a), g1_identity_repr());
            let b2_fs = filter_nonident(audit_b2_evals(e, a), g2_identity_repr());
            let c_fs = filter_nonident(audit_c_evals(e, a), g1_identity_repr());
            let n = a.num_inputs + a.num_aux;
            assert(fr_views(z_aux@) =~= zw.subrange(ni as int, ni as int + na));
            assert(fr_views(z_inp@) =~= zw.subrange(0, ni as int));
            assert(g1_views(ic_pref@) =~= e.params.vk.ic.subrange(0, ni as int));
            assert(pairs@.map_values(|pr: (G1Elem, G2Elem)| (pr.0@, pr.1@)) =~= seq![
                (density_msm_g1(a_fs, a.at_inputs + a.at_aux, zw, n)->Some_0.0, e.params.vk.beta_g2),
                (e.params.vk.alpha_g1, density_msm_g2(b2_fs, a.bt_inputs + a.bt_aux, zw, n)->Some_0.0),
                (density_msm_g1(c_fs, a.ct_inputs + a.ct_aux, zw, n)->Some_0.0, e.taus_g2[0]),
                (msm_g1(e.params.l, zw.subrange(ni as int, ni as int + na), na), g2_neg_bytes(e.params.vk.delta_g2)),
                (msm_g1(e.params.vk.ic.subrange(0, ni as int), zw.subrange(0, ni as int), ni as int), g2_neg_bytes(e.params.vk.gamma_g2)),
            ]);
            assert(ok5 == qap_check_ok(e, a, zw));
        }
        (ok5, m6)
    }

    /// Audits this extended CRS against an already-synthesized assembly with
    /// the given random scalars.  The verdict is an exact function of the
    /// arguments: it succeeds precisely when `audit_accepts` holds of their
    /// views, so re-running the audit on unchanged inputs cannot change it,
    /// and no state is kept between runs.  The only failure is
    /// `MalformedCrs`.
    pub fn verify_assembly(
        &self,
        cs: &KeypairAssembly,
        rh: &Vec<FrElem>,
        p: &Vec<FrElem>,
        q: &Vec<FrElem>,
        z: &Vec<FrElem>,
    ) -> (r: Result<(), SynthesisError>)
        requires
            rh@.len() == self.taus_g1@.len() - 1,
            p@.len() == self.taus_g1@.len() - 1,
            q@.len() == self.taus_g1@.len() - 1,
            z@.len() == cs@.num_inputs + cs@.num_aux,
            fr_seq_valid(fr_views(rh@)),
            fr_seq_valid(fr_views(p@)),
            fr_seq_valid(fr_views(q@)),
            fr_seq_valid(fr_views(z@)),
        ensures
            r is Ok <==> audit_accepts(
                self@,
                cs@,
                fr_views(rh@),
                fr_views(p@),
                fr_views(q@),
                fr_views(z@),
            ),
            r is Err ==> r == Err::<(), SynthesisError>(SynthesisError::MalformedCrs),
    {
        proof {
            reveal(audit_accepts);
        }
        if !self.check_valid() {
            return Err(SynthesisError::MalformedCrs);
        }
        if !self.check_shape(cs) {
            return Err(SynthesisError::MalformedCrs);
        }
        if !self.check_nondegenerate() {
            return Err(SynthesisError::MalformedCrs);
        }
        if !self.check_trapdoor() {
            return Err(SynthesisError::MalformedCrs);
        }
        if !self.check_h_query(rh) {
            return Err(SynthesisError::MalformedCrs);
        }
        if !self.check_taus(p, q) {
            return Err(SynthesisError::MalformedCrs);
        }
        let (ok5, ok6) = self.qap_checks(cs, z);
        if !ok5 {
            return Err(SynthesisError::MalformedCrs);
        }
        if !ok6 {
            return Err(SynthesisError::MalformedCrs);
        }
        Ok(())
    }

    /// Audits this extended CRS against the given circuit: synthesizes the
    /// circuit structurally (one constant-one input first, one extra
    /// constraint per public input last, as the generator does), draws the
    /// random scalars, and runs the checks.  On success, the parameters,
    /// the synthesized assembly and the drawn scalars satisfy the audit
    /// predicate; any failing check yields `MalformedCrs`, and errors of the
    /// circuit itself pass through unchanged.
    pub fn verify<C: Circuit>(&self, circuit: &C, rng: &mut CrsRng) -> (r: Result<
        (),
        SynthesisError,
    >)
        ensures
            r is Ok ==> exists|
                a: AssemblyView,
                rh: Seq<Seq<u8>>,
                p: Seq<Seq<u8>>,
                q: Seq<Seq<u8>>,
                z: Seq<Seq<u8>>,
            | audit_accepts(self@, a, rh, p, q, z),
    {
        let mut cs = KeypairAssembly::new();
        let _one = cs.alloc_input();
        match circuit.synthesize(&mut cs) {
            Ok(()) => {},
            Err(e) => {
                return Err(e);
            },
        }
        // The circuit implementation is not verified, so the assembly's
        // counts are re-established before appending the input constraints;
        // an honest implementation only ever uses the assembly's methods and
        // cannot fail these.
        let counts = cs.at_inputs.len() == cs.num_inputs && cs.bt_inputs.len() == cs.num_inputs
            && cs.ct_inputs.len() == cs.num_inputs && cs.at_aux.len() == cs.num_aux
            && cs.bt_aux.len() == cs.num_aux && cs.ct_aux.len() == cs.num_aux;
        if !counts {
            return Err(SynthesisError::MalformedCrs);
        }
        if cs.num_constraints > usize::MAX - cs.num_inputs {
            return Err(SynthesisError::MalformedCrs);
        }
        cs.append_input_constraints();
        if self.taus_g1.len() < 2 || self.taus_g1.len() != self.taus_g2.len() {
            return Err(SynthesisError::MalformedCrs);
        }
        let d = self.taus_g1.len() - 1;
        if cs.num_inputs > usize::MAX - cs.num_aux {
            return Err(SynthesisError::MalformedCrs);
        }
        let num_wires = cs.num_inputs + cs.num_aux;
        let rh = draw_scalars(rng, d);
        let p = draw_scalars(rng, d);
        let q = draw_scalars(rng, d);
        let z = draw_scalars(rng, num_wires);
        let res = self.verify_assembly(&cs, &rh, &p, &q, &z);
        proof {
            if res is Ok {
                assert(audit_accepts(
                    self@,
                    cs@,
                    fr_views(rh@),
                    fr_views(p@),
                    fr_views(q@),
                    fr_views(z@),
                ));
            }
        }
        res
    }
}

} // verus!

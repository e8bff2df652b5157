//! QAP evaluation in the exponent: converting encoded powers of tau to the
//! Lagrange basis by an inverse FFT over the evaluation domain, and summing
//! each wire's sparse row against those basis elements.
//!
//! All group arithmetic goes through the trusted element operations of
//! `curve`; the shape of every computation (the recursion of the transform,
//! the order of each sum) is fixed here and verified.

use vstd::prelude::*;

use crate::assembly::matrix_views;
use crate::curve::{
    bytes_eq, fr_domain_gen_bytes, fr_inv_bytes, fr_mul, fr_mul_bytes, fr_u64_repr, fr_valid,
    fr_zero_repr, fr_from_u64, fr_invert, fr_domain_gen, g1_add, g1_add_bytes, g1_identity,
    g1_identity_repr, g1_mul, g1_mul_bytes, g1_neg, g1_neg_bytes, g1_valid, g1_wellformed, g2_add,
    g2_add_bytes, g2_identity, g2_identity_repr, g2_mul, g2_mul_bytes, g2_neg, g2_neg_bytes,
    g2_valid, g2_wellformed, FrElem, G1Elem, G2Elem,
};
use crate::params::{g1_seq_valid, g1_views, g2_seq_valid, g2_views};

verus! {

/// The views of a scalar vector.
pub open spec fn fr_views(s: Seq<FrElem>) -> Seq<Seq<u8>> {
    Seq::new(s.len(), |i: int| s[i]@)
}

/// Every element of `s` is a valid scalar encoding.
pub open spec fn fr_seq_valid(s: Seq<Seq<u8>>) -> bool {
    forall|i: int| 0 <= i < s.len() ==> (#[trigger] s[i]).len() == 32 && fr_valid(s[i])
}

/// `2^k`.
pub open spec fn pow2(k: int) -> int
    decreases k,
{
    if k <= 0 {
        1
    } else {
        2 * pow2(k - 1)
    }
}

/// `n` is a power of two.
pub open spec fn is_pow2(n: int) -> bool {
    exists|k: int| 0 <= k && n == pow2(k)
}

/// Powers of two are positive.
pub proof fn lemma_pow2_pos(k: int)
    ensures
        pow2(k) >= 1,
    decreases k,
{
    if k > 0 {
        lemma_pow2_pos(k - 1);
    }
}

/// A power of two above one is even, and its half is a power of two.
pub proof fn lemma_pow2_half(n: int)
    requires
        is_pow2(n),
        n >= 2,
    ensures
        n % 2 == 0,
        is_pow2(n / 2),
{
    let k = choose|k: int| 0 <= k && n == pow2(k);
    assert(k >= 1) by {
        if k == 0 {
            assert(pow2(0) == 1);
        }
    }
    lemma_pow2_pos(k - 1);
    assert(n == 2 * pow2(k - 1));
    assert(n / 2 == pow2(k - 1));
    assert(0 <= k - 1 && n / 2 == pow2(k - 1));
}

/// The multi-exponentiation `sum scalars[i] * bases[i]` over the first `n`
/// entries, summed left to right from the identity.
pub open spec fn msm_g1(bases: Seq<Seq<u8>>, scalars: Seq<Seq<u8>>, n: int) -> Seq<u8>
    decreases n,
{
    if n <= 0 {
        g1_identity_repr()
    } else {
        g1_add_bytes(msm_g1(bases, scalars, n - 1), g1_mul_bytes(bases[n - 1], scalars[n - 1]))
    }
}

/// As `msm_g1`, in G2.
pub open spec fn msm_g2(bases: Seq<Seq<u8>>, scalars: Seq<Seq<u8>>, n: int) -> Seq<u8>
    decreases n,
{
    if n <= 0 {
        g2_identity_repr()
    } else {
        g2_add_bytes(msm_g2(bases, scalars, n - 1), g2_mul_bytes(bases[n - 1], scalars[n - 1]))
    }
}

/// Computes `msm_g1` over whole vectors.
pub fn compute_msm_g1(bases: &Vec<G1Elem>, scalars: &Vec<FrElem>) -> (r: G1Elem)
    requires
        bases@.len() == scalars@.len(),
        g1_seq_valid(g1_views(bases@)),
        fr_seq_valid(fr_views(scalars@)),
    ensures
        r@ == msm_g1(g1_views(bases@), fr_views(scalars@), bases@.len() as int),
        g1_wellformed(r@),
        g1_valid(r@),
        r@.len() == 96,
{
    let mut acc = g1_identity();
    let mut i: usize = 0;
    while i < bases.len()
        invariant
            0 <= i <= bases@.len(),
            bases@.len() == scalars@.len(),
            g1_seq_valid(g1_views(bases@)),
            fr_seq_valid(fr_views(scalars@)),
            acc@ == msm_g1(g1_views(bases@), fr_views(scalars@), i as int),
            g1_wellformed(acc@),
            g1_valid(acc@),
            acc@.len() == 96,
        decreases bases@.len() - i,
    {
        proof {
            assert(g1_views(bases@)[i as int] == bases@[i as int]@);
            assert(fr_views(scalars@)[i as int] == scalars@[i as int]@);
        }
        let t = g1_mul(&bases[i], &scalars[i]);
        acc = g1_add(&acc, &t);
        proof {
            assert(acc@ == msm_g1(g1_views(bases@), fr_views(scalars@), i + 1));
        }
        i += 1;
    }
    acc
}

/// Computes `msm_g2` over whole vectors.
pub fn compute_msm_g2(bases: &Vec<G2Elem>, scalars: &Vec<FrElem>) -> (r: G2Elem)
    requires
        bases@.len() == scalars@.len(),
        g2_seq_valid(g2_views(bases@)),
        fr_seq_valid(fr_views(scalars@)),
    ensures
        r@ == msm_g2(g2_views(bases@), fr_views(scalars@), bases@.len() as int),
        g2_wellformed(r@),
        g2_valid(r@),
        r@.len() == 192,
{
    let mut acc = g2_identity();
    let mut i: usize = 0;
    while i < bases.len()
        invariant
            0 <= i <= bases@.len(),
            bases@.len() == scalars@.len(),
            g2_seq_valid(g2_views(bases@)),
            fr_seq_valid(fr_views(scalars@)),
            acc@ == msm_g2(g2_views(bases@), fr_views(scalars@), i as int),
            g2_wellformed(acc@),
            g2_valid(acc@),
            acc@.len() == 192,
        decreases bases@.len() - i,
    {
        proof {
            assert(g2_views(bases@)[i as int] == bases@[i as int]@);
            assert(fr_views(scalars@)[i as int] == scalars@[i as int]@);
        }
        let t = g2_mul(&bases[i], &scalars[i]);
        acc = g2_add(&acc, &t);
        proof {
            assert(acc@ == msm_g2(g2_views(bases@), fr_views(scalars@), i + 1));
        }
        i += 1;
    }
    acc
}

/// A copy of `v[from .. to]`.
pub fn g1_vec_slice(v: &Vec<G1Elem>, from: usize, to: usize) -> (r: Vec<G1Elem>)
    requires
        from <= to <= v@.len(),
    ensures
        g1_views(r@) == g1_views(v@).subrange(from as int, to as int),
        r@.len() == to - from,
{
    let mut r: Vec<G1Elem> = Vec::new();
    let mut i: usize = from;
    while i < to
        invariant
            from <= i <= to <= v@.len(),
            r@.len() == i - from,
            g1_views(r@) == g1_views(v@).subrange(from as int, i as int),
        decreases to - i,
    {
        proof {
            assert(g1_views(v@)[i as int] == v@[i as int]@);
        }
        r.push(v[i].dup());
        proof {
            assert(g1_views(r@) =~= g1_views(v@).subrange(from as int, i + 1 as int));
        }
        i += 1;
    }
    r
}

/// A copy of `v[from .. to]`, in G2.
pub fn g2_vec_slice(v: &Vec<G2Elem>, from: usize, to: usize) -> (r: Vec<G2Elem>)
    requires
        from <= to <= v@.len(),
    ensures
        g2_views(r@) == g2_views(v@).subrange(from as int, to as int),
        r@.len() == to - from,
{
    let mut r: Vec<G2Elem> = Vec::new();
    let mut i: usize = from;
    while i < to
        invariant
            from <= i <= to <= v@.len(),
            r@.len() == i - from,
            g2_views(r@) == g2_views(v@).subrange(from as int, i as int),
        decreases to - i,
    {
        proof {
            assert(g2_views(v@)[i as int] == v@[i as int]@);
        }
        r.push(v[i].dup());
        proof {
            assert(g2_views(r@) =~= g2_views(v@).subrange(from as int, i + 1 as int));
        }
        i += 1;
    }
    r
}

/// A copy of `v[from .. to]`, for scalars.
pub fn fr_vec_slice(v: &Vec<FrElem>, from: usize, to: usize) -> (r: Vec<FrElem>)
    requires
        from <= to <= v@.len(),
    ensures
        fr_views(r@) == fr_views(v@).subrange(from as int, to as int),
        r@.len() == to - from,
{
    let mut r: Vec<FrElem> = Vec::new();
    let mut i: usize = from;
    while i < to
        invariant
            from <= i <= to <= v@.len(),
            r@.len() == i - from,
            fr_views(r@) == fr_views(v@).subrange(from as int, i as int),
        decreases to - i,
    {
        proof {
            assert(fr_views(v@)[i as int] == v@[i as int]@);
        }
        r.push(v[i].dup());
        proof {
            assert(fr_views(r@) =~= fr_views(v@).subrange(from as int, i + 1 as int));
        }
        i += 1;
    }
    r
}

/// The elements of `s` at even positions.
pub open spec fn even_elems(s: Seq<Seq<u8>>) -> Seq<Seq<u8>> {
    Seq::new((s.len() + 1) / 2, |i: int| s[2 * i])
}

/// The elements of `s` at odd positions.
pub open spec fn odd_elems(s: Seq<Seq<u8>>) -> Seq<Seq<u8>> {
    Seq::new(s.len() / 2, |i: int| s[2 * i + 1])
}

/// `w^n`, by repeated multiplication from one.
pub open spec fn fr_pow(w: Seq<u8>, n: int) -> Seq<u8>
    decreases n,
{
    if n <= 0 {
        fr_u64_repr(1)
    } else {
        fr_mul_bytes(fr_pow(w, n - 1), w)
    }
}

/// The radix-2 decimation-in-time transform of `v` with twiddle root `w`:
/// for a vector of length `2h`, the transforms `e` and `o` of the even and
/// odd halves (with root `w^2`) combine as `e[i] + w^i o[i]` in the lower
/// half and `e[i] - w^i o[i]` in the upper half.  With `w` the inverse root
/// of unity of the domain, this is the unscaled inverse transform.
pub open spec fn fft_g1(v: Seq<Seq<u8>>, w: Seq<u8>) -> Seq<Seq<u8>>
    decreases v.len(),
{
    if v.len() <= 1 {
        v
    } else {
        let h = v.len() as int / 2;
        let e = fft_g1(even_elems(v), fr_mul_bytes(w, w));
        let o = fft_g1(odd_elems(v), fr_mul_bytes(w, w));
        Seq::new(
            v.len(),
            |i: int|
                if i < h {
                    g1_add_bytes(e[i], g1_mul_bytes(o[i], fr_pow(w, i)))
                } else {
                    g1_add_bytes(e[i - h], g1_neg_bytes(g1_mul_bytes(o[i - h], fr_pow(w, i - h))))
                },
        )
    }
}

/// As `fft_g1`, in G2.
pub open spec fn fft_g2(v: Seq<Seq<u8>>, w: Seq<u8>) -> Seq<Seq<u8>>
    decreases v.len(),
{
    if v.len() <= 1 {
        v
    } else {
        let h = v.len() as int / 2;
        let e = fft_g2(even_elems(v), fr_mul_bytes(w, w));
        let o = fft_g2(odd_elems(v), fr_mul_bytes(w, w));
        Seq::new(
            v.len(),
            |i: int|
                if i < h {
                    g2_add_bytes(e[i], g2_mul_bytes(o[i], fr_pow(w, i)))
                } else {
                    g2_add_bytes(e[i - h], g2_neg_bytes(g2_mul_bytes(o[i - h], fr_pow(w, i - h))))
                },
        )
    }
}

/// The Lagrange-basis conversion of a domain-sized vector: the inverse
/// transform (with the domain's inverse root `fr_domain_gen_bytes(k, true)`)
/// scaled by the inverse of the domain size.
pub open spec fn lagrange_g1(v: Seq<Seq<u8>>, k: u32) -> Seq<Seq<u8>> {
    let t = fft_g1(v, fr_domain_gen_bytes(k, true));
    Seq::new(v.len(), |i: int| g1_mul_bytes(t[i], fr_inv_bytes(fr_u64_repr((pow2(k as int)) as u64))))
}

/// As `lagrange_g1`, in G2.
pub open spec fn lagrange_g2(v: Seq<Seq<u8>>, k: u32) -> Seq<Seq<u8>> {
    let t = fft_g2(v, fr_domain_gen_bytes(k, true));
    Seq::new(v.len(), |i: int| g2_mul_bytes(t[i], fr_inv_bytes(fr_u64_repr((pow2(k as int)) as u64))))
}

/// Computes `fft_g1` over a vector whose length is a power of two.
#[verifier::rlimit(60)]
#[verifier::spinoff_prover]
pub fn compute_fft_g1(v: &Vec<G1Elem>, w: &FrElem) -> (r: Vec<G1Elem>)
    requires
        g1_seq_valid(g1_views(v@)),
        fr_valid(w@),
        w@.len() == 32,
        is_pow2(v@.len() as int),
    ensures
        g1_views(r@) == fft_g1(g1_views(v@), w@),
        g1_seq_valid(g1_views(r@)),
        r@.len() == v@.len(),
    decreases v@.len(),
{
    let n = v.len();
    if n <= 1 {
        let r = g1_vec_slice(v, 0, n);
        proof {
            assert(g1_views(v@).subrange(0, n as int) =~= g1_views(v@));
        }
        return r;
    }
    proof {
        lemma_pow2_half(v@.len() as int);
    }
    let h = n / 2;
    let ghost vw = g1_views(v@);
    let mut ev: Vec<G1Elem> = Vec::new();
    let mut od: Vec<G1Elem> = Vec::new();
    let mut i: usize = 0;
    while i < h
        invariant
            0 <= i <= h,
            n == vw.len(),
            vw == g1_views(v@),
            n == 2 * h,
            g1_seq_valid(vw),
            ev@.len() == i,
            od@.len() == i,
            g1_views(ev@) == even_elems(vw).take(i as int),
            g1_views(od@) == odd_elems(vw).take(i as int),
        decreases h - i,
    {
        proof {
            assert(vw[2 * i as int] == v@[2 * i as int]@);
            assert(vw[2 * i + 1] == v@[2 * i + 1]@);
            assert(even_elems(vw)[i as int] == vw[2 * i as int]);
            assert(odd_elems(vw)[i as int] == vw[2 * i + 1]);
        }
        ev.push(v[2 * i].dup());
        od.push(v[2 * i + 1].dup());
        proof {
            assert(g1_views(ev@) =~= even_elems(vw).take(i + 1 as int));
            assert(g1_views(od@) =~= odd_elems(vw).take(i + 1 as int));
        }
        i += 1;
    }
    proof {
        assert(g1_views(ev@) =~= even_elems(vw));
        assert(g1_views(od@) =~= odd_elems(vw));
        assert forall|j: int|
            0 <= j < even_elems(vw).len() implies (#[trigger] even_elems(vw)[j]).len() == 96
            && g1_wellformed(even_elems(vw)[j]) && g1_valid(even_elems(vw)[j]) by {
            assert(even_elems(vw)[j] == vw[2 * j]);
        }
        assert forall|j: int|
            0 <= j < odd_elems(vw).len() implies (#[trigger] odd_elems(vw)[j]).len() == 96
            && g1_wellformed(odd_elems(vw)[j]) && g1_valid(odd_elems(vw)[j]) by {
            assert(odd_elems(vw)[j] == vw[2 * j + 1]);
        }
    }
    let w2 = fr_mul(w, w);
    let e = compute_fft_g1(&ev, &w2);
    let o = compute_fft_g1(&od, &w2);
    let ghost spec_r = fft_g1(vw, w@);
    proof {
        assert(spec_r.len() == n);
        assert(forall|j: int|
            0 <= j < h ==> #[trigger] spec_r[j] == g1_add_bytes(
                fft_g1(even_elems(vw), fr_mul_bytes(w@, w@))[j],
                g1_mul_bytes(fft_g1(odd_elems(vw), fr_mul_bytes(w@, w@))[j], fr_pow(w@, j)),
            ));
        assert(forall|j: int|
            h <= j < n ==> #[trigger] spec_r[j] == g1_add_bytes(
                fft_g1(even_elems(vw), fr_mul_bytes(w@, w@))[j - h],
                g1_neg_bytes(
                    g1_mul_bytes(
                        fft_g1(odd_elems(vw), fr_mul_bytes(w@, w@))[j - h],
                        fr_pow(w@, j - h),
                    ),
                ),
            ));
    }
    let mut lo: Vec<G1Elem> = Vec::new();
    let mut hi: Vec<G1Elem> = Vec::new();
    let mut wi = fr_from_u64(1);
    let mut i: usize = 0;
    while i < h
        invariant
            0 <= i <= h,
            n == vw.len(),
            n == 2 * h,
            spec_r == fft_g1(vw, w@),
            spec_r.len() == n,
            e@.len() == h,
            o@.len() == h,
            g1_views(e@) == fft_g1(even_elems(vw), fr_mul_bytes(w@, w@)),
            g1_views(o@) == fft_g1(odd_elems(vw), fr_mul_bytes(w@, w@)),
            g1_seq_valid(g1_views(e@)),
            g1_seq_valid(g1_views(o@)),
            fr_valid(w@),
            fr_valid(wi@),
            wi@ == fr_pow(w@, i as int),
            wi@.len() == 32,
            lo@.len() == i,
            hi@.len() == i,
            forall|j: int|
                0 <= j < h ==> #[trigger] spec_r[j] == g1_add_bytes(
                    g1_views(e@)[j],
                    g1_mul_bytes(g1_views(o@)[j], fr_pow(w@, j)),
                ),
            forall|j: int|
                h <= j < n ==> #[trigger] spec_r[j] == g1_add_bytes(
                    g1_views(e@)[j - h],
                    g1_neg_bytes(g1_mul_bytes(g1_views(o@)[j - h], fr_pow(w@, j - h))),
                ),
            forall|j: int|
                0 <= j < i ==> #[trigger] g1_views(lo@)[j] == spec_r[j] && g1_wellformed(
                    spec_r[j],
                ) && g1_valid(spec_r[j]) && spec_r[j].len() == 96,
            forall|j: int|
                0 <= j < i ==> #[trigger] g1_views(hi@)[j] == spec_r[h + j] && g1_wellformed(
                    spec_r[h + j],
                ) && g1_valid(spec_r[h + j]) && spec_r[h + j].len() == 96,
        decreases h - i,
    {
        proof {
            assert(g1_views(e@)[i as int] == e@[i as int]@);
            assert(g1_views(o@)[i as int] == o@[i as int]@);
        }
        let t = g1_mul(&o[i], &wi);
        let tn = g1_neg(&t);
        let ghost prev_lo = g1_views(lo@);
        let ghost prev_hi = g1_views(hi@);
        let el = g1_add(&e[i], &t);
        let eh = g1_add(&e[i], &tn);
        lo.push(el);
        hi.push(eh);
        proof {
            assert(g1_views(lo@) =~= prev_lo.push(el@));
            assert(g1_views(hi@) =~= prev_hi.push(eh@));
            assert(el@ == spec_r[i as int]);
            assert(eh@ == spec_r[h + i]);
            assert(forall|j: int|
                0 <= j < prev_lo.len() ==> #[trigger] g1_views(lo@)[j] == prev_lo[j]);
            assert(forall|j: int|
                0 <= j < prev_hi.len() ==> #[trigger] g1_views(hi@)[j] == prev_hi[j]);
            assert(g1_views(lo@)[i as int] == el@);
            assert(g1_views(hi@)[i as int] == eh@);
        }
        wi = fr_mul(&wi, w);
        i += 1;
    }
    proof {
        assert forall|t: int|
            0 <= t < h implies g1_wellformed(#[trigger] spec_r[t]) && g1_valid(spec_r[t])
            && spec_r[t].len() == 96 by {
            assert(g1_views(lo@)[t] == spec_r[t]);
        }
        assert(g1_views(lo@) =~= spec_r.take(h as int));
    }
    let mut r = lo;
    proof {
        assert(g1_views(r@) =~= spec_r.take(h as int));
    }
    let mut j: usize = 0;
    while j < hi.len()
        invariant
            0 <= j <= hi@.len(),
            hi@.len() == h,
            n == 2 * h,
            spec_r.len() == n,
            r@.len() == h + j,
            forall|t: int|
                0 <= t < i ==> #[trigger] g1_views(hi@)[t] == spec_r[h + t] && g1_wellformed(
                    spec_r[h + t],
                ) && g1_valid(spec_r[h + t]) && spec_r[h + t].len() == 96,
            i == h,
            forall|t: int|
                0 <= t < h ==> g1_wellformed(#[trigger] spec_r[t]) && g1_valid(spec_r[t])
                && spec_r[t].len() == 96,
            g1_views(r@) == spec_r.take(h + j),
        decreases hi@.len() - j,
    {
        let ghost prev = g1_views(r@);
        proof {
            assert(g1_views(hi@)[j as int] == hi@[j as int]@);
        }
        r.push(hi[j].dup());
        proof {
            assert(g1_views(r@) =~= prev.push(spec_r[h + j]));
            assert(g1_views(r@) =~= spec_r.take(h + j + 1));
        }
        j += 1;
    }
    proof {
        assert(g1_views(r@) =~= spec_r);
        assert forall|t: int|
            0 <= t < spec_r.len() implies (#[trigger] spec_r[t]).len() == 96
            && g1_wellformed(spec_r[t]) && g1_valid(spec_r[t]) by {
            if t >= h {
                assert(g1_views(hi@)[t - h] == spec_r[t]);
            }
        }
    }
    r
}

/// Computes `fft_g2` over a vector whose length is a power of two.
#[verifier::rlimit(60)]
#[verifier::spinoff_prover]
pub fn compute_fft_g2(v: &Vec<G2Elem>, w: &FrElem) -> (r: Vec<G2Elem>)
    requires
        g2_seq_valid(g2_views(v@)),
        fr_valid(w@),
        w@.len() == 32,
        is_pow2(v@.len() as int),
    ensures
        g2_views(r@) == fft_g2(g2_views(v@), w@),
        g2_seq_valid(g2_views(r@)),
        r@.len() == v@.len(),
    decreases v@.len(),
{
    let n = v.len();
    if n <= 1 {
        let r = g2_vec_slice(v, 0, n);
        proof {
            assert(g2_views(v@).subrange(0, n as int) =~= g2_views(v@));
        }
        return r;
    }
    proof {
        lemma_pow2_half(v@.len() as int);
    }
    let h = n / 2;
    let ghost vw = g2_views(v@);
    let mut ev: Vec<G2Elem> = Vec::new();
    let mut od: Vec<G2Elem> = Vec::new();
    let mut i: usize = 0;
    while i < h
        invariant
            0 <= i <= h,
            n == vw.len(),
            vw == g2_views(v@),
            n == 2 * h,
            g2_seq_valid(vw),
            ev@.len() == i,
            od@.len() == i,
            g2_views(ev@) == even_elems(vw).take(i as int),
            g2_views(od@) == odd_elems(vw).take(i as int),
        decreases h - i,
    {
        proof {
            assert(vw[2 * i as int] == v@[2 * i as int]@);
            assert(vw[2 * i + 1] == v@[2 * i + 1]@);
            assert(even_elems(vw)[i as int] == vw[2 * i as int]);
            assert(odd_elems(vw)[i as int] == vw[2 * i + 1]);
        }
        ev.push(v[2 * i].dup());
        od.push(v[2 * i + 1].dup());
        proof {
            assert(g2_views(ev@) =~= even_elems(vw).take(i + 1 as int));
            assert(g2_views(od@) =~= odd_elems(vw).take(i + 1 as int));
        }
        i += 1;
    }
    proof {
        assert(g2_views(ev@) =~= even_elems(vw));
        assert(g2_views(od@) =~= odd_elems(vw));
        assert forall|j: int|
            0 <= j < even_elems(vw).len() implies (#[trigger] even_elems(vw)[j]).len() == 192
            && g2_wellformed(even_elems(vw)[j]) && g2_valid(even_elems(vw)[j]) by {
            assert(even_elems(vw)[j] == vw[2 * j]);
        }
        assert forall|j: int|
            0 <= j < odd_elems(vw).len() implies (#[trigger] odd_elems(vw)[j]).len() == 192
            && g2_wellformed(odd_elems(vw)[j]) && g2_valid(odd_elems(vw)[j]) by {
            assert(odd_elems(vw)[j] == vw[2 * j + 1]);
        }
    }
    let w2 = fr_mul(w, w);
    let e = compute_fft_g2(&ev, &w2);
    let o = compute_fft_g2(&od, &w2);
    let ghost spec_r = fft_g2(vw, w@);
    proof {
        assert(spec_r.len() == n);
        assert(forall|j: int|
            0 <= j < h ==> #[trigger] spec_r[j] == g2_add_bytes(
                fft_g2(even_elems(vw), fr_mul_bytes(w@, w@))[j],
                g2_mul_bytes(fft_g2(odd_elems(vw), fr_mul_bytes(w@, w@))[j], fr_pow(w@, j)),
            ));
        assert(forall|j: int|
            h <= j < n ==> #[trigger] spec_r[j] == g2_add_bytes(
                fft_g2(even_elems(vw), fr_mul_bytes(w@, w@))[j - h],
                g2_neg_bytes(
                    g2_mul_bytes(
                        fft_g2(odd_elems(vw), fr_mul_bytes(w@, w@))[j - h],
                        fr_pow(w@, j - h),
                    ),
                ),
            ));
    }
    let mut lo: Vec<G2Elem> = Vec::new();
    let mut hi: Vec<G2Elem> = Vec::new();
    let mut wi = fr_from_u64(1);
    let mut i: usize = 0;
    while i < h
        invariant
            0 <= i <= h,
            n == vw.len(),
            n == 2 * h,
            spec_r == fft_g2(vw, w@),
            spec_r.len() == n,
            e@.len() == h,
            o@.len() == h,
            g2_views(e@) == fft_g2(even_elems(vw), fr_mul_bytes(w@, w@)),
            g2_views(o@) == fft_g2(odd_elems(vw), fr_mul_bytes(w@, w@)),
            g2_seq_valid(g2_views(e@)),
            g2_seq_valid(g2_views(o@)),
            fr_valid(w@),
            fr_valid(wi@),
            wi@ == fr_pow(w@, i as int),
            wi@.len() == 32,
            lo@.len() == i,
            hi@.len() == i,
            forall|j: int|
                0 <= j < h ==> #[trigger] spec_r[j] == g2_add_bytes(
                    g2_views(e@)[j],
                    g2_mul_bytes(g2_views(o@)[j], fr_pow(w@, j)),
                ),
            forall|j: int|
                h <= j < n ==> #[trigger] spec_r[j] == g2_add_bytes(
                    g2_views(e@)[j - h],
                    g2_neg_bytes(g2_mul_bytes(g2_views(o@)[j - h], fr_pow(w@, j - h))),
                ),
            forall|j: int|
                0 <= j < i ==> #[trigger] g2_views(lo@)[j] == spec_r[j] && g2_wellformed(
                    spec_r[j],
                ) && g2_valid(spec_r[j]) && spec_r[j].len() == 192,
            forall|j: int|
                0 <= j < i ==> #[trigger] g2_views(hi@)[j] == spec_r[h + j] && g2_wellformed(
                    spec_r[h + j],
                ) && g2_valid(spec_r[h + j]) && spec_r[h + j].len() == 192,
        decreases h - i,
    {
        proof {
            assert(g2_views(e@)[i as int] == e@[i as int]@);
            assert(g2_views(o@)[i as int] == o@[i as int]@);
        }
        let t = g2_mul(&o[i], &wi);
        let tn = g2_neg(&t);
        let ghost prev_lo = g2_views(lo@);
        let ghost prev_hi = g2_views(hi@);
        let el = g2_add(&e[i], &t);
        let eh = g2_add(&e[i], &tn);
        lo.push(el);
        hi.push(eh);
        proof {
            assert(g2_views(lo@) =~= prev_lo.push(el@));
            assert(g2_views(hi@) =~= prev_hi.push(eh@));
            assert(el@ == spec_r[i as int]);
            assert(eh@ == spec_r[h + i]);
            assert(forall|j: int|
                0 <= j < prev_lo.len() ==> #[trigger] g2_views(lo@)[j] == prev_lo[j]);
            assert(forall|j: int|
                0 <= j < prev_hi.len() ==> #[trigger] g2_views(hi@)[j] == prev_hi[j]);
            assert(g2_views(lo@)[i as int] == el@);
            assert(g2_views(hi@)[i as int] == eh@);
        }
        wi = fr_mul(&wi, w);
        i += 1;
    }
    proof {
        assert forall|t: int|
            0 <= t < h implies g2_wellformed(#[trigger] spec_r[t]) && g2_valid(spec_r[t])
            && spec_r[t].len() == 192 by {
            assert(g2_views(lo@)[t] == spec_r[t]);
        }
        assert(g2_views(lo@) =~= spec_r.take(h as int));
    }
    let mut r = lo;
    proof {
        assert(g2_views(r@) =~= spec_r.take(h as int));
    }
    let mut j: usize = 0;
    while j < hi.len()
        invariant
            0 <= j <= hi@.len(),
            hi@.len() == h,
            n == 2 * h,
            spec_r.len() == n,
            r@.len() == h + j,
            forall|t: int|
                0 <= t < i ==> #[trigger] g2_views(hi@)[t] == spec_r[h + t] && g2_wellformed(
                    spec_r[h + t],
                ) && g2_valid(spec_r[h + t]) && spec_r[h + t].len() == 192,
            i == h,
            forall|t: int|
                0 <= t < h ==> g2_wellformed(#[trigger] spec_r[t]) && g2_valid(spec_r[t])
                && spec_r[t].len() == 192,
            g2_views(r@) == spec_r.take(h + j),
        decreases hi@.len() - j,
    {
        let ghost prev = g2_views(r@);
        proof {
            assert(g2_views(hi@)[j as int] == hi@[j as int]@);
        }
        r.push(hi[j].dup());
        proof {
            assert(g2_views(r@) =~= prev.push(spec_r[h + j]));
            assert(g2_views(r@) =~= spec_r.take(h + j + 1));
        }
        j += 1;
    }
    proof {
        assert(g2_views(r@) =~= spec_r);
        assert forall|t: int|
            0 <= t < spec_r.len() implies (#[trigger] spec_r[t]).len() == 192
            && g2_wellformed(spec_r[t]) && g2_valid(spec_r[t]) by {
            if t >= h {
                assert(g2_views(hi@)[t - h] == spec_r[t]);
            }
        }
    }
    r
}

/// Computes the Lagrange-basis conversion `lagrange_g1` of a domain-sized
/// vector, `k` being the domain's log-size.
pub fn compute_lagrange_g1(v: &Vec<G1Elem>, k: u32) -> (r: Vec<G1Elem>)
    requires
        g1_seq_valid(g1_views(v@)),
        1 <= k <= 32,
        v@.len() == pow2(k as int),
    ensures
        g1_views(r@) == lagrange_g1(g1_views(v@), k),
        g1_seq_valid(g1_views(r@)),
        r@.len() == v@.len(),
{
    let w = fr_domain_gen(k, true);
    proof {
        assert(0 <= k as int && v@.len() == pow2(k as int));
        assert(is_pow2(v@.len() as int));
    }
    let t = compute_fft_g1(v, &w);
    let m: u64 = 1u64 << k;
    let m_elem = fr_from_u64(m);
    proof {
        lemma_pow2_shift(k);
        lemma_pow2_repr_nonzero(k);
    }
    let m_inv = match fr_invert(&m_elem) {
        Some(x) => x,
        None => {
            proof {
                assert(false);
            }
            fr_from_u64(1)
        },
    };
    let mut r: Vec<G1Elem> = Vec::new();
    let mut i: usize = 0;
    while i < t.len()
        invariant
            0 <= i <= t@.len(),
            t@.len() == v@.len(),
            g1_views(t@) == fft_g1(g1_views(v@), fr_domain_gen_bytes(k, true)),
            g1_seq_valid(g1_views(t@)),
            fr_valid(m_inv@),
            m_inv@ == fr_inv_bytes(fr_u64_repr((pow2(k as int)) as u64)),
            r@.len() == i,
            forall|j: int|
                0 <= j < i ==> #[trigger] g1_views(r@)[j] == g1_mul_bytes(
                    g1_views(t@)[j],
                    fr_inv_bytes(fr_u64_repr((pow2(k as int)) as u64)),
                ),
            forall|j: int|
                0 <= j < i ==> g1_wellformed(#[trigger] g1_views(r@)[j]) && g1_valid(
                    g1_views(r@)[j],
                ) && g1_views(r@)[j].len() == 96,
        decreases t@.len() - i,
    {
        let ghost prev = g1_views(r@);
        proof {
            assert(g1_views(t@)[i as int] == t@[i as int]@);
        }
        let e = g1_mul(&t[i], &m_inv);
        r.push(e);
        proof {
            assert(g1_views(r@) =~= prev.push(e@));
        }
        i += 1;
    }
    proof {
        assert(g1_views(r@) =~= lagrange_g1(g1_views(v@), k));
    }
    r
}

/// Computes the Lagrange-basis conversion in G2.
pub fn compute_lagrange_g2(v: &Vec<G2Elem>, k: u32) -> (r: Vec<G2Elem>)
    requires
        g2_seq_valid(g2_views(v@)),
        1 <= k <= 32,
        v@.len() == pow2(k as int),
    ensures
        g2_views(r@) == lagrange_g2(g2_views(v@), k),
        g2_seq_valid(g2_views(r@)),
        r@.len() == v@.len(),
{
    let w = fr_domain_gen(k, true);
    proof {
        assert(0 <= k as int && v@.len() == pow2(k as int));
        assert(is_pow2(v@.len() as int));
    }
    let t = compute_fft_g2(v, &w);
    let m: u64 = 1u64 << k;
    let m_elem = fr_from_u64(m);
    proof {
        lemma_pow2_shift(k);
        lemma_pow2_repr_nonzero(k);
    }
    let m_inv = match fr_invert(&m_elem) {
        Some(x) => x,
        None => {
            proof {
                assert(false);
            }
            fr_from_u64(1)
        },
    };
    let mut r: Vec<G2Elem> = Vec::new();
    let mut i: usize = 0;
    while i < t.len()
        invariant
            0 <= i <= t@.len(),
            t@.len() == v@.len(),
            g2_views(t@) == fft_g2(g2_views(v@), fr_domain_gen_bytes(k, true)),
            g2_seq_valid(g2_views(t@)),
            fr_valid(m_inv@),
            m_inv@ == fr_inv_bytes(fr_u64_repr((pow2(k as int)) as u64)),
            r@.len() == i,
            forall|j: int|
                0 <= j < i ==> #[trigger] g2_views(r@)[j] == g2_mul_bytes(
                    g2_views(t@)[j],
                    fr_inv_bytes(fr_u64_repr((pow2(k as int)) as u64)),
                ),
            forall|j: int|
                0 <= j < i ==> g2_wellformed(#[trigger] g2_views(r@)[j]) && g2_valid(
                    g2_views(r@)[j],
                ) && g2_views(r@)[j].len() == 192,
        decreases t@.len() - i,
    {
        let ghost prev = g2_views(r@);
        proof {
            assert(g2_views(t@)[i as int] == t@[i as int]@);
        }
        let e = g2_mul(&t[i], &m_inv);
        r.push(e);
        proof {
            assert(g2_views(r@) =~= prev.push(e@));
        }
        i += 1;
    }
    proof {
        assert(g2_views(r@) =~= lagrange_g2(g2_views(v@), k));
    }
    r
}

/// `1u64 << k` is `pow2(k)` for `k <= 32`.
pub proof fn lemma_pow2_shift(k: u32)
    requires
        k <= 32,
    ensures
        (1u64 << k) as int == pow2(k as int),
        pow2(k as int) <= 0x100000000,
    decreases k,
{
    if k == 0 {
        assert(1u64 << 0 == 1u64) by (bit_vector);
    } else {
        lemma_pow2_shift((k - 1) as u32);
        assert(forall|j: u32| 0 < j <= 32 ==> #[trigger] (1u64 << j) == 2 * (1u64 << (j - 1) as u32))
            by (bit_vector);
        assert((1u64 << k) <= 0x100000000u64) by (bit_vector)
            requires
                k <= 32u32,
        ;
    }
}

/// The little-endian encoding of a power of two is not the zero encoding.
pub proof fn lemma_pow2_repr_nonzero(k: u32)
    requires
        k <= 32,
    ensures
        fr_u64_repr((pow2(k as int)) as u64) != fr_zero_repr(),
{
    lemma_pow2_shift(k);
    let m = 1u64 << k;
    let j = k >> 3;
    assert(j <= 4 && ((m >> (8 * j) as u64) as u8) != 0 && 8 * j < 64) by (bit_vector)
        requires
            k <= 32,
            m == 1u64 << k,
            j == k >> 3,
    ;
    assert(fr_u64_repr(m)[j as int] == (m >> ((8 * j) as u64)) as u8) by {
        assert((m >> (8 * (j as int))) == (m >> ((8 * j) as u64))) by (bit_vector)
            requires
                j <= 4,
        ;
    }
    assert(fr_zero_repr()[j as int] == 0);
    assert(fr_u64_repr(m) != fr_zero_repr());
}

/// The sum of one wire's sparse row against the Lagrange-basis elements:
/// `sum coeff * coeffs[lag]` over the first `n` entries of the row.
pub open spec fn row_sum_g1(coeffs: Seq<Seq<u8>>, row: Seq<(Seq<u8>, int)>, n: int) -> Seq<u8>
    decreases n,
{
    if n <= 0 {
        g1_identity_repr()
    } else {
        g1_add_bytes(
            row_sum_g1(coeffs, row, n - 1),
            g1_mul_bytes(coeffs[row[n - 1].1], row[n - 1].0),
        )
    }
}

/// As `row_sum_g1`, in G2.
pub open spec fn row_sum_g2(coeffs: Seq<Seq<u8>>, row: Seq<(Seq<u8>, int)>, n: int) -> Seq<u8>
    decreases n,
{
    if n <= 0 {
        g2_identity_repr()
    } else {
        g2_add_bytes(
            row_sum_g2(coeffs, row, n - 1),
            g2_mul_bytes(coeffs[row[n - 1].1], row[n - 1].0),
        )
    }
}

/// The per-wire evaluations of one matrix: one row sum per wire.
pub open spec fn wire_evals_g1(coeffs: Seq<Seq<u8>>, rows: Seq<Seq<(Seq<u8>, int)>>) -> Seq<
    Seq<u8>,
> {
    Seq::new(rows.len(), |w: int| row_sum_g1(coeffs, rows[w], rows[w].len() as int))
}

/// As `wire_evals_g1`, in G2.
pub open spec fn wire_evals_g2(coeffs: Seq<Seq<u8>>, rows: Seq<Seq<(Seq<u8>, int)>>) -> Seq<
    Seq<u8>,
> {
    Seq::new(rows.len(), |w: int| row_sum_g2(coeffs, rows[w], rows[w].len() as int))
}

/// The evaluations with the encodings of zero (the group identity) removed,
/// in wire order; the stored CRS arrays omit zero evaluations the same way.
pub open spec fn filter_nonident(s: Seq<Seq<u8>>, ident: Seq<u8>) -> Seq<Seq<u8>>
    decreases s.len(),
{
    if s.len() == 0 {
        Seq::empty()
    } else {
        filter_nonident(s.drop_last(), ident) + (if s.last() == ident {
            Seq::<Seq<u8>>::empty()
        } else {
            seq![s.last()]
        })
    }
}

/// Every row's entries point below `nc`, and every coefficient is valid.
pub open spec fn rows_bounded(rows: Seq<Seq<(Seq<u8>, int)>>, nc: int) -> bool {
    forall|w: int, j: int|
        0 <= w < rows.len() && 0 <= j < rows[w].len() ==> {
            let t = #[trigger] rows[w][j];
            0 <= t.1 < nc && t.0.len() == 32 && fr_valid(t.0)
        }
}

/// Computes the per-wire evaluations of one matrix in G1, over rows listed
/// input wires first, then auxiliary wires.
pub fn compute_wire_evals_g1(
    coeffs: &Vec<G1Elem>,
    inp: &Vec<Vec<(FrElem, usize)>>,
    aux: &Vec<Vec<(FrElem, usize)>>,
) -> (r: Vec<G1Elem>)
    requires
        g1_seq_valid(g1_views(coeffs@)),
        rows_bounded(matrix_views(inp@) + matrix_views(aux@), coeffs@.len() as int),
    ensures
        g1_views(r@) == wire_evals_g1(g1_views(coeffs@), matrix_views(inp@) + matrix_views(aux@)),
        g1_seq_valid(g1_views(r@)),
        r@.len() == inp@.len() + aux@.len(),
{
    let ghost rows = matrix_views(inp@) + matrix_views(aux@);
    let ghost cw = g1_views(coeffs@);
    let mut r: Vec<G1Elem> = Vec::new();
    let mut w: usize = 0;
    while w < inp.len()
        invariant
            0 <= w <= inp@.len(),
            rows == matrix_views(inp@) + matrix_views(aux@),
            cw == g1_views(coeffs@),
            g1_seq_valid(cw),
            rows_bounded(rows, cw.len() as int),
            r@.len() == w,
            forall|t: int|
                0 <= t < w ==> #[trigger] g1_views(r@)[t] == row_sum_g1(
                    cw,
                    rows[t],
                    rows[t].len() as int,
                ) && g1_wellformed(g1_views(r@)[t]) && g1_valid(g1_views(r@)[t]) && g1_views(
                    r@,
                )[t].len() == 96,
        decreases inp@.len() - w,
    {
        proof {
            assert(rows[w as int] == matrix_views(inp@)[w as int]);
        }
        let ghost prev = g1_views(r@);
        let e = row_eval_g1(coeffs, &inp[w], Ghost(rows), Ghost(w as int));
        r.push(e);
        proof {
            assert(g1_views(r@) =~= prev.push(e@));
            assert(forall|t: int| 0 <= t < prev.len() ==> #[trigger] g1_views(r@)[t] == prev[t]);
        }
        w += 1;
    }
    let mut u: usize = 0;
    while u < aux.len()
        invariant
            0 <= u <= aux@.len(),
            rows == matrix_views(inp@) + matrix_views(aux@),
            cw == g1_views(coeffs@),
            g1_seq_valid(cw),
            rows_bounded(rows, cw.len() as int),
            r@.len() == inp@.len() + u,
            forall|t: int|
                0 <= t < r@.len() ==> #[trigger] g1_views(r@)[t] == row_sum_g1(
                    cw,
                    rows[t],
                    rows[t].len() as int,
                ) && g1_wellformed(g1_views(r@)[t]) && g1_valid(g1_views(r@)[t]) && g1_views(
                    r@,
                )[t].len() == 96,
        decreases aux@.len() - u,
    {
        proof {
            assert(rows[inp@.len() + u] == matrix_views(aux@)[u as int]);
        }
        let ghost prev = g1_views(r@);
        let e = row_eval_g1(coeffs, &aux[u], Ghost(rows), Ghost(inp@.len() + u));
        r.push(e);
        proof {
            assert(g1_views(r@) =~= prev.push(e@));
            assert(forall|t: int| 0 <= t < prev.len() ==> #[trigger] g1_views(r@)[t] == prev[t]);
        }
        u += 1;
    }
    proof {
        assert(g1_views(r@) =~= wire_evals_g1(cw, rows));
    }
    r
}

/// Computes one wire's row sum in G1.
fn row_eval_g1(
    coeffs: &Vec<G1Elem>,
    row: &Vec<(FrElem, usize)>,
    Ghost(rows): Ghost<Seq<Seq<(Seq<u8>, int)>>>,
    Ghost(w): Ghost<int>,
) -> (r: G1Elem)
    requires
        g1_seq_valid(g1_views(coeffs@)),
        rows_bounded(rows, coeffs@.len() as int),
        0 <= w < rows.len(),
        rows[w] == crate::assembly::row_views(row@),
    ensures
        r@ == row_sum_g1(g1_views(coeffs@), rows[w], rows[w].len() as int),
        g1_wellformed(r@),
        g1_valid(r@),
        r@.len() == 96,
{
    let ghost cw = g1_views(coeffs@);
    let mut acc = g1_identity();
    let mut j: usize = 0;
    while j < row.len()
        invariant
            0 <= j <= row@.len(),
            cw == g1_views(coeffs@),
            g1_seq_valid(cw),
            rows_bounded(rows, cw.len() as int),
            0 <= w < rows.len(),
            rows[w] == crate::assembly::row_views(row@),
            acc@ == row_sum_g1(cw, rows[w], j as int),
            g1_wellformed(acc@),
            g1_valid(acc@),
            acc@.len() == 96,
        decreases row@.len() - j,
    {
        proof {
            assert(rows[w][j as int] == (row@[j as int].0@, row@[j as int].1 as int));
            assert(cw[row@[j as int].1 as int] == coeffs@[row@[j as int].1 as int]@);
        }
        let lag = row[j].1;
        let t = g1_mul(&coeffs[lag], &row[j].0);
        acc = g1_add(&acc, &t);
        proof {
            assert(acc@ == row_sum_g1(cw, rows[w], j + 1));
        }
        j += 1;
    }
    acc
}

/// Computes the per-wire evaluations of one matrix in G2.
pub fn compute_wire_evals_g2(
    coeffs: &Vec<G2Elem>,
    inp: &Vec<Vec<(FrElem, usize)>>,
    aux: &Vec<Vec<(FrElem, usize)>>,
) -> (r: Vec<G2Elem>)
    requires
        g2_seq_valid(g2_views(coeffs@)),
        rows_bounded(matrix_views(inp@) + matrix_views(aux@), coeffs@.len() as int),
    ensures
        g2_views(r@) == wire_evals_g2(g2_views(coeffs@), matrix_views(inp@) + matrix_views(aux@)),
        g2_seq_valid(g2_views(r@)),
        r@.len() == inp@.len() + aux@.len(),
{
    let ghost rows = matrix_views(inp@) + matrix_views(aux@);
    let ghost cw = g2_views(coeffs@);
    let mut r: Vec<G2Elem> = Vec::new();
    let mut w: usize = 0;
    while w < inp.len()
        invariant
            0 <= w <= inp@.len(),
            rows == matrix_views(inp@) + matrix_views(aux@),
            cw == g2_views(coeffs@),
            g2_seq_valid(cw),
            rows_bounded(rows, cw.len() as int),
            r@.len() == w,
            forall|t: int|
                0 <= t < w ==> #[trigger] g2_views(r@)[t] == row_sum_g2(
                    cw,
                    rows[t],
                    rows[t].len() as int,
                ) && g2_wellformed(g2_views(r@)[t]) && g2_valid(g2_views(r@)[t]) && g2_views(
                    r@,
                )[t].len() == 192,
        decreases inp@.len() - w,
    {
        proof {
            assert(rows[w as int] == matrix_views(inp@)[w as int]);
        }
        let ghost prev = g2_views(r@);
        let e = row_eval_g2(coeffs, &inp[w], Ghost(rows), Ghost(w as int));
        r.push(e);
        proof {
            assert(g2_views(r@) =~= prev.push(e@));
            assert(forall|t: int| 0 <= t < prev.len() ==> #[trigger] g2_views(r@)[t] == prev[t]);
        }
        w += 1;
    }
    let mut u: usize = 0;
    while u < aux.len()
        invariant
            0 <= u <= aux@.len(),
            rows == matrix_views(inp@) + matrix_views(aux@),
            cw == g2_views(coeffs@),
            g2_seq_valid(cw),
            rows_bounded(rows, cw.len() as int),
            r@.len() == inp@.len() + u,
            forall|t: int|
                0 <= t < r@.len() ==> #[trigger] g2_views(r@)[t] == row_sum_g2(
                    cw,
                    rows[t],
                    rows[t].len() as int,
                ) && g2_wellformed(g2_views(r@)[t]) && g2_valid(g2_views(r@)[t]) && g2_views(
                    r@,
                )[t].len() == 192,
        decreases aux@.len() - u,
    {
        proof {
            assert(rows[inp@.len() + u] == matrix_views(aux@)[u as int]);
        }
        let ghost prev = g2_views(r@);
        let e = row_eval_g2(coeffs, &aux[u], Ghost(rows), Ghost(inp@.len() + u));
        r.push(e);
        proof {
            assert(g2_views(r@) =~= prev.push(e@));
            assert(forall|t: int| 0 <= t < prev.len() ==> #[trigger] g2_views(r@)[t] == prev[t]);
        }
        u += 1;
    }
    proof {
        assert(g2_views(r@) =~= wire_evals_g2(cw, rows));
    }
    r
}

/// Computes one wire's row sum in G2.
fn row_eval_g2(
    coeffs: &Vec<G2Elem>,
    row: &Vec<(FrElem, usize)>,
    Ghost(rows): Ghost<Seq<Seq<(Seq<u8>, int)>>>,
    Ghost(w): Ghost<int>,
) -> (r: G2Elem)
    requires
        g2_seq_valid(g2_views(coeffs@)),
        rows_bounded(rows, coeffs@.len() as int),
        0 <= w < rows.len(),
        rows[w] == crate::assembly::row_views(row@),
    ensures
        r@ == row_sum_g2(g2_views(coeffs@), rows[w], rows[w].len() as int),
        g2_wellformed(r@),
        g2_valid(r@),
        r@.len() == 192,
{
    let ghost cw = g2_views(coeffs@);
    let mut acc = g2_identity();
    let mut j: usize = 0;
    while j < row.len()
        invariant
            0 <= j <= row@.len(),
            cw == g2_views(coeffs@),
            g2_seq_valid(cw),
            rows_bounded(rows, cw.len() as int),
            0 <= w < rows.len(),
            rows[w] == crate::assembly::row_views(row@),
            acc@ == row_sum_g2(cw, rows[w], j as int),
            g2_wellformed(acc@),
            g2_valid(acc@),
            acc@.len() == 192,
        decreases row@.len() - j,
    {
        proof {
            assert(rows[w][j as int] == (row@[j as int].0@, row@[j as int].1 as int));
            assert(cw[row@[j as int].1 as int] == coeffs@[row@[j as int].1 as int]@);
        }
        let lag = row[j].1;
        let t = g2_mul(&coeffs[lag], &row[j].0);
        acc = g2_add(&acc, &t);
        proof {
            assert(acc@ == row_sum_g2(cw, rows[w], j + 1));
        }
        j += 1;
    }
    acc
}

/// Keeps the G1 elements that are not the identity, in order.
pub fn filter_nonident_g1(v: &Vec<G1Elem>) -> (r: Vec<G1Elem>)
    requires
        g1_seq_valid(g1_views(v@)),
    ensures
        g1_views(r@) == filter_nonident(g1_views(v@), g1_identity_repr()),
        g1_seq_valid(g1_views(r@)),
{
    let ident = g1_identity();
    let ghost vw = g1_views(v@);
    let mut r: Vec<G1Elem> = Vec::new();
    let mut i: usize = 0;
    while i < v.len()
        invariant
            0 <= i <= v@.len(),
            vw == g1_views(v@),
            g1_seq_valid(vw),
            ident@ == g1_identity_repr(),
            g1_views(r@) == filter_nonident(vw.take(i as int), g1_identity_repr()),
            g1_seq_valid(g1_views(r@)),
        decreases v@.len() - i,
    {
        let ghost prev = g1_views(r@);
        proof {
            assert(vw.take(i + 1).drop_last() =~= vw.take(i as int));
            assert(vw.take(i + 1).last() == vw[i as int]);
        }
        if !bytes_eq(&v[i].bytes, &ident.bytes) {
            r.push(v[i].dup());
            proof {
                assert(g1_views(r@) =~= prev + seq![vw[i as int]]);
            }
        } else {
            proof {
                assert(prev + Seq::<Seq<u8>>::empty() =~= prev);
            }
        }
        i += 1;
    }
    proof {
        assert(vw.take(v@.len() as int) =~= vw);
    }
    r
}

/// Keeps the G2 elements that are not the identity, in order.
pub fn filter_nonident_g2(v: &Vec<G2Elem>) -> (r: Vec<G2Elem>)
    requires
        g2_seq_valid(g2_views(v@)),
    ensures
        g2_views(r@) == filter_nonident(g2_views(v@), g2_identity_repr()),
        g2_seq_valid(g2_views(r@)),
{
    let ident = g2_identity();
    let ghost vw = g2_views(v@);
    let mut r: Vec<G2Elem> = Vec::new();
    let mut i: usize = 0;
    while i < v.len()
        invariant
            0 <= i <= v@.len(),
            vw == g2_views(v@),
            g2_seq_valid(vw),
            ident@ == g2_identity_repr(),
            g2_views(r@) == filter_nonident(vw.take(i as int), g2_identity_repr()),
            g2_seq_valid(g2_views(r@)),
        decreases v@.len() - i,
    {
        let ghost prev = g2_views(r@);
        proof {
            assert(vw.take(i + 1).drop_last() =~= vw.take(i as int));
            assert(vw.take(i + 1).last() == vw[i as int]);
        }
        if !bytes_eq(&v[i].bytes, &ident.bytes) {
            r.push(v[i].dup());
            proof {
                assert(g2_views(r@) =~= prev + seq![vw[i as int]]);
            }
        } else {
            proof {
                assert(prev + Seq::<Seq<u8>>::empty() =~= prev);
            }
        }
        i += 1;
    }
    proof {
        assert(vw.take(v@.len() as int) =~= vw);
    }
    r
}

} // verus!

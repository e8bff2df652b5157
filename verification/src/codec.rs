//! The canonical binary codec of the CRS data model.
//!
//! Group elements are written as their fixed-width canonical encodings;
//! variable-length sequences are prefixed by their count as a 4-byte
//! big-endian integer.  Decoding validates every element (on-curve and
//! subgroup checks in `checked` mode, format-level checks otherwise) and
//! refuses the identity wherever the format forbids it.

use vstd::prelude::*;

use crate::curve::{
    bytes_eq, g1_identity, g1_identity_repr, g1_validate, g1_wellformed, g1_valid, g1c_identity_repr,
    g1c_valid, g1c_validate, g2_identity, g2_identity_repr, g2_validate, g2_wellformed, g2_valid,
    g2c_identity_repr, g2c_valid, g2c_validate, G1Comp, G1Elem, G2Comp, G2Elem,
};
use crate::params::{
    g1_elem_ok, g2_elem_ok, g1_seq_ok, g2_seq_ok, g1_views, g2_views, ExtView, ExtendedParameters,
    Parameters, ParamsView, Proof, ProofView, VerifyingKey, VkView,
};
use crate::DecodeError;

verus! {

/// The 4-byte big-endian encoding of a count.
pub open spec fn enc_u32(n: int) -> Seq<u8> {
    seq![
        (n / 0x1000000) as u8,
        ((n / 0x10000) % 0x100) as u8,
        ((n / 0x100) % 0x100) as u8,
        (n % 0x100) as u8,
    ]
}

/// The concatenation of fixed-width element encodings.
pub open spec fn enc_seq(s: Seq<Seq<u8>>) -> Seq<u8>
    decreases s.len(),
{
    if s.len() == 0 {
        Seq::empty()
    } else {
        s[0] + enc_seq(s.drop_first())
    }
}

/// A count-prefixed sequence of element encodings.
pub open spec fn enc_vec(s: Seq<Seq<u8>>) -> Seq<u8> {
    enc_u32(s.len() as int) + enc_seq(s)
}

/// The length of a concatenation of `w`-byte encodings.
pub proof fn lemma_enc_seq_len(s: Seq<Seq<u8>>, w: int)
    requires
        forall|i: int| 0 <= i < s.len() ==> (#[trigger] s[i]).len() == w,
    ensures
        enc_seq(s).len() == w * s.len(),
    decreases s.len(),
{
    if s.len() == 0 {
    } else {
        lemma_enc_seq_len(s.drop_first(), w);
        assert(enc_seq(s).len() == w + w * (s.len() - 1));
        assert(w + w * (s.len() - 1) == w * s.len()) by (nonlinear_arith);
    }
}

/// Appending one element to a sequence appends its encoding.
pub proof fn lemma_enc_seq_take_step(s: Seq<Seq<u8>>, i: int)
    requires
        0 <= i < s.len(),
    ensures
        enc_seq(s.take(i + 1)) == enc_seq(s.take(i)) + s[i],
    decreases i,
{
    if i == 0 {
        assert(s.take(0).len() == 0);
        assert(enc_seq(s.take(0)) == Seq::<u8>::empty());
        assert(s.take(1).len() == 1);
        assert(s.take(1)[0] == s[0]);
        assert(s.take(1).drop_first().len() == 0);
        assert(enc_seq(s.take(1)) == s[0] + enc_seq(s.take(1).drop_first()));
        assert(enc_seq(s.take(1)) =~= enc_seq(s.take(0)) + s[0]);
    } else {
        lemma_enc_seq_take_step(s.drop_first(), i - 1);
        assert(s.take(i + 1).drop_first() =~= s.drop_first().take(i));
        assert(s.take(i).drop_first() =~= s.drop_first().take(i - 1));
        assert(s.take(i + 1)[0] == s[0]);
        assert(s.take(i)[0] == s[0]);
        assert(enc_seq(s.take(i + 1)) == s[0] + enc_seq(s.drop_first().take(i)));
        assert(enc_seq(s.drop_first().take(i)) == enc_seq(s.drop_first().take(i - 1))
            + s.drop_first()[i - 1]);
        assert(s.drop_first()[i - 1] == s[i]);
        assert(enc_seq(s.take(i)) == s[0] + enc_seq(s.drop_first().take(i - 1)));
        assert(s[0] + (enc_seq(s.drop_first().take(i - 1)) + s[i]) =~= (s[0] + enc_seq(
            s.drop_first().take(i - 1),
        )) + s[i]);
    }
}

/// Writes the bytes of `b` onto the end of `out`.
pub fn push_bytes(out: &mut Vec<u8>, b: &Vec<u8>)
    ensures
        final(out)@ == old(out)@ + b@,
{
    let ghost base = out@;
    let mut i: usize = 0;
    while i < b.len()
        invariant
            0 <= i <= b@.len(),
            out@ == base + b@.subrange(0, i as int),
        decreases b@.len() - i,
    {
        out.push(b[i]);
        proof {
            assert(base + b@.subrange(0, i as int) + seq![b@[i as int]] =~= base + b@.subrange(
                0,
                i + 1 as int,
            ));
        }
        i += 1;
    }
    proof {
        assert(base + b@.subrange(0, b@.len() as int) =~= base + b@);
    }
}

/// Writes a count as 4 big-endian bytes onto the end of `out`.
pub fn push_u32(out: &mut Vec<u8>, n: u32)
    ensures
        final(out)@ == old(out)@ + enc_u32(n as int),
{
    let ghost base = out@;
    out.push((n / 0x1000000) as u8);
    out.push(((n / 0x10000) % 0x100) as u8);
    out.push(((n / 0x100) % 0x100) as u8);
    out.push((n % 0x100) as u8);
    proof {
        assert(out@ =~= base + enc_u32(n as int));
    }
}

/// Reads a 4-byte big-endian count.
pub open spec fn dec_u32_at(b: Seq<u8>, off: int) -> Result<int, DecodeError> {
    if off + 4 > b.len() {
        Err(DecodeError::Truncated)
    } else {
        Ok(b[off] * 0x1000000 + b[off + 1] * 0x10000 + b[off + 2] * 0x100 + b[off + 3])
    }
}

/// A count decodes back to itself wherever its encoding stands in a buffer.
pub proof fn lemma_dec_u32_enc(b: Seq<u8>, off: int, n: int)
    requires
        0 <= n <= u32::MAX,
        0 <= off,
        off + 4 <= b.len(),
        b.subrange(off, off + 4) == enc_u32(n),
    ensures
        dec_u32_at(b, off) == Ok::<int, DecodeError>(n),
{
    assert(b[off] == enc_u32(n)[0]);
    assert(b[off + 1] == enc_u32(n)[1]);
    assert(b[off + 2] == enc_u32(n)[2]);
    assert(b[off + 3] == enc_u32(n)[3]);
    let q1 = n / 0x100;
    let q2 = n / 0x10000;
    let q3 = n / 0x1000000;
    assert(q3 < 0x100) by (nonlinear_arith)
        requires
            0 <= n <= u32::MAX,
            q3 == n / 0x1000000,
    ;
    vstd::arithmetic::div_mod::lemma_div_denominator(n, 0x100, 0x100);
    vstd::arithmetic::div_mod::lemma_div_denominator(n, 0x10000, 0x100);
    assert(q2 == q1 / 0x100);
    assert(q3 == q2 / 0x100);
    assert(n == q1 * 0x100 + n % 0x100);
    assert(q1 == q2 * 0x100 + q1 % 0x100);
    assert(q2 == q3 * 0x100 + q2 % 0x100);
    assert((q3 as u8) as int == q3);
    assert(((q2 % 0x100) as u8) as int == q2 % 0x100);
    assert(((q1 % 0x100) as u8) as int == q1 % 0x100);
    assert(((n % 0x100) as u8) as int == n % 0x100);
    assert(q3 * 0x1000000 + (q2 % 0x100) * 0x10000 + (q1 % 0x100) * 0x100 + n % 0x100 == n)
        by (nonlinear_arith)
        requires
            n == q1 * 0x100 + n % 0x100,
            q1 == q2 * 0x100 + q1 % 0x100,
            q2 == q3 * 0x100 + q2 % 0x100,
    ;
}

/// Reads one identity-refusing uncompressed G1 element.
pub open spec fn dec_g1_at(b: Seq<u8>, off: int, checked: bool) -> Result<Seq<u8>, DecodeError> {
    if off + 96 > b.len() {
        Err(DecodeError::Truncated)
    } else {
        let e = b.subrange(off, off + 96);
        if !(if checked {
            g1_valid(e)
        } else {
            g1_wellformed(e)
        }) {
            Err(DecodeError::InvalidPoint)
        } else if e == g1_identity_repr() {
            Err(DecodeError::IdentityPoint)
        } else {
            Ok(e)
        }
    }
}

/// Reads one identity-refusing uncompressed G2 element.
pub open spec fn dec_g2_at(b: Seq<u8>, off: int, checked: bool) -> Result<Seq<u8>, DecodeError> {
    if off + 192 > b.len() {
        Err(DecodeError::Truncated)
    } else {
        let e = b.subrange(off, off + 192);
        if !(if checked {
            g2_valid(e)
        } else {
            g2_wellformed(e)
        }) {
            Err(DecodeError::InvalidPoint)
        } else if e == g2_identity_repr() {
            Err(DecodeError::IdentityPoint)
        } else {
            Ok(e)
        }
    }
}

/// Reads one compressed G1 element, always fully checked, identity refused.
pub open spec fn dec_g1c_at(b: Seq<u8>, off: int) -> Result<Seq<u8>, DecodeError> {
    if off + 48 > b.len() {
        Err(DecodeError::Truncated)
    } else {
        let e = b.subrange(off, off + 48);
        if !g1c_valid(e) {
            Err(DecodeError::InvalidPoint)
        } else if e == g1c_identity_repr() {
            Err(DecodeError::IdentityPoint)
        } else {
            Ok(e)
        }
    }
}

/// Reads one compressed G2 element, always fully checked, identity refused.
pub open spec fn dec_g2c_at(b: Seq<u8>, off: int) -> Result<Seq<u8>, DecodeError> {
    if off + 96 > b.len() {
        Err(DecodeError::Truncated)
    } else {
        let e = b.subrange(off, off + 96);
        if !g2c_valid(e) {
            Err(DecodeError::InvalidPoint)
        } else if e == g2c_identity_repr() {
            Err(DecodeError::IdentityPoint)
        } else {
            Ok(e)
        }
    }
}

/// Reads `n` uncompressed G1 elements in order.
pub open spec fn dec_g1_vec_at(b: Seq<u8>, off: int, n: int, checked: bool) -> Result<
    Seq<Seq<u8>>,
    DecodeError,
>
    decreases n,
{
    if n <= 0 {
        Ok(Seq::empty())
    } else {
        match dec_g1_at(b, off, checked) {
            Err(e) => Err(e),
            Ok(h) => match dec_g1_vec_at(b, off + 96, n - 1, checked) {
                Err(e) => Err(e),
                Ok(t) => Ok(seq![h] + t),
            },
        }
    }
}

/// Reads `n` uncompressed G2 elements in order.
pub open spec fn dec_g2_vec_at(b: Seq<u8>, off: int, n: int, checked: bool) -> Result<
    Seq<Seq<u8>>,
    DecodeError,
>
    decreases n,
{
    if n <= 0 {
        Ok(Seq::empty())
    } else {
        match dec_g2_at(b, off, checked) {
            Err(e) => Err(e),
            Ok(h) => match dec_g2_vec_at(b, off + 192, n - 1, checked) {
                Err(e) => Err(e),
                Ok(t) => Ok(seq![h] + t),
            },
        }
    }
}

/// The bytes of `bytes[off .. off + n]` as a new vector.
pub fn sub_bytes(bytes: &Vec<u8>, off: usize, n: usize) -> (r: Vec<u8>)
    requires
        off + n <= bytes@.len(),
    ensures
        r@ == bytes@.subrange(off as int, off + n as int),
{
    let blen = bytes.len();
    let mut r: Vec<u8> = Vec::new();
    let mut i: usize = 0;
    while i < n
        invariant
            0 <= i <= n,
            off + n <= bytes@.len(),
            bytes@.len() == blen,
            r@ == bytes@.subrange(off as int, off + i as int),
        decreases n - i,
    {
        r.push(bytes[off + i]);
        proof {
            assert(r@ =~= bytes@.subrange(off as int, off + (i + 1) as int));
        }
        i += 1;
    }
    r
}

/// Reads a count at `off`; `Ok` gives the count and the offset after it.
pub(crate) fn read_u32_at(bytes: &Vec<u8>, off: usize) -> (r: Result<(u32, usize), DecodeError>)
    ensures
        match r {
            Ok((n, end)) => dec_u32_at(bytes@, off as int) == Ok::<int, DecodeError>(n as int)
                && end == off + 4,
            Err(e) => dec_u32_at(bytes@, off as int) == Err::<int, DecodeError>(e),
        },
{
    if bytes.len() < 4 || off > bytes.len() - 4 {
        return Err(DecodeError::Truncated);
    }
    let b0 = bytes[off] as u32;
    let b1 = bytes[off + 1] as u32;
    let b2 = bytes[off + 2] as u32;
    let b3 = bytes[off + 3] as u32;
    Ok((b0 * 0x1000000 + b1 * 0x10000 + b2 * 0x100 + b3, off + 4))
}

/// Reads one uncompressed G1 element at `off`.
pub(crate) fn read_g1_at(bytes: &Vec<u8>, off: usize, checked: bool) -> (r: Result<
    G1Elem,
    DecodeError,
>)
    ensures
        match r {
            Ok(e) => dec_g1_at(bytes@, off as int, checked) == Ok::<Seq<u8>, DecodeError>(e@)
                && e@.len() == 96 && g1_wellformed(e@) && (checked ==> g1_valid(e@)) && e@
                != g1_identity_repr(),
            Err(er) => dec_g1_at(bytes@, off as int, checked) == Err::<Seq<u8>, DecodeError>(er),
        },
{
    if bytes.len() < 96 || off > bytes.len() - 96 {
        return Err(DecodeError::Truncated);
    }
    let e = sub_bytes(bytes, off, 96);
    if !g1_validate(&e, checked) {
        return Err(DecodeError::InvalidPoint);
    }
    let ident = g1_identity();
    if bytes_eq(&e, &ident.bytes) {
        return Err(DecodeError::IdentityPoint);
    }
    Ok(G1Elem { bytes: e })
}

/// Reads one uncompressed G2 element at `off`.
pub(crate) fn read_g2_at(bytes: &Vec<u8>, off: usize, checked: bool) -> (r: Result<
    G2Elem,
    DecodeError,
>)
    ensures
        match r {
            Ok(e) => dec_g2_at(bytes@, off as int, checked) == Ok::<Seq<u8>, DecodeError>(e@)
                && e@.len() == 192 && g2_wellformed(e@) && (checked ==> g2_valid(e@)) && e@
                != g2_identity_repr(),
            Err(er) => dec_g2_at(bytes@, off as int, checked) == Err::<Seq<u8>, DecodeError>(er),
        },
{
    if bytes.len() < 192 || off > bytes.len() - 192 {
        return Err(DecodeError::Truncated);
    }
    let e = sub_bytes(bytes, off, 192);
    if !g2_validate(&e, checked) {
        return Err(DecodeError::InvalidPoint);
    }
    let ident = g2_identity();
    if bytes_eq(&e, &ident.bytes) {
        return Err(DecodeError::IdentityPoint);
    }
    Ok(G2Elem { bytes: e })
}

/// Reads `n` uncompressed G1 elements at `off`; `Ok` gives the elements and
/// the offset after them.
pub(crate) fn read_g1_vec_at(bytes: &Vec<u8>, off: usize, n: u32, checked: bool) -> (r: Result<
    (Vec<G1Elem>, usize),
    DecodeError,
>)
    ensures
        match r {
            Ok((v, end)) => dec_g1_vec_at(bytes@, off as int, n as int, checked) == Ok::<
                Seq<Seq<u8>>,
                DecodeError,
            >(g1_views(v@)) && v@.len() == n && end == off + 96 * (n as int) && (checked
                ==> g1_seq_ok(g1_views(v@))) && (forall|i: int|
                0 <= i < n ==> (#[trigger] g1_views(v@)[i]).len() == 96 && g1_wellformed(
                    g1_views(v@)[i],
                ) && g1_views(v@)[i] != g1_identity_repr()),
            Err(er) => dec_g1_vec_at(bytes@, off as int, n as int, checked) == Err::<
                Seq<Seq<u8>>,
                DecodeError,
            >(er),
        },
{
    let blen = bytes.len();
    let mut v: Vec<G1Elem> = Vec::new();
    let mut i: u32 = 0;
    let mut cur: usize = off;
    while i < n
        invariant
            0 <= i <= n,
            v@.len() == i,
            cur == off + 96 * (i as int),
            cur <= usize::MAX,
            bytes@.len() == blen,
            forall|j: int|
                0 <= j < i ==> (#[trigger] g1_views(v@)[j]).len() == 96 && g1_wellformed(
                    g1_views(v@)[j],
                ) && (checked ==> g1_valid(g1_views(v@)[j])) && g1_views(v@)[j]
                    != g1_identity_repr(),
            forall|t: Seq<Seq<u8>>|
                dec_g1_vec_at(bytes@, cur as int, n - i, checked) == Ok::<Seq<Seq<u8>>, DecodeError>(
                    t,
                ) ==> dec_g1_vec_at(bytes@, off as int, n as int, checked) == Ok::<
                    Seq<Seq<u8>>,
                    DecodeError,
                >(g1_views(v@) + t),
            forall|er: DecodeError|
                dec_g1_vec_at(bytes@, cur as int, n - i, checked) == Err::<Seq<Seq<u8>>, DecodeError>(
                    er,
                ) ==> dec_g1_vec_at(bytes@, off as int, n as int, checked) == Err::<
                    Seq<Seq<u8>>,
                    DecodeError,
                >(er),
        decreases n - i,
    {
        if cur > usize::MAX - 96 {
            // The element would lie beyond any addressable buffer: truncated.
            proof {
                assert(cur + 96 > bytes@.len());
                assert(dec_g1_at(bytes@, cur as int, checked) == Err::<Seq<u8>, DecodeError>(
                    DecodeError::Truncated,
                ));
            }
            return Err(DecodeError::Truncated);
        }
        let ghost prev_views = g1_views(v@);
        let e = match read_g1_at(bytes, cur, checked) {
            Ok(e) => e,
            Err(er) => {
                return Err(er);
            },
        };
        v.push(e);
        proof {
            assert(g1_views(v@) =~= prev_views + seq![e@]);
            assert(forall|t: Seq<Seq<u8>>| (prev_views + seq![e@]) + t =~= prev_views + (seq![e@]
                + t));
        }
        cur += 96;
        i += 1;
    }
    proof {
        assert(dec_g1_vec_at(bytes@, cur as int, 0, checked) == Ok::<Seq<Seq<u8>>, DecodeError>(
            Seq::empty(),
        ));
        assert(g1_views(v@) + Seq::<Seq<u8>>::empty() =~= g1_views(v@));
        if checked {
            assert(g1_seq_ok(g1_views(v@)));
        }
    }
    Ok((v, cur))
}

/// Reads `n` uncompressed G2 elements at `off`; `Ok` gives the elements and
/// the offset after them.
pub(crate) fn read_g2_vec_at(bytes: &Vec<u8>, off: usize, n: u32, checked: bool) -> (r: Result<
    (Vec<G2Elem>, usize),
    DecodeError,
>)
    ensures
        match r {
            Ok((v, end)) => dec_g2_vec_at(bytes@, off as int, n as int, checked) == Ok::<
                Seq<Seq<u8>>,
                DecodeError,
            >(g2_views(v@)) && v@.len() == n && end == off + 192 * (n as int) && (checked
                ==> g2_seq_ok(g2_views(v@))) && (forall|i: int|
                0 <= i < n ==> (#[trigger] g2_views(v@)[i]).len() == 192 && g2_wellformed(
                    g2_views(v@)[i],
                ) && g2_views(v@)[i] != g2_identity_repr()),
            Err(er) => dec_g2_vec_at(bytes@, off as int, n as int, checked) == Err::<
                Seq<Seq<u8>>,
                DecodeError,
            >(er),
        },
{
    let blen = bytes.len();
    let mut v: Vec<G2Elem> = Vec::new();
    let mut i: u32 = 0;
    let mut cur: usize = off;
    while i < n
        invariant
            0 <= i <= n,
            v@.len() == i,
            cur == off + 192 * (i as int),
            cur <= usize::MAX,
            bytes@.len() == blen,
            forall|j: int|
                0 <= j < i ==> (#[trigger] g2_views(v@)[j]).len() == 192 && g2_wellformed(
                    g2_views(v@)[j],
                ) && (checked ==> g2_valid(g2_views(v@)[j])) && g2_views(v@)[j]
                    != g2_identity_repr(),
            forall|t: Seq<Seq<u8>>|
                dec_g2_vec_at(bytes@, cur as int, n - i, checked) == Ok::<Seq<Seq<u8>>, DecodeError>(
                    t,
                ) ==> dec_g2_vec_at(bytes@, off as int, n as int, checked) == Ok::<
                    Seq<Seq<u8>>,
                    DecodeError,
                >(g2_views(v@) + t),
            forall|er: DecodeError|
                dec_g2_vec_at(bytes@, cur as int, n - i, checked) == Err::<Seq<Seq<u8>>, DecodeError>(
                    er,
                ) ==> dec_g2_vec_at(bytes@, off as int, n as int, checked) == Err::<
                    Seq<Seq<u8>>,
                    DecodeError,
                >(er),
        decreases n - i,
    {
        if cur > usize::MAX - 192 {
            // The element would lie beyond any addressable buffer: truncated.
            proof {
                assert(cur + 192 > bytes@.len());
                assert(dec_g2_at(bytes@, cur as int, checked) == Err::<Seq<u8>, DecodeError>(
                    DecodeError::Truncated,
                ));
            }
            return Err(DecodeError::Truncated);
        }
        let ghost prev_views = g2_views(v@);
        let e = match read_g2_at(bytes, cur, checked) {
            Ok(e) => e,
            Err(er) => {
                return Err(er);
            },
        };
        v.push(e);
        proof {
            assert(g2_views(v@) =~= prev_views + seq![e@]);
            assert(forall|t: Seq<Seq<u8>>| (prev_views + seq![e@]) + t =~= prev_views + (seq![e@]
                + t));
        }
        cur += 192;
        i += 1;
    }
    proof {
        assert(dec_g2_vec_at(bytes@, cur as int, 0, checked) == Ok::<Seq<Seq<u8>>, DecodeError>(
            Seq::empty(),
        ));
        assert(g2_views(v@) + Seq::<Seq<u8>>::empty() =~= g2_views(v@));
        if checked {
            assert(g2_seq_ok(g2_views(v@)));
        }
    }
    Ok((v, cur))
}

/// Reads one compressed G1 element at `off`, always fully checked.
pub(crate) fn read_g1c_at(bytes: &Vec<u8>, off: usize) -> (r: Result<G1Comp, DecodeError>)
    ensures
        match r {
            Ok(e) => dec_g1c_at(bytes@, off as int) == Ok::<Seq<u8>, DecodeError>(e@) && e@.len()
                == 48 && g1c_valid(e@) && e@ != g1c_identity_repr(),
            Err(er) => dec_g1c_at(bytes@, off as int) == Err::<Seq<u8>, DecodeError>(er),
        },
{
    if bytes.len() < 48 || off > bytes.len() - 48 {
        return Err(DecodeError::Truncated);
    }
    let e = sub_bytes(bytes, off, 48);
    if !g1c_validate(&e) {
        return Err(DecodeError::InvalidPoint);
    }
    let mut ident: Vec<u8> = Vec::new();
    let mut i: usize = 0;
    while i < 48
        invariant
            0 <= i <= 48,
            ident@ == g1c_identity_repr().subrange(0, i as int),
        decreases 48 - i,
    {
        ident.push(if i == 0 { 0xc0u8 } else { 0u8 });
        proof {
            assert(ident@ =~= g1c_identity_repr().subrange(0, i + 1 as int));
        }
        i += 1;
    }
    proof {
        assert(ident@ =~= g1c_identity_repr());
    }
    if bytes_eq(&e, &ident) {
        return Err(DecodeError::IdentityPoint);
    }
    Ok(G1Comp { bytes: e })
}

/// Reads one compressed G2 element at `off`, always fully checked.
pub(crate) fn read_g2c_at(bytes: &Vec<u8>, off: usize) -> (r: Result<G2Comp, DecodeError>)
    ensures
        match r {
            Ok(e) => dec_g2c_at(bytes@, off as int) == Ok::<Seq<u8>, DecodeError>(e@) && e@.len()
                == 96 && g2c_valid(e@) && e@ != g2c_identity_repr(),
            Err(er) => dec_g2c_at(bytes@, off as int) == Err::<Seq<u8>, DecodeError>(er),
        },
{
    if bytes.len() < 96 || off > bytes.len() - 96 {
        return Err(DecodeError::Truncated);
    }
    let e = sub_bytes(bytes, off, 96);
    if !g2c_validate(&e) {
        return Err(DecodeError::InvalidPoint);
    }
    let mut ident: Vec<u8> = Vec::new();
    let mut i: usize = 0;
    while i < 96
        invariant
            0 <= i <= 96,
            ident@ == g2c_identity_repr().subrange(0, i as int),
        decreases 96 - i,
    {
        ident.push(if i == 0 { 0xc0u8 } else { 0u8 });
        proof {
            assert(ident@ =~= g2c_identity_repr().subrange(0, i + 1 as int));
        }
        i += 1;
    }
    proof {
        assert(ident@ =~= g2c_identity_repr());
    }
    if bytes_eq(&e, &ident) {
        return Err(DecodeError::IdentityPoint);
    }
    Ok(G2Comp { bytes: e })
}

/// Writes a sequence of G1 elements, without a count prefix.
pub(crate) fn write_g1_seq(out: &mut Vec<u8>, v: &Vec<G1Elem>)
    ensures
        final(out)@ == old(out)@ + enc_seq(g1_views(v@)),
{
    let ghost base = out@;
    let ghost views = g1_views(v@);
    let mut i: usize = 0;
    while i < v.len()
        invariant
            0 <= i <= v@.len(),
            views == g1_views(v@),
            out@ == base + enc_seq(views.take(i as int)),
        decreases v@.len() - i,
    {
        push_bytes(out, &v[i].bytes);
        proof {
            lemma_enc_seq_take_step(views, i as int);
            assert(base + enc_seq(views.take(i as int)) + views[i as int] =~= base + enc_seq(
                views.take(i + 1 as int),
            ));
        }
        i += 1;
    }
    proof {
        assert(views.take(v@.len() as int) =~= views);
    }
}

/// Writes a sequence of G2 elements, without a count prefix.
pub(crate) fn write_g2_seq(out: &mut Vec<u8>, v: &Vec<G2Elem>)
    ensures
        final(out)@ == old(out)@ + enc_seq(g2_views(v@)),
{
    let ghost base = out@;
    let ghost views = g2_views(v@);
    let mut i: usize = 0;
    while i < v.len()
        invariant
            0 <= i <= v@.len(),
            views == g2_views(v@),
            out@ == base + enc_seq(views.take(i as int)),
        decreases v@.len() - i,
    {
        push_bytes(out, &v[i].bytes);
        proof {
            lemma_enc_seq_take_step(views, i as int);
            assert(base + enc_seq(views.take(i as int)) + views[i as int] =~= base + enc_seq(
                views.take(i + 1 as int),
            ));
        }
        i += 1;
    }
    proof {
        assert(views.take(v@.len() as int) =~= views);
    }
}

/// The encoding of a proof: the three compressed elements, in order.
pub open spec fn enc_proof(p: ProofView) -> Seq<u8> {
    p.a + p.b + p.c
}

/// The encoding of a verifying key: the six fixed elements, then the
/// count-prefixed `ic`.
pub open spec fn enc_vk(v: VkView) -> Seq<u8> {
    v.alpha_g1 + v.beta_g1 + v.beta_g2 + v.gamma_g2 + v.delta_g1 + v.delta_g2 + enc_vec(v.ic)
}

/// The encoding of the CRS: the verifying key, then the five count-prefixed
/// arrays.
pub open spec fn enc_params(p: ParamsView) -> Seq<u8> {
    enc_vk(p.vk) + enc_vec(p.h) + enc_vec(p.l) + enc_vec(p.a) + enc_vec(p.b_g1) + enc_vec(p.b_g2)
}

/// The encoding of the extended CRS: the CRS, then the two power arrays.
pub open spec fn enc_ext(e: ExtView) -> Seq<u8> {
    enc_params(e.params) + enc_vec(e.taus_g1) + enc_vec(e.taus_g2)
}

/// The byte length of an encoded verifying key.
pub open spec fn vk_size(v: VkView) -> int {
    868 + 96 * (v.ic.len() as int)
}

/// The byte length of an encoded, count-prefixed G1 array.
pub open spec fn g1_vec_size(s: Seq<Seq<u8>>) -> int {
    4 + 96 * (s.len() as int)
}

/// The byte length of an encoded, count-prefixed G2 array.
pub open spec fn g2_vec_size(s: Seq<Seq<u8>>) -> int {
    4 + 192 * (s.len() as int)
}

/// The byte length of an encoded CRS.
pub open spec fn params_size(p: ParamsView) -> int {
    vk_size(p.vk) + g1_vec_size(p.h) + g1_vec_size(p.l) + g1_vec_size(p.a) + g1_vec_size(p.b_g1)
        + g2_vec_size(p.b_g2)
}

/// Decodes a proof from the start of the buffer; trailing bytes are left
/// unread.
pub open spec fn dec_proof(b: Seq<u8>) -> Result<ProofView, DecodeError> {
    match dec_g1c_at(b, 0) {
        Err(e) => Err(e),
        Ok(a) => match dec_g2c_at(b, 48) {
            Err(e) => Err(e),
            Ok(bb) => match dec_g1c_at(b, 144) {
                Err(e) => Err(e),
                Ok(c) => Ok(ProofView { a: a, b: bb, c: c }),
            },
        },
    }
}

/// Decodes a verifying key at `off`.  Every element is fully checked, and
/// the identity is refused everywhere.
#[verifier::opaque]
pub open spec fn dec_vk_at(b: Seq<u8>, off: int) -> Result<VkView, DecodeError> {
    match dec_g1_at(b, off, true) {
        Err(e) => Err(e),
        Ok(alpha_g1) => match dec_g1_at(b, off + 96, true) {
            Err(e) => Err(e),
            Ok(beta_g1) => match dec_g2_at(b, off + 192, true) {
                Err(e) => Err(e),
                Ok(beta_g2) => match dec_g2_at(b, off + 384, true) {
                    Err(e) => Err(e),
                    Ok(gamma_g2) => match dec_g1_at(b, off + 576, true) {
                        Err(e) => Err(e),
                        Ok(delta_g1) => match dec_g2_at(b, off + 672, true) {
                            Err(e) => Err(e),
                            Ok(delta_g2) => match dec_u32_at(b, off + 864) {
                                Err(e) => Err(e),
                                Ok(n) => match dec_g1_vec_at(b, off + 868, n, true) {
                                    Err(e) => Err(e),
                                    Ok(ic) => Ok(
                                        VkView {
                                            alpha_g1,
                                            beta_g1,
                                            beta_g2,
                                            gamma_g2,
                                            delta_g1,
                                            delta_g2,
                                            ic,
                                        },
                                    ),
                                },
                            },
                        },
                    },
                },
            },
        },
    }
}

/// Decodes a count-prefixed G1 array at `off`.
pub open spec fn dec_g1_lvec_at(b: Seq<u8>, off: int, checked: bool) -> Result<
    Seq<Seq<u8>>,
    DecodeError,
> {
    match dec_u32_at(b, off) {
        Err(e) => Err(e),
        Ok(n) => dec_g1_vec_at(b, off + 4, n, checked),
    }
}

/// Decodes a count-prefixed G2 array at `off`.
pub open spec fn dec_g2_lvec_at(b: Seq<u8>, off: int, checked: bool) -> Result<
    Seq<Seq<u8>>,
    DecodeError,
> {
    match dec_u32_at(b, off) {
        Err(e) => Err(e),
        Ok(n) => dec_g2_vec_at(b, off + 4, n, checked),
    }
}

/// Decodes a CRS at `off`.  The verifying key is always fully checked; the
/// five arrays are checked according to the mode.
#[verifier::opaque]
pub open spec fn dec_params_at(b: Seq<u8>, off: int, checked: bool) -> Result<
    ParamsView,
    DecodeError,
> {
    match dec_vk_at(b, off) {
        Err(e) => Err(e),
        Ok(vk) => {
            let o1 = off + vk_size(vk);
            match dec_g1_lvec_at(b, o1, checked) {
                Err(e) => Err(e),
                Ok(h) => {
                    let o2 = o1 + g1_vec_size(h);
                    match dec_g1_lvec_at(b, o2, checked) {
                        Err(e) => Err(e),
                        Ok(l) => {
                            let o3 = o2 + g1_vec_size(l);
                            match dec_g1_lvec_at(b, o3, checked) {
                                Err(e) => Err(e),
                                Ok(a) => {
                                    let o4 = o3 + g1_vec_size(a);
                                    match dec_g1_lvec_at(b, o4, checked) {
                                        Err(e) => Err(e),
                                        Ok(b_g1) => {
                                            let o5 = o4 + g1_vec_size(b_g1);
                                            match dec_g2_lvec_at(b, o5, checked) {
                                                Err(e) => Err(e),
                                                Ok(b_g2) => Ok(
                                                    ParamsView { vk, h, l, a, b_g1, b_g2 },
                                                ),
                                            }
                                        },
                                    }
                                },
                            }
                        },
                    }
                },
            }
        },
    }
}

/// Decodes an extended CRS at the start of the buffer.
#[verifier::opaque]
pub open spec fn dec_ext(b: Seq<u8>, checked: bool) -> Result<ExtView, DecodeError> {
    match dec_params_at(b, 0, checked) {
        Err(e) => Err(e),
        Ok(params) => {
            let o1 = params_size(params);
            match dec_g1_lvec_at(b, o1, checked) {
                Err(e) => Err(e),
                Ok(taus_g1) => {
                    let o2 = o1 + g1_vec_size(taus_g1);
                    match dec_g2_lvec_at(b, o2, checked) {
                        Err(e) => Err(e),
                        Ok(taus_g2) => Ok(ExtView { params, taus_g1, taus_g2 }),
                    }
                },
            }
        },
    }
}

/// Splitting a carved concatenation: if the bytes at `off` are `x + y`,
/// then `x` and `y` stand at their own offsets.
pub proof fn lemma_carve(b: Seq<u8>, off: int, x: Seq<u8>, y: Seq<u8>)
    requires
        0 <= off,
        off + x.len() + y.len() <= b.len(),
        b.subrange(off, off + x.len() + y.len()) == x + y,
    ensures
        b.subrange(off, off + x.len()) == x,
        b.subrange(off + x.len(), off + x.len() + y.len()) == y,
{
    assert forall|i: int| 0 <= i < x.len() implies b[off + i] == x[i] by {
        assert(b[off + i] == b.subrange(off, off + x.len() + y.len())[i]);
        assert((x + y)[i] == x[i]);
    }
    assert(b.subrange(off, off + x.len()) =~= x);
    assert forall|i: int| 0 <= i < y.len() implies b[off + x.len() + i] == y[i] by {
        assert(b[off + x.len() + i] == b.subrange(off, off + x.len() + y.len())[x.len() + i]);
        assert((x + y)[x.len() + i] == y[i]);
    }
    assert(b.subrange(off + x.len(), off + x.len() + y.len()) =~= y);
}

/// A valid, non-identity element decodes back from wherever its encoding
/// stands in a buffer.
pub proof fn lemma_dec_g1_enc(b: Seq<u8>, off: int, e: Seq<u8>, checked: bool)
    requires
        0 <= off,
        off + 96 <= b.len(),
        b.subrange(off, off + 96) == e,
        g1_elem_ok(e),
    ensures
        dec_g1_at(b, off, checked) == Ok::<Seq<u8>, DecodeError>(e),
{
}

/// As `lemma_dec_g1_enc`, for G2.
pub proof fn lemma_dec_g2_enc(b: Seq<u8>, off: int, e: Seq<u8>, checked: bool)
    requires
        0 <= off,
        off + 192 <= b.len(),
        b.subrange(off, off + 192) == e,
        g2_elem_ok(e),
    ensures
        dec_g2_at(b, off, checked) == Ok::<Seq<u8>, DecodeError>(e),
{
}

/// A sequence of valid, non-identity elements decodes back from wherever its
/// concatenated encoding stands in a buffer.
pub proof fn lemma_dec_g1_vec_enc(b: Seq<u8>, off: int, s: Seq<Seq<u8>>, checked: bool)
    requires
        0 <= off,
        off + 96 * s.len() <= b.len(),
        b.subrange(off, off + 96 * s.len()) == enc_seq(s),
        g1_seq_ok(s),
    ensures
        dec_g1_vec_at(b, off, s.len() as int, checked) == Ok::<Seq<Seq<u8>>, DecodeError>(s),
    decreases s.len(),
{
    if s.len() == 0 {
        assert(s =~= Seq::<Seq<u8>>::empty());
    } else {
        assert(g1_elem_ok(s[0]));
        assert(forall|i: int| 0 <= i < s.len() ==> (#[trigger] s[i]).len() == 96);
        lemma_enc_seq_len(s, 96);
        lemma_enc_seq_len(s.drop_first(), 96);
        assert(enc_seq(s) == s[0] + enc_seq(s.drop_first()));
        lemma_carve(b, off, s[0], enc_seq(s.drop_first()));
        lemma_dec_g1_enc(b, off, s[0], checked);
        assert(g1_seq_ok(s.drop_first()));
        lemma_dec_g1_vec_enc(b, off + 96, s.drop_first(), checked);
        assert(seq![s[0]] + s.drop_first() =~= s);
    }
}

/// As `lemma_dec_g1_vec_enc`, for G2.
pub proof fn lemma_dec_g2_vec_enc(b: Seq<u8>, off: int, s: Seq<Seq<u8>>, checked: bool)
    requires
        0 <= off,
        off + 192 * s.len() <= b.len(),
        b.subrange(off, off + 192 * s.len()) == enc_seq(s),
        g2_seq_ok(s),
    ensures
        dec_g2_vec_at(b, off, s.len() as int, checked) == Ok::<Seq<Seq<u8>>, DecodeError>(s),
    decreases s.len(),
{
    if s.len() == 0 {
        assert(s =~= Seq::<Seq<u8>>::empty());
    } else {
        assert(g2_elem_ok(s[0]));
        assert(forall|i: int| 0 <= i < s.len() ==> (#[trigger] s[i]).len() == 192);
        lemma_enc_seq_len(s, 192);
        lemma_enc_seq_len(s.drop_first(), 192);
        assert(enc_seq(s) == s[0] + enc_seq(s.drop_first()));
        lemma_carve(b, off, s[0], enc_seq(s.drop_first()));
        lemma_dec_g2_enc(b, off, s[0], checked);
        assert(g2_seq_ok(s.drop_first()));
        lemma_dec_g2_vec_enc(b, off + 192, s.drop_first(), checked);
        assert(seq![s[0]] + s.drop_first() =~= s);
    }
}

/// A count-prefixed array of valid, non-identity elements decodes back from
/// wherever its encoding stands in a buffer.
pub proof fn lemma_dec_g1_lvec_enc(b: Seq<u8>, off: int, s: Seq<Seq<u8>>, checked: bool)
    requires
        0 <= off,
        off + g1_vec_size(s) <= b.len(),
        b.subrange(off, off + g1_vec_size(s)) == enc_vec(s),
        g1_seq_ok(s),
        s.len() <= u32::MAX,
    ensures
        dec_g1_lvec_at(b, off, checked) == Ok::<Seq<Seq<u8>>, DecodeError>(s),
{
    assert(forall|i: int| 0 <= i < s.len() ==> (#[trigger] s[i]).len() == 96);
    lemma_enc_seq_len(s, 96);
    lemma_carve(b, off, enc_u32(s.len() as int), enc_seq(s));
    lemma_dec_u32_enc(b, off, s.len() as int);
    lemma_dec_g1_vec_enc(b, off + 4, s, checked);
}

/// As `lemma_dec_g1_lvec_enc`, for G2.
pub proof fn lemma_dec_g2_lvec_enc(b: Seq<u8>, off: int, s: Seq<Seq<u8>>, checked: bool)
    requires
        0 <= off,
        off + g2_vec_size(s) <= b.len(),
        b.subrange(off, off + g2_vec_size(s)) == enc_vec(s),
        g2_seq_ok(s),
        s.len() <= u32::MAX,
    ensures
        dec_g2_lvec_at(b, off, checked) == Ok::<Seq<Seq<u8>>, DecodeError>(s),
{
    assert(forall|i: int| 0 <= i < s.len() ==> (#[trigger] s[i]).len() == 192);
    lemma_enc_seq_len(s, 192);
    lemma_carve(b, off, enc_u32(s.len() as int), enc_seq(s));
    lemma_dec_u32_enc(b, off, s.len() as int);
    lemma_dec_g2_vec_enc(b, off + 4, s, checked);
}

/// A valid verifying key decodes back from wherever its encoding stands in a
/// buffer.
pub proof fn lemma_dec_vk_enc(b: Seq<u8>, off: int, v: VkView)
    requires
        0 <= off,
        off + vk_size(v) <= b.len(),
        b.subrange(off, off + vk_size(v)) == enc_vk(v),
        v.codec_valid(),
    ensures
        dec_vk_at(b, off) == Ok::<VkView, DecodeError>(v),
{
    lemma_enc_seq_len(v.ic, 96);
    let x1 = v.alpha_g1 + v.beta_g1;
    let x2 = x1 + v.beta_g2;
    let x3 = x2 + v.gamma_g2;
    let x4 = x3 + v.delta_g1;
    let x5 = x4 + v.delta_g2;
    assert(enc_vk(v) == x5 + enc_vec(v.ic));
    lemma_carve(b, off, x5, enc_vec(v.ic));
    lemma_carve(b, off, x4, v.delta_g2);
    lemma_carve(b, off, x3, v.delta_g1);
    lemma_carve(b, off, x2, v.gamma_g2);
    lemma_carve(b, off, x1, v.beta_g2);
    lemma_carve(b, off, v.alpha_g1, v.beta_g1);
    lemma_dec_g1_enc(b, off, v.alpha_g1, true);
    lemma_dec_g1_enc(b, off + 96, v.beta_g1, true);
    lemma_dec_g2_enc(b, off + 192, v.beta_g2, true);
    lemma_dec_g2_enc(b, off + 384, v.gamma_g2, true);
    lemma_dec_g1_enc(b, off + 576, v.delta_g1, true);
    lemma_dec_g2_enc(b, off + 672, v.delta_g2, true);
    lemma_dec_g1_lvec_enc(b, off + 864, v.ic, true);
    reveal(dec_vk_at);
    match dec_vk_at(b, off) {
        Ok(w) => {
            assert(w =~= v);
        },
        Err(_) => {
            assert(false);
        },
    }
}

/// A valid CRS decodes back from wherever its encoding stands in a buffer.
pub proof fn lemma_dec_params_enc(b: Seq<u8>, off: int, p: ParamsView, checked: bool)
    requires
        0 <= off,
        off + params_size(p) <= b.len(),
        b.subrange(off, off + params_size(p)) == enc_params(p),
        p.codec_valid(),
    ensures
        dec_params_at(b, off, checked) == Ok::<ParamsView, DecodeError>(p),
{
    lemma_enc_seq_len(p.vk.ic, 96);
    lemma_enc_seq_len(p.h, 96);
    lemma_enc_seq_len(p.l, 96);
    lemma_enc_seq_len(p.a, 96);
    lemma_enc_seq_len(p.b_g1, 96);
    lemma_enc_seq_len(p.b_g2, 192);
    let x1 = enc_vk(p.vk) + enc_vec(p.h);
    let x2 = x1 + enc_vec(p.l);
    let x3 = x2 + enc_vec(p.a);
    let x4 = x3 + enc_vec(p.b_g1);
    assert(enc_params(p) == x4 + enc_vec(p.b_g2));
    lemma_carve(b, off, x4, enc_vec(p.b_g2));
    lemma_carve(b, off, x3, enc_vec(p.b_g1));
    lemma_carve(b, off, x2, enc_vec(p.a));
    lemma_carve(b, off, x1, enc_vec(p.l));
    lemma_carve(b, off, enc_vk(p.vk), enc_vec(p.h));
    let o0 = off + vk_size(p.vk);
    let o1 = o0 + g1_vec_size(p.h);
    let o2 = o1 + g1_vec_size(p.l);
    let o3 = o2 + g1_vec_size(p.a);
    let o4 = o3 + g1_vec_size(p.b_g1);
    lemma_dec_vk_enc(b, off, p.vk);
    lemma_dec_g1_lvec_enc(b, o0, p.h, checked);
    lemma_dec_g1_lvec_enc(b, o1, p.l, checked);
    lemma_dec_g1_lvec_enc(b, o2, p.a, checked);
    lemma_dec_g1_lvec_enc(b, o3, p.b_g1, checked);
    lemma_dec_g2_lvec_enc(b, o4, p.b_g2, checked);
    reveal(dec_params_at);
    match dec_params_at(b, off, checked) {
        Ok(q) => {
            assert(q =~= p);
        },
        Err(_) => {
            assert(false);
        },
    }
}

/// A G1 sequence with an identity entry somewhere is refused by the
/// element-sequence decoder.
pub proof fn lemma_dec_g1_vec_identity(b: Seq<u8>, off: int, s: Seq<Seq<u8>>)
    requires
        0 <= off,
        off + 96 * s.len() <= b.len(),
        b.subrange(off, off + 96 * s.len()) == enc_seq(s),
        forall|i: int| 0 <= i < s.len() ==> (#[trigger] s[i]).len() == 96,
        exists|i: int| 0 <= i < s.len() && s[i] == g1_identity_repr(),
    ensures
        dec_g1_vec_at(b, off, s.len() as int, true) is Err,
    decreases s.len(),
{
    let i = choose|i: int| 0 <= i < s.len() && s[i] == g1_identity_repr();
    lemma_enc_seq_len(s, 96);
    lemma_enc_seq_len(s.drop_first(), 96);
    assert(enc_seq(s) == s[0] + enc_seq(s.drop_first()));
    lemma_carve(b, off, s[0], enc_seq(s.drop_first()));
    if i == 0 {
        assert(dec_g1_at(b, off, true) is Err);
    } else {
        match dec_g1_at(b, off, true) {
            Err(_) => {},
            Ok(_) => {
                assert(s.drop_first()[i - 1] == s[i]);
                lemma_dec_g1_vec_identity(b, off + 96, s.drop_first());
            },
        }
    }
}

/// Law: decoding a verifying key refuses an encoding of the group identity
/// in every position where the format forbids it: each of the six fixed
/// elements, and every entry of `ic`.
pub proof fn lemma_vk_decode_rejects_identity(v: VkView)
    requires
        v.alpha_g1.len() == 96,
        v.beta_g1.len() == 96,
        v.beta_g2.len() == 192,
        v.gamma_g2.len() == 192,
        v.delta_g1.len() == 96,
        v.delta_g2.len() == 192,
        forall|i: int| 0 <= i < v.ic.len() ==> (#[trigger] v.ic[i]).len() == 96,
        v.ic.len() <= u32::MAX,
        v.alpha_g1 == g1_identity_repr() || v.beta_g1 == g1_identity_repr() || v.beta_g2
            == g2_identity_repr() || v.gamma_g2 == g2_identity_repr() || v.delta_g1
            == g1_identity_repr() || v.delta_g2 == g2_identity_repr() || (exists|i: int|
            0 <= i < v.ic.len() && v.ic[i] == g1_identity_repr()),
    ensures
        dec_vk_at(enc_vk(v), 0) is Err,
{
    reveal(dec_vk_at);
    let b = enc_vk(v);
    lemma_enc_seq_len(v.ic, 96);
    let x1 = v.alpha_g1 + v.beta_g1;
    let x2 = x1 + v.beta_g2;
    let x3 = x2 + v.gamma_g2;
    let x4 = x3 + v.delta_g1;
    let x5 = x4 + v.delta_g2;
    assert(enc_vk(v) == x5 + enc_vec(v.ic));
    assert(b.subrange(0, vk_size(v)) =~= b);
    lemma_carve(b, 0, x5, enc_vec(v.ic));
    lemma_carve(b, 0, x4, v.delta_g2);
    lemma_carve(b, 0, x3, v.delta_g1);
    lemma_carve(b, 0, x2, v.gamma_g2);
    lemma_carve(b, 0, x1, v.beta_g2);
    lemma_carve(b, 0, v.alpha_g1, v.beta_g1);
    lemma_carve(b, 864, enc_u32(v.ic.len() as int), enc_seq(v.ic));
    match dec_vk_at(b, 0) {
        Err(_) => {},
        Ok(w) => {
            assert(dec_g1_at(b, 0, true) is Ok);
            assert(v.alpha_g1 != g1_identity_repr());
            assert(dec_g1_at(b, 96, true) is Ok);
            assert(v.beta_g1 != g1_identity_repr());
            assert(dec_g2_at(b, 192, true) is Ok);
            assert(v.beta_g2 != g2_identity_repr());
            assert(dec_g2_at(b, 384, true) is Ok);
            assert(v.gamma_g2 != g2_identity_repr());
            assert(dec_g1_at(b, 576, true) is Ok);
            assert(v.delta_g1 != g1_identity_repr());
            assert(dec_g2_at(b, 672, true) is Ok);
            assert(v.delta_g2 != g2_identity_repr());
            lemma_dec_u32_enc(b, 864, v.ic.len() as int);
            assert(dec_g1_vec_at(b, 868, v.ic.len() as int, true) is Ok);
            if exists|i: int| 0 <= i < v.ic.len() && v.ic[i] == g1_identity_repr() {
                lemma_dec_g1_vec_identity(b, 868, v.ic);
                assert(false);
            }
            assert(false);
        },
    }
}

/// Round trip of the proof codec: every valid proof decodes back from its
/// own encoding, elements fully checked.
pub proof fn lemma_proof_roundtrip(p: ProofView)
    requires
        p.codec_valid(),
    ensures
        dec_proof(enc_proof(p)) == Ok::<ProofView, DecodeError>(p),
{
    let b = enc_proof(p);
    assert(b.subrange(0, b.len() as int) =~= b);
    assert(enc_proof(p) == (p.a + p.b) + p.c);
    lemma_carve(b, 0, p.a + p.b, p.c);
    lemma_carve(b, 0, p.a, p.b);
    match dec_proof(b) {
        Ok(q) => {
            assert(q =~= p);
        },
        Err(_) => {
            assert(false);
        },
    }
}

/// Round trip of the verifying-key codec.
pub proof fn lemma_vk_roundtrip(v: VkView)
    requires
        v.codec_valid(),
    ensures
        dec_vk_at(enc_vk(v), 0) == Ok::<VkView, DecodeError>(v),
{
    lemma_enc_seq_len(v.ic, 96);
    assert(enc_vk(v).subrange(0, vk_size(v)) =~= enc_vk(v));
    lemma_dec_vk_enc(enc_vk(v), 0, v);
}

/// Round trip of the CRS codec, in either checking mode.
#[verifier::rlimit(50)]
pub proof fn lemma_params_roundtrip(p: ParamsView, checked: bool)
    requires
        p.codec_valid(),
    ensures
        dec_params_at(enc_params(p), 0, checked) == Ok::<ParamsView, DecodeError>(p),
{
    lemma_enc_seq_len(p.vk.ic, 96);
    lemma_enc_seq_len(p.h, 96);
    lemma_enc_seq_len(p.l, 96);
    lemma_enc_seq_len(p.a, 96);
    lemma_enc_seq_len(p.b_g1, 96);
    lemma_enc_seq_len(p.b_g2, 192);
    assert(enc_params(p).subrange(0, params_size(p)) =~= enc_params(p));
    lemma_dec_params_enc(enc_params(p), 0, p, checked);
}

/// Round trip of the extended-CRS codec, in either checking mode.
#[verifier::rlimit(100)]
pub proof fn lemma_ext_roundtrip(e: ExtView, checked: bool)
    requires
        e.codec_valid(),
    ensures
        dec_ext(enc_ext(e), checked) == Ok::<ExtView, DecodeError>(e),
{
    let b = enc_ext(e);
    lemma_enc_seq_len(e.params.vk.ic, 96);
    lemma_enc_seq_len(e.params.h, 96);
    lemma_enc_seq_len(e.params.l, 96);
    lemma_enc_seq_len(e.params.a, 96);
    lemma_enc_seq_len(e.params.b_g1, 96);
    lemma_enc_seq_len(e.params.b_g2, 192);
    lemma_enc_seq_len(e.taus_g1, 96);
    lemma_enc_seq_len(e.taus_g2, 192);
    let x1 = enc_params(e.params) + enc_vec(e.taus_g1);
    assert(enc_ext(e) == x1 + enc_vec(e.taus_g2));
    assert(b.subrange(0, b.len() as int) =~= b);
    lemma_carve(b, 0, x1, enc_vec(e.taus_g2));
    lemma_carve(b, 0, enc_params(e.params), enc_vec(e.taus_g1));
    let o0 = params_size(e.params);
    let o1 = o0 + g1_vec_size(e.taus_g1);
    lemma_dec_params_enc(b, 0, e.params, checked);
    lemma_dec_g1_lvec_enc(b, o0, e.taus_g1, checked);
    lemma_dec_g2_lvec_enc(b, o1, e.taus_g2, checked);
    reveal(dec_ext);
    match dec_ext(b, checked) {
        Ok(q) => {
            assert(q =~= e);
        },
        Err(_) => {
            assert(false);
        },
    }
}

/// Reads a count-prefixed G1 array at `off`; `Ok` gives the elements and the
/// offset after them.
pub(crate) fn read_g1_lvec_at(bytes: &Vec<u8>, off: usize, checked: bool) -> (r: Result<
    (Vec<G1Elem>, usize),
    DecodeError,
>)
    ensures
        match r {
            Ok((v, end)) => dec_g1_lvec_at(bytes@, off as int, checked) == Ok::<
                Seq<Seq<u8>>,
                DecodeError,
            >(g1_views(v@)) && end == off + g1_vec_size(g1_views(v@)) && v@.len() <= u32::MAX && (
            checked ==> g1_seq_ok(g1_views(v@))) && (forall|i: int|
                0 <= i < v@.len() ==> (#[trigger] g1_views(v@)[i]).len() == 96 && g1_wellformed(
                    g1_views(v@)[i],
                ) && g1_views(v@)[i] != g1_identity_repr()),
            Err(er) => dec_g1_lvec_at(bytes@, off as int, checked) == Err::<
                Seq<Seq<u8>>,
                DecodeError,
            >(er),
        },
{
    let (n, o) = match read_u32_at(bytes, off) {
        Ok(p) => p,
        Err(er) => {
            return Err(er);
        },
    };
    match read_g1_vec_at(bytes, o, n, checked) {
        Ok((v, end)) => Ok((v, end)),
        Err(er) => Err(er),
    }
}

/// Reads a count-prefixed G2 array at `off`.
pub(crate) fn read_g2_lvec_at(bytes: &Vec<u8>, off: usize, checked: bool) -> (r: Result<
    (Vec<G2Elem>, usize),
    DecodeError,
>)
    ensures
        match r {
            Ok((v, end)) => dec_g2_lvec_at(bytes@, off as int, checked) == Ok::<
                Seq<Seq<u8>>,
                DecodeError,
            >(g2_views(v@)) && end == off + g2_vec_size(g2_views(v@)) && v@.len() <= u32::MAX && (
            checked ==> g2_seq_ok(g2_views(v@))) && (forall|i: int|
                0 <= i < v@.len() ==> (#[trigger] g2_views(v@)[i]).len() == 192 && g2_wellformed(
                    g2_views(v@)[i],
                ) && g2_views(v@)[i] != g2_identity_repr()),
            Err(er) => dec_g2_lvec_at(bytes@, off as int, checked) == Err::<
                Seq<Seq<u8>>,
                DecodeError,
            >(er),
        },
{
    let (n, o) = match read_u32_at(bytes, off) {
        Ok(p) => p,
        Err(er) => {
            return Err(er);
        },
    };
    match read_g2_vec_at(bytes, o, n, checked) {
        Ok((v, end)) => Ok((v, end)),
        Err(er) => Err(er),
    }
}

impl Proof {
    /// The canonical encoding of this proof: always three fixed-width
    /// compressed elements, 192 bytes in all when the fields are well-sized.
    pub fn write(&self) -> (out: Vec<u8>)
        ensures
            out@ == enc_proof(self@),
    {
        let mut out: Vec<u8> = Vec::new();
        push_bytes(&mut out, &self.a.bytes);
        push_bytes(&mut out, &self.b.bytes);
        push_bytes(&mut out, &self.c.bytes);
        proof {
            assert(out@ =~= enc_proof(self@));
        }
        out
    }

    /// Decodes a proof from the start of `bytes`; trailing bytes are left
    /// unread.  Every element is fully checked (on curve and in the
    /// subgroup) and the identity is refused.
    pub fn read(bytes: &Vec<u8>) -> (r: Result<Proof, DecodeError>)
        ensures
            match r {
                Ok(p) => dec_proof(bytes@) == Ok::<ProofView, DecodeError>(p@)
                    && p@.codec_valid(),
                Err(er) => dec_proof(bytes@) == Err::<ProofView, DecodeError>(er),
            },
    {
        let a = match read_g1c_at(bytes, 0) {
            Ok(e) => e,
            Err(er) => {
                return Err(er);
            },
        };
        let b = match read_g2c_at(bytes, 48) {
            Ok(e) => e,
            Err(er) => {
                return Err(er);
            },
        };
        let c = match read_g1c_at(bytes, 144) {
            Ok(e) => e,
            Err(er) => {
                return Err(er);
            },
        };
        let p = Proof { a, b, c };
        proof {
            assert(dec_proof(bytes@) == Ok::<ProofView, DecodeError>(p@));
        }
        Ok(p)
    }
}

impl VerifyingKey {
    /// The canonical encoding of this key.
    pub fn write(&self) -> (out: Vec<u8>)
        requires
            self.ic@.len() <= u32::MAX,
        ensures
            out@ == enc_vk(self@),
    {
        let mut out: Vec<u8> = Vec::new();
        push_bytes(&mut out, &self.alpha_g1.bytes);
        push_bytes(&mut out, &self.beta_g1.bytes);
        push_bytes(&mut out, &self.beta_g2.bytes);
        push_bytes(&mut out, &self.gamma_g2.bytes);
        push_bytes(&mut out, &self.delta_g1.bytes);
        push_bytes(&mut out, &self.delta_g2.bytes);
        push_u32(&mut out, self.ic.len() as u32);
        write_g1_seq(&mut out, &self.ic);
        proof {
            assert(out@ =~= enc_vk(self@));
        }
        out
    }

    /// Decodes a verifying key from the start of `bytes`; trailing bytes are
    /// left unread.  Every element is fully checked and the identity is
    /// refused everywhere, the six fixed elements included.
    pub fn read(bytes: &Vec<u8>) -> (r: Result<VerifyingKey, DecodeError>)
        ensures
            match r {
                Ok(v) => dec_vk_at(bytes@, 0) == Ok::<VkView, DecodeError>(v@)
                    && v@.codec_valid(),
                Err(er) => dec_vk_at(bytes@, 0) == Err::<VkView, DecodeError>(er),
            },
    {
        match Self::read_at(bytes, 0) {
            Ok((v, _)) => Ok(v),
            Err(er) => Err(er),
        }
    }

    /// Decodes a verifying key at `off`; `Ok` gives the key and the offset
    /// after it.
    pub(crate) fn read_at(bytes: &Vec<u8>, off: usize) -> (r: Result<
        (VerifyingKey, usize),
        DecodeError,
    >)
        ensures
            match r {
                Ok((v, end)) => dec_vk_at(bytes@, off as int) == Ok::<VkView, DecodeError>(v@)
                    && end == off + vk_size(v@) && v@.codec_valid(),
                Err(er) => dec_vk_at(bytes@, off as int) == Err::<VkView, DecodeError>(er),
            },
    {
        proof {
            reveal(dec_vk_at);
        }
        let blen = bytes.len();
        let alpha_g1 = match read_g1_at(bytes, off, true) {
            Ok(e) => e,
            Err(er) => {
                return Err(er);
            },
        };
        proof {
            assert(off + 96 <= blen);
        }
        let o1 = off + 96;
        let beta_g1 = match read_g1_at(bytes, o1, true) {
            Ok(e) => e,
            Err(er) => {
                return Err(er);
            },
        };
        proof {
            assert(o1 + 96 <= blen);
        }
        let o2 = o1 + 96;
        let beta_g2 = match read_g2_at(bytes, o2, true) {
            Ok(e) => e,
            Err(er) => {
                return Err(er);
            },
        };
        proof {
            assert(o2 + 192 <= blen);
        }
        let o3 = o2 + 192;
        let gamma_g2 = match read_g2_at(bytes, o3, true) {
            Ok(e) => e,
            Err(er) => {
                return Err(er);
            },
        };
        proof {
            assert(o3 + 192 <= blen);
        }
        let o4 = o3 + 192;
        let delta_g1 = match read_g1_at(bytes, o4, true) {
            Ok(e) => e,
            Err(er) => {
                return Err(er);
            },
        };
        proof {
            assert(o4 + 96 <= blen);
        }
        let o5 = o4 + 96;
        let delta_g2 = match read_g2_at(bytes, o5, true) {
            Ok(e) => e,
            Err(er) => {
                return Err(er);
            },
        };
        proof {
            assert(o5 + 192 <= blen);
        }
        let o6 = o5 + 192;
        let (n, o7) = match read_u32_at(bytes, o6) {
            Ok(p) => p,
            Err(er) => {
                return Err(er);
            },
        };
        let (ic, end) = match read_g1_vec_at(bytes, o7, n, true) {
            Ok(p) => p,
            Err(er) => {
                return Err(er);
            },
        };
        let v = VerifyingKey { alpha_g1, beta_g1, beta_g2, gamma_g2, delta_g1, delta_g2, ic };
        proof {
            reveal(dec_vk_at);
            assert(dec_vk_at(bytes@, off as int) == Ok::<VkView, DecodeError>(v@));
        }
        Ok((v, end))
    }
}

impl Parameters {
    /// The canonical encoding of this CRS.
    pub fn write(&self) -> (out: Vec<u8>)
        requires
            self.vk.ic@.len() <= u32::MAX,
            self.h@.len() <= u32::MAX,
            self.l@.len() <= u32::MAX,
            self.a@.len() <= u32::MAX,
            self.b_g1@.len() <= u32::MAX,
            self.b_g2@.len() <= u32::MAX,
        ensures
            out@ == enc_params(self@),
    {
        let mut out = self.vk.write();
        push_u32(&mut out, self.h.len() as u32);
        write_g1_seq(&mut out, &self.h);
        push_u32(&mut out, self.l.len() as u32);
        write_g1_seq(&mut out, &self.l);
        push_u32(&mut out, self.a.len() as u32);
        write_g1_seq(&mut out, &self.a);
        push_u32(&mut out, self.b_g1.len() as u32);
        write_g1_seq(&mut out, &self.b_g1);
        push_u32(&mut out, self.b_g2.len() as u32);
        write_g2_seq(&mut out, &self.b_g2);
        proof {
            assert(out@ =~= enc_params(self@));
        }
        out
    }

    /// Decodes a CRS from the start of `bytes`; trailing bytes are left
    /// unread.  With `checked` true, every array element is verified to lie
    /// on the curve and in the prime-order subgroup; the verifying key is
    /// fully checked either way, and the identity is refused everywhere.
    pub fn read(bytes: &Vec<u8>, checked: bool) -> (r: Result<Parameters, DecodeError>)
        ensures
            match r {
                Ok(p) => dec_params_at(bytes@, 0, checked) == Ok::<ParamsView, DecodeError>(p@) && (
                checked ==> p@.codec_valid()),
                Err(er) => dec_params_at(bytes@, 0, checked) == Err::<ParamsView, DecodeError>(er),
            },
    {
        match Self::read_at(bytes, 0, checked) {
            Ok((p, _)) => Ok(p),
            Err(er) => Err(er),
        }
    }

    /// Decodes a CRS at `off`; `Ok` gives the CRS and the offset after it.
    pub(crate) fn read_at(bytes: &Vec<u8>, off: usize, checked: bool) -> (r: Result<
        (Parameters, usize),
        DecodeError,
    >)
        ensures
            match r {
                Ok((p, end)) => dec_params_at(bytes@, off as int, checked) == Ok::<
                    ParamsView,
                    DecodeError,
                >(p@) && end == off + params_size(p@) && (checked ==> p@.codec_valid()),
                Err(er) => dec_params_at(bytes@, off as int, checked) == Err::<
                    ParamsView,
                    DecodeError,
                >(er),
            },
    {
        proof {
            reveal(dec_params_at);
        }
        let (vk, o1) = match VerifyingKey::read_at(bytes, off) {
            Ok(p) => p,
            Err(er) => {
                return Err(er);
            },
        };
        let (h, o2) = match read_g1_lvec_at(bytes, o1, checked) {
            Ok(p) => p,
            Err(er) => {
                return Err(er);
            },
        };
        let (l, o3) = match read_g1_lvec_at(bytes, o2, checked) {
            Ok(p) => p,
            Err(er) => {
                return Err(er);
            },
        };
        let (a, o4) = match read_g1_lvec_at(bytes, o3, checked) {
            Ok(p) => p,
            Err(er) => {
                return Err(er);
            },
        };
        let (b_g1, o5) = match read_g1_lvec_at(bytes, o4, checked) {
            Ok(p) => p,
            Err(er) => {
                return Err(er);
            },
        };
        let (b_g2, end) = match read_g2_lvec_at(bytes, o5, checked) {
            Ok(p) => p,
            Err(er) => {
                return Err(er);
            },
        };
        let p = Parameters { vk, h, l, a, b_g1, b_g2 };
        proof {
            reveal(dec_params_at);
            assert(dec_params_at(bytes@, off as int, checked) == Ok::<ParamsView, DecodeError>(
                p@,
            ));
        }
        Ok((p, end))
    }
}

impl ExtendedParameters {
    /// The canonical encoding of this extended CRS.
    pub fn write(&self) -> (out: Vec<u8>)
        requires
            self.params.vk.ic@.len() <= u32::MAX,
            self.params.h@.len() <= u32::MAX,
            self.params.l@.len() <= u32::MAX,
            self.params.a@.len() <= u32::MAX,
            self.params.b_g1@.len() <= u32::MAX,
            self.params.b_g2@.len() <= u32::MAX,
            self.taus_g1@.len() <= u32::MAX,
            self.taus_g2@.len() <= u32::MAX,
        ensures
            out@ == enc_ext(self@),
    {
        let mut out = self.params.write();
        push_u32(&mut out, self.taus_g1.len() as u32);
        write_g1_seq(&mut out, &self.taus_g1);
        push_u32(&mut out, self.taus_g2.len() as u32);
        write_g2_seq(&mut out, &self.taus_g2);
        proof {
            assert(out@ =~= enc_ext(self@));
        }
        out
    }

    /// Decodes an extended CRS from the start of `bytes`; trailing bytes are
    /// left unread.  Checking behaves as for `Parameters::read`.
    pub fn read(bytes: &Vec<u8>, checked: bool) -> (r: Result<ExtendedParameters, DecodeError>)
        ensures
            match r {
                Ok(e) => dec_ext(bytes@, checked) == Ok::<ExtView, DecodeError>(e@) && (checked
                    ==> e@.codec_valid()),
                Err(er) => dec_ext(bytes@, checked) == Err::<ExtView, DecodeError>(er),
            },
    {
        proof {
            reveal(dec_ext);
        }
        let (params, o1) = match Parameters::read_at(bytes, 0, checked) {
            Ok(p) => p,
            Err(er) => {
                return Err(er);
            },
        };
        let (taus_g1, o2) = match read_g1_lvec_at(bytes, o1, checked) {
            Ok(p) => p,
            Err(er) => {
                return Err(er);
            },
        };
        let (taus_g2, _) = match read_g2_lvec_at(bytes, o2, checked) {
            Ok(p) => p,
            Err(er) => {
                return Err(er);
            },
        };
        let e = ExtendedParameters { params, taus_g1, taus_g2 };
        proof {
            reveal(dec_ext);
            assert(dec_ext(bytes@, checked) == Ok::<ExtView, DecodeError>(e@));
        }
        Ok(e)
    }
}

} // verus!

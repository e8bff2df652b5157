//! End-to-end tests: an honest trusted setup run in the clear (the test
//! knows the trapdoor), the codec round trips, proof creation and
//! verification, and the subversion audit on honest and tampered parameters.

use bls12_381::{
    multi_miller_loop, G1Affine, G1Projective, G2Affine, G2Prepared, G2Projective, Gt, Scalar,
};
use ff::Field;
use ff::PrimeField;
use groth16_audit::assembly::{Circuit, Index, KeypairAssembly, LinearCombination, Variable};
use groth16_audit::curve::{CrsRng, FrElem, G1Comp, G1Elem, G2Comp, G2Elem};
use groth16_audit::params::{ExtendedParameters, Parameters, Proof, VerifyingKey};
use groth16_audit::{DecodeError, SynthesisError};
use rand_core::OsRng;

fn fr(s: Scalar) -> FrElem {
    FrElem { bytes: s.to_bytes().to_vec() }
}

fn sc(f: &FrElem) -> Scalar {
    let arr: [u8; 32] = f.bytes[..].try_into().unwrap();
    Scalar::from_bytes(&arr).unwrap()
}

fn g1(p: G1Projective) -> G1Elem {
    G1Elem { bytes: G1Affine::from(p).to_uncompressed().to_vec() }
}

fn g2(p: G2Projective) -> G2Elem {
    G2Elem { bytes: G2Affine::from(p).to_uncompressed().to_vec() }
}

fn g1c(p: G1Projective) -> G1Comp {
    G1Comp { bytes: G1Affine::from(p).to_compressed().to_vec() }
}

fn g2c(p: G2Projective) -> G2Comp {
    G2Comp { bytes: G2Affine::from(p).to_compressed().to_vec() }
}

fn dec_g1(e: &G1Elem) -> G1Affine {
    let arr: [u8; 96] = e.bytes[..].try_into().unwrap();
    G1Affine::from_uncompressed(&arr).unwrap()
}

fn dec_g2(e: &G2Elem) -> G2Affine {
    let arr: [u8; 192] = e.bytes[..].try_into().unwrap();
    G2Affine::from_uncompressed(&arr).unwrap()
}

fn one_term(var: Variable) -> LinearCombination {
    let mut lc = LinearCombination::new();
    lc.push_term(fr(Scalar::from(1u64)), var);
    lc
}

/// `gates` multiplication gates, each enforcing `a * b = c` with `c` a
/// public input.
struct MultCircuit {
    gates: usize,
}

impl Circuit for MultCircuit {
    fn synthesize(&self, cs: &mut KeypairAssembly) -> Result<(), SynthesisError> {
        let mut i: usize = 0;
        while i < self.gates {
            let a = cs.alloc_aux();
            let b = cs.alloc_aux();
            let c = cs.alloc_input();
            cs.enforce(&one_term(a), &one_term(b), &one_term(c));
            i += 1;
        }
        Ok(())
    }
}

/// As `MultCircuit` with one gate, but with the roles of the two auxiliary
/// wires exchanged in the constraint: same wire and constraint counts, a
/// different A/B structure.
struct SwappedCircuit;

impl Circuit for SwappedCircuit {
    fn synthesize(&self, cs: &mut KeypairAssembly) -> Result<(), SynthesisError> {
        let a = cs.alloc_aux();
        let b = cs.alloc_aux();
        let c = cs.alloc_input();
        cs.enforce(&one_term(b), &one_term(a), &one_term(c));
        Ok(())
    }
}

/// An honestly generated CRS together with the clear trapdoor-derived
/// polynomial evaluations the test prover needs.
struct Crs {
    ext: ExtendedParameters,
    u: Vec<Scalar>,
    v: Vec<Scalar>,
    w: Vec<Scalar>,
    alpha: Scalar,
    beta: Scalar,
    delta: Scalar,
    ni: usize,
    na: usize,
}

fn synthesize_matrices(gates: usize) -> KeypairAssembly {
    let mut cs = KeypairAssembly::new();
    cs.alloc_input();
    MultCircuit { gates }.synthesize(&mut cs).unwrap();
    cs.append_input_constraints();
    cs
}

/// Runs an honest trusted setup for `gates` multiplication gates, with the
/// trapdoor drawn fresh and used in the clear.
fn setup(gates: usize) -> Crs {
    let cs = synthesize_matrices(gates);
    let ni: usize = cs.num_inputs;
    let na: usize = cs.num_aux;
    let nw: usize = ni + na;
    let m: usize = cs.num_constraints.next_power_of_two();
    let k: u32 = m.trailing_zeros();
    let omega = <Scalar as PrimeField>::ROOT_OF_UNITY.pow(&[1u64 << (32 - k), 0, 0, 0]);

    let tau = loop {
        let t = Scalar::random(&mut OsRng);
        if t != Scalar::from(0u64) && t.pow(&[m as u64, 0, 0, 0]) != Scalar::from(1u64) {
            break t;
        }
    };
    let alpha = Scalar::random(&mut OsRng);
    let beta = Scalar::random(&mut OsRng);
    let gamma = loop {
        let t = Scalar::random(&mut OsRng);
        if t != Scalar::from(0u64) {
            break t;
        }
    };
    let delta = loop {
        let t = Scalar::random(&mut OsRng);
        if t != Scalar::from(0u64) {
            break t;
        }
    };

    // Lagrange basis at tau over the size-m domain of roots of unity:
    // L_j(tau) = Z(tau) * omega^j / (m * (tau - omega^j)).
    let z_tau = tau.pow(&[m as u64, 0, 0, 0]) - Scalar::from(1u64);
    let m_s = Scalar::from(m as u64);
    let mut lag: Vec<Scalar> = Vec::new();
    let mut wj = Scalar::from(1u64);
    let mut j: usize = 0;
    while j < m {
        lag.push(z_tau * wj * (m_s * (tau - wj)).invert().unwrap());
        wj *= omega;
        j += 1;
    }

    // Per-wire QAP polynomial evaluations at tau, inputs first.
    let mut u = vec![Scalar::from(0u64); nw];
    let mut v = vec![Scalar::from(0u64); nw];
    let mut w = vec![Scalar::from(0u64); nw];
    for i in 0..ni {
        for t in &cs.at_inputs[i] {
            u[i] += sc(&t.0) * lag[t.1];
        }
        for t in &cs.bt_inputs[i] {
            v[i] += sc(&t.0) * lag[t.1];
        }
        for t in &cs.ct_inputs[i] {
            w[i] += sc(&t.0) * lag[t.1];
        }
    }
    for i in 0..na {
        for t in &cs.at_aux[i] {
            u[ni + i] += sc(&t.0) * lag[t.1];
        }
        for t in &cs.bt_aux[i] {
            v[ni + i] += sc(&t.0) * lag[t.1];
        }
        for t in &cs.ct_aux[i] {
            w[ni + i] += sc(&t.0) * lag[t.1];
        }
    }

    let g1p = G1Projective::generator();
    let g2p = G2Projective::generator();
    let ginv = gamma.invert().unwrap();
    let dinv = delta.invert().unwrap();

    let mut ic: Vec<G1Elem> = Vec::new();
    for i in 0..ni {
        ic.push(g1(g1p * ((beta * u[i] + alpha * v[i] + w[i]) * ginv)));
    }
    let mut l: Vec<G1Elem> = Vec::new();
    for i in 0..na {
        l.push(g1(g1p * ((beta * u[ni + i] + alpha * v[ni + i] + w[ni + i]) * dinv)));
    }
    let mut h: Vec<G1Elem> = Vec::new();
    let mut taus_g1: Vec<G1Elem> = Vec::new();
    let mut taus_g2: Vec<G2Elem> = Vec::new();
    let mut ti = Scalar::from(1u64);
    for i in 0..m {
        if i < m - 1 {
            h.push(g1(g1p * (ti * z_tau * dinv)));
        }
        taus_g1.push(g1(g1p * ti));
        taus_g2.push(g2(g2p * ti));
        ti *= tau;
    }
    let mut a: Vec<G1Elem> = Vec::new();
    let mut b_g1: Vec<G1Elem> = Vec::new();
    let mut b_g2: Vec<G2Elem> = Vec::new();
    for i in 0..nw {
        if u[i] != Scalar::from(0u64) {
            a.push(g1(g1p * u[i]));
        }
        if v[i] != Scalar::from(0u64) {
            b_g1.push(g1(g1p * v[i]));
            b_g2.push(g2(g2p * v[i]));
        }
    }

    let vk = VerifyingKey {
        alpha_g1: g1(g1p * alpha),
        beta_g1: g1(g1p * beta),
        beta_g2: g2(g2p * beta),
        gamma_g2: g2(g2p * gamma),
        delta_g1: g1(g1p * delta),
        delta_g2: g2(g2p * delta),
        ic,
    };
    let params = Parameters { vk, h, l, a, b_g1, b_g2 };
    let ext = ExtendedParameters { params, taus_g1, taus_g2 };
    Crs { ext, u, v, w, alpha, beta, delta, ni, na }
}

/// Creates a Groth16 proof for the multiplication circuit, one `(a, b)`
/// witness pair per gate, using the clear trapdoor evaluations.
fn prove(crs: &Crs, avs: &[Scalar], bvs: &[Scalar]) -> Proof {
    let nw: usize = crs.ni + crs.na;
    let mut x = vec![Scalar::from(0u64); nw];
    x[0] = Scalar::from(1u64);
    for i in 0..avs.len() {
        x[1 + i] = avs[i] * bvs[i];
        x[crs.ni + 2 * i] = avs[i];
        x[crs.ni + 2 * i + 1] = bvs[i];
    }
    let mut u_x = Scalar::from(0u64);
    let mut v_x = Scalar::from(0u64);
    let mut w_x = Scalar::from(0u64);
    let mut c_aux = Scalar::from(0u64);
    let dinv = crs.delta.invert().unwrap();
    for i in 0..nw {
        u_x += x[i] * crs.u[i];
        v_x += x[i] * crs.v[i];
        w_x += x[i] * crs.w[i];
        if i >= crs.ni {
            c_aux += x[i] * (crs.beta * crs.u[i] + crs.alpha * crs.v[i] + crs.w[i]) * dinv;
        }
    }
    let r = Scalar::random(&mut OsRng);
    let s = Scalar::random(&mut OsRng);
    let a_el = crs.alpha + u_x + r * crs.delta;
    let b_el = crs.beta + v_x + s * crs.delta;
    let hz = u_x * v_x - w_x;
    let c_el = c_aux + hz * dinv + a_el * s + b_el * r - r * s * crs.delta;
    Proof {
        a: g1c(G1Projective::generator() * a_el),
        b: g2c(G2Projective::generator() * b_el),
        c: g1c(G1Projective::generator() * c_el),
    }
}

/// Verifies a proof against the CRS's verifying key and the given public
/// inputs (the constant-one input excluded).
fn check_proof(crs: &Crs, prf: &Proof, inputs: &[Scalar]) -> bool {
    let vk = &crs.ext.params.vk;
    let a_arr: [u8; 48] = prf.a.bytes[..].try_into().unwrap();
    let b_arr: [u8; 96] = prf.b.bytes[..].try_into().unwrap();
    let c_arr: [u8; 48] = prf.c.bytes[..].try_into().unwrap();
    let a = G1Affine::from_compressed(&a_arr).unwrap();
    let b = G2Affine::from_compressed(&b_arr).unwrap();
    let c = G1Affine::from_compressed(&c_arr).unwrap();
    let mut ic_sum = G1Projective::from(dec_g1(&vk.ic[0]));
    for i in 0..inputs.len() {
        ic_sum += dec_g1(&vk.ic[1 + i]) * inputs[i];
    }
    let ic_aff = G1Affine::from(ic_sum);
    let alpha_g1 = dec_g1(&vk.alpha_g1);
    let beta_g2 = G2Prepared::from(dec_g2(&vk.beta_g2));
    let gamma_g2 = G2Prepared::from(dec_g2(&vk.gamma_g2));
    let delta_g2 = G2Prepared::from(dec_g2(&vk.delta_g2));
    let neg_a = -a;
    let b_prep = G2Prepared::from(b);
    let res = multi_miller_loop(
        &[(&neg_a, &b_prep), (&alpha_g1, &beta_g2), (&ic_aff, &gamma_g2), (&c, &delta_g2)],
    )
    .final_exponentiation();
    res == Gt::identity()
}

#[test]
fn serialization() {
    let crs = setup(1);
    let enc = crs.ext.params.write();
    assert_eq!(enc.len(), 2136);

    let de = Parameters::read(&enc, true).unwrap();
    assert!(crs.ext.params == de);

    let de = Parameters::read(&enc, false).unwrap();
    assert!(crs.ext.params == de);

    for _ in 0..100 {
        let a = Scalar::random(&mut OsRng);
        let b = Scalar::random(&mut OsRng);
        let c = a * b;

        let prf = prove(&crs, &[a], &[b]);
        let penc = prf.write();
        assert_eq!(penc.len(), 192);

        let de_prf = Proof::read(&penc).unwrap();
        assert!(prf == de_prf);

        assert!(check_proof(&crs, &prf, &[c]));
        assert!(!check_proof(&crs, &prf, &[a]));
    }
}

#[test]
fn extended_serialization() {
    let crs = setup(1);
    let enc = crs.ext.write();

    let de = ExtendedParameters::read(&enc, true).unwrap();
    assert!(crs.ext == de);

    let de = ExtendedParameters::read(&enc, false).unwrap();
    assert!(crs.ext == de);
}

#[test]
fn subversion_check() {
    let crs = setup(1);
    let mut rng = CrsRng::new();
    assert!(crs.ext.verify(&MultCircuit { gates: 1 }, &mut rng).is_ok());
}

#[test]
fn subversion_check_idempotent() {
    let crs = setup(1);
    let mut rng = CrsRng::new();
    assert!(crs.ext.verify(&MultCircuit { gates: 1 }, &mut rng).is_ok());
    assert!(crs.ext.verify(&MultCircuit { gates: 1 }, &mut rng).is_ok());
}

#[test]
fn subversion_rejects_alpha_bit_flip() {
    let mut crs = setup(1);
    crs.ext.params.vk.alpha_g1.bytes[50] ^= 1;
    let mut rng = CrsRng::new();
    let res = crs.ext.verify(&MultCircuit { gates: 1 }, &mut rng);
    assert!(matches!(res, Err(SynthesisError::MalformedCrs)));
}

#[test]
fn subversion_rejects_permuted_taus() {
    let mut crs = setup(1);
    crs.ext.taus_g1.swap(1, 2);
    let mut rng = CrsRng::new();
    let res = crs.ext.verify(&MultCircuit { gates: 1 }, &mut rng);
    assert!(matches!(res, Err(SynthesisError::MalformedCrs)));
}

#[test]
fn subversion_rejects_identity_h() {
    let mut crs = setup(1);
    crs.ext.params.h[0] = G1Elem { bytes: G1Affine::identity().to_uncompressed().to_vec() };
    let mut rng = CrsRng::new();
    let res = crs.ext.verify(&MultCircuit { gates: 1 }, &mut rng);
    assert!(matches!(res, Err(SynthesisError::MalformedCrs)));
}

#[test]
fn subversion_rejects_wrong_circuit() {
    let crs = setup(1);
    let mut rng = CrsRng::new();
    // Same wire and constraint counts, different constraint structure.
    let res = crs.ext.verify(&SwappedCircuit, &mut rng);
    assert!(matches!(res, Err(SynthesisError::MalformedCrs)));
}

#[test]
fn subversion_rejects_larger_circuit() {
    let crs = setup(1);
    let mut rng = CrsRng::new();
    let res = crs.ext.verify(&MultCircuit { gates: 2 }, &mut rng);
    assert!(matches!(res, Err(SynthesisError::MalformedCrs)));
}

#[test]
fn hundred_gate_scenario() {
    let crs = setup(100);
    let mut avs: Vec<Scalar> = Vec::new();
    let mut bvs: Vec<Scalar> = Vec::new();
    let mut cvs: Vec<Scalar> = Vec::new();
    for _ in 0..100 {
        let a = Scalar::random(&mut OsRng);
        let b = Scalar::random(&mut OsRng);
        avs.push(a);
        bvs.push(b);
        cvs.push(a * b);
    }
    let prf = prove(&crs, &avs, &bvs);
    assert_eq!(prf.write().len(), 192);
    assert!(check_proof(&crs, &prf, &cvs));
    let mut wrong = cvs.clone();
    wrong[0] += Scalar::from(1u64);
    assert!(!check_proof(&crs, &prf, &wrong));
}

#[test]
fn decode_rejects_identity_alpha() {
    let crs = setup(1);
    let mut enc = crs.ext.params.vk.write();
    let id = G1Affine::identity().to_uncompressed();
    enc[..96].copy_from_slice(&id);
    assert!(matches!(VerifyingKey::read(&enc), Err(DecodeError::IdentityPoint)));
}

#[test]
fn decode_rejects_identity_gamma() {
    let crs = setup(1);
    let mut enc = crs.ext.params.vk.write();
    let id = G2Affine::identity().to_uncompressed();
    enc[384..576].copy_from_slice(&id);
    assert!(matches!(VerifyingKey::read(&enc), Err(DecodeError::IdentityPoint)));
}

#[test]
fn decode_rejects_identity_ic_entry() {
    let crs = setup(1);
    let mut enc = crs.ext.params.vk.write();
    let id = G1Affine::identity().to_uncompressed();
    enc[868..964].copy_from_slice(&id);
    assert!(matches!(VerifyingKey::read(&enc), Err(DecodeError::IdentityPoint)));
}

#[test]
fn decode_rejects_identity_proof_element() {
    let crs = setup(1);
    let prf = prove(&crs, &[Scalar::from(2u64)], &[Scalar::from(3u64)]);
    let mut enc = prf.write();
    let id = G1Affine::identity().to_compressed();
    enc[..48].copy_from_slice(&id);
    assert!(matches!(Proof::read(&enc), Err(DecodeError::IdentityPoint)));
}

#[test]
fn decode_rejects_truncated_proof() {
    let crs = setup(1);
    let prf = prove(&crs, &[Scalar::from(2u64)], &[Scalar::from(3u64)]);
    let mut enc = prf.write();
    enc.pop();
    assert!(matches!(Proof::read(&enc), Err(DecodeError::Truncated)));
}

#[test]
fn assembly_records_constraints() {
    let cs = synthesize_matrices(1);
    // One constant input and one product output; two auxiliary wires; the
    // multiplication constraint plus one appended constraint per input.
    assert_eq!(cs.num_inputs, 2);
    assert_eq!(cs.num_aux, 2);
    assert_eq!(cs.num_constraints, 3);
    // The multiplication put the first auxiliary wire in A, the second in
    // B, the output input in C; the appended constraints fill the A rows of
    // the inputs.
    assert_eq!(cs.at_aux[0].len(), 1);
    assert_eq!(cs.at_aux[0][0].1, 0);
    assert_eq!(cs.bt_aux[1].len(), 1);
    assert_eq!(cs.ct_inputs[1].len(), 1);
    assert_eq!(cs.at_inputs[0].len(), 1);
    assert_eq!(cs.at_inputs[0][0].1, 1);
    assert_eq!(cs.at_inputs[1].len(), 1);
    assert_eq!(cs.at_inputs[1][0].1, 2);
    assert_eq!(cs.bt_inputs[0].len(), 0);
    // The wire handles tag their kind and position.
    let mut fresh = KeypairAssembly::new();
    assert!(matches!(fresh.alloc_input(), Variable(Index::Input(0))));
    assert!(matches!(fresh.alloc_aux(), Variable(Index::Aux(0))));
    assert!(matches!(fresh.alloc_aux(), Variable(Index::Aux(1))));
}

#[test]
fn prepared_key_mirrors_verifying_key() {
    let crs = setup(1);
    let pvk = groth16_audit::params::prepare_verifying_key(&crs.ext.params.vk);
    let ng = dec_g2(&pvk.neg_gamma_g2);
    let nd = dec_g2(&pvk.neg_delta_g2);
    assert_eq!(ng, -dec_g2(&crs.ext.params.vk.gamma_g2));
    assert_eq!(nd, -dec_g2(&crs.ext.params.vk.delta_g2));
    assert_eq!(pvk.ic.len(), crs.ext.params.vk.ic.len());
    assert!(pvk.ic[0] == crs.ext.params.vk.ic[0]);
}

//! Invalid-encoding vectors: corrupted fixed-width element encodings must be
//! refused by the decoders.  Each vector is planted in the first element
//! slot of its kind inside a structure encoding (uncompressed elements in a
//! verifying key, compressed elements in a proof), so rejection is observed
//! through the library's own readers.

use bls12_381::{G1Affine, G2Affine};
use groth16_audit::params::{Proof, VerifyingKey};
use groth16_audit::DecodeError;

/// The base-field modulus, big endian: a canonical-form violation when used
/// as a coordinate.
fn fq_modulus() -> [u8; 48] {
    [
        0x1a, 0x01, 0x11, 0xea, 0x39, 0x7f, 0xe6, 0x9a, 0x4b, 0x1b, 0xa7, 0xb6, 0x43, 0x4b, 0xac,
        0xd7, 0x64, 0x77, 0x4b, 0x84, 0xf3, 0x85, 0x12, 0xbf, 0x67, 0x30, 0xd2, 0xa0, 0xf6, 0xb0,
        0xf6, 0x24, 0x1e, 0xab, 0xff, 0xfe, 0xb1, 0x53, 0xff, 0xff, 0xb9, 0xfe, 0xff, 0xff, 0xff,
        0xff, 0xaa, 0xab,
    ]
}

/// Adds one to a big-endian byte string.
fn be_incr(x: &mut [u8; 48]) {
    let mut i: usize = 47;
    loop {
        if x[i] == 0xff {
            x[i] = 0;
            if i == 0 {
                return;
            }
            i -= 1;
        } else {
            x[i] += 1;
            return;
        }
    }
}

/// Decodes a verifying key whose first (uncompressed G1) slot holds `e`.
fn read_g1_slot(e: &[u8; 96]) -> Result<VerifyingKey, DecodeError> {
    VerifyingKey::read(&e.to_vec())
}

/// Decodes a verifying key whose first uncompressed G2 slot holds `e`,
/// behind two valid G1 elements.
fn read_g2_slot(e: &[u8; 192]) -> Result<VerifyingKey, DecodeError> {
    let mut buf = G1Affine::generator().to_uncompressed().to_vec();
    buf.extend_from_slice(&G1Affine::generator().to_uncompressed());
    buf.extend_from_slice(e);
    VerifyingKey::read(&buf)
}

/// Decodes a proof whose first (compressed G1) slot holds `e`.
fn read_g1c_slot(e: &[u8; 48]) -> Result<Proof, DecodeError> {
    Proof::read(&e.to_vec())
}

/// Decodes a proof whose compressed G2 slot holds `e`, behind one valid
/// compressed G1 element.
fn read_g2c_slot(e: &[u8; 96]) -> Result<Proof, DecodeError> {
    let mut buf = G1Affine::generator().to_compressed().to_vec();
    buf.extend_from_slice(e);
    Proof::read(&buf)
}

#[test]
fn test_g1_uncompressed_invalid_vectors() {
    {
        let z = G1Affine::identity().to_uncompressed();

        {
            let mut z = z;
            z[0] |= 0b1000_0000;
            if matches!(read_g1_slot(&z), Err(DecodeError::InvalidPoint)) {
                // :)
            } else {
                panic!("should have rejected the point because we expected an uncompressed point");
            }
        }

        {
            let mut z = z;
            z[0] |= 0b0010_0000;
            if matches!(read_g1_slot(&z), Err(DecodeError::InvalidPoint)) {
                // :)
            } else {
                panic!("should have rejected the point because the parity bit should not be set if the point is at infinity");
            }
        }

        for i in 0..96 {
            let mut z = z;
            z[i] |= 0b0000_0001;
            if matches!(read_g1_slot(&z), Err(DecodeError::InvalidPoint)) {
                // :)
            } else {
                panic!("should have rejected the point because the coordinates should be zeroes at the point at infinity");
            }
        }
    }

    let o = G1Affine::generator().to_uncompressed();

    {
        let mut o = o;
        o[0] |= 0b1000_0000;
        if matches!(read_g1_slot(&o), Err(DecodeError::InvalidPoint)) {
            // :)
        } else {
            panic!("should have rejected the point because we expected an uncompressed point");
        }
    }

    let m = fq_modulus();

    {
        let mut o = o;
        o[..48].copy_from_slice(&m);

        if matches!(read_g1_slot(&o), Err(DecodeError::InvalidPoint)) {
            // x coordinate
        } else {
            panic!("should have rejected the point")
        }
    }

    {
        let mut o = o;
        o[48..].copy_from_slice(&m);

        if matches!(read_g1_slot(&o), Err(DecodeError::InvalidPoint)) {
            // y coordinate
        } else {
            panic!("should have rejected the point")
        }
    }

    {
        let mut o = o;
        o[..48].copy_from_slice(&[0u8; 48]);

        if matches!(read_g1_slot(&o), Err(DecodeError::InvalidPoint)) {
            // :)
        } else {
            panic!("should have rejected the point because it isn't on the curve")
        }
    }

    {
        // Walk the x-coordinates upward to a point on the curve; the first
        // hit lies outside the prime-order subgroup.
        let mut x = [0u8; 48];
        be_incr(&mut x);
        loop {
            let mut comp = x;
            comp[0] |= 0b1000_0000;
            let cand = G1Affine::from_compressed_unchecked(&comp);
            if bool::from(cand.is_some()) {
                let mut o = o;
                o.copy_from_slice(&cand.unwrap().to_uncompressed());
                if matches!(read_g1_slot(&o), Err(DecodeError::InvalidPoint)) {
                    break;
                } else {
                    panic!(
                        "should have rejected the point because it isn't in the correct subgroup"
                    )
                }
            } else {
                be_incr(&mut x);
            }
        }
    }
}

#[test]
fn test_g2_uncompressed_invalid_vectors() {
    {
        let z = G2Affine::identity().to_uncompressed();

        {
            let mut z = z;
            z[0] |= 0b1000_0000;
            if matches!(read_g2_slot(&z), Err(DecodeError::InvalidPoint)) {
                // :)
            } else {
                panic!("should have rejected the point because we expected an uncompressed point");
            }
        }

        {
            let mut z = z;
            z[0] |= 0b0010_0000;
            if matches!(read_g2_slot(&z), Err(DecodeError::InvalidPoint)) {
                // :)
            } else {
                panic!("should have rejected the point because the parity bit should not be set if the point is at infinity");
            }
        }

        for i in 0..192 {
            let mut z = z;
            z[i] |= 0b0000_0001;
            if matches!(read_g2_slot(&z), Err(DecodeError::InvalidPoint)) {
                // :)
            } else {
                panic!("should have rejected the point because the coordinates should be zeroes at the point at infinity");
            }
        }
    }

    let o = G2Affine::generator().to_uncompressed();

    {
        let mut o = o;
        o[0] |= 0b1000_0000;
        if matches!(read_g2_slot(&o), Err(DecodeError::InvalidPoint)) {
            // :)
        } else {
            panic!("should have rejected the point because we expected an uncompressed point");
        }
    }

    let m = fq_modulus();

    {
        let mut o = o;
        o[..48].copy_from_slice(&m);

        if matches!(read_g2_slot(&o), Err(DecodeError::InvalidPoint)) {
            // x coordinate (c1)
        } else {
            panic!("should have rejected the point")
        }
    }

    {
        let mut o = o;
        o[48..96].copy_from_slice(&m);

        if matches!(read_g2_slot(&o), Err(DecodeError::InvalidPoint)) {
            // x coordinate (c0)
        } else {
            panic!("should have rejected the point")
        }
    }

    {
        let mut o = o;
        o[96..144].copy_from_slice(&m);

        if matches!(read_g2_slot(&o), Err(DecodeError::InvalidPoint)) {
            // y coordinate (c1)
        } else {
            panic!("should have rejected the point")
        }
    }

    {
        let mut o = o;
        o[144..].copy_from_slice(&m);

        if matches!(read_g2_slot(&o), Err(DecodeError::InvalidPoint)) {
            // y coordinate (c0)
        } else {
            panic!("should have rejected the point")
        }
    }

    {
        let mut o = o;
        o[..48].copy_from_slice(&[0u8; 48]);
        o[48..96].copy_from_slice(&[0u8; 48]);

        if matches!(read_g2_slot(&o), Err(DecodeError::InvalidPoint)) {
            // :)
        } else {
            panic!("should have rejected the point because it isn't on the curve")
        }
    }

    {
        // Walk the x-coordinates (varying the low limb) to a point on the
        // curve; the first hit lies outside the prime-order subgroup.
        let mut c0 = [0u8; 48];
        be_incr(&mut c0);
        loop {
            let mut comp = [0u8; 96];
            comp[48..].copy_from_slice(&c0);
            comp[0] |= 0b1000_0000;
            let cand = G2Affine::from_compressed_unchecked(&comp);
            if bool::from(cand.is_some()) {
                let mut o = o;
                o.copy_from_slice(&cand.unwrap().to_uncompressed());
                if matches!(read_g2_slot(&o), Err(DecodeError::InvalidPoint)) {
                    break;
                } else {
                    panic!(
                        "should have rejected the point because it isn't in the correct subgroup"
                    )
                }
            } else {
                be_incr(&mut c0);
            }
        }
    }
}

#[test]
fn test_g1_compressed_invalid_vectors() {
    {
        let z = G1Affine::identity().to_compressed();

        {
            let mut z = z;
            z[0] &= 0b0111_1111;
            if matches!(read_g1c_slot(&z), Err(DecodeError::InvalidPoint)) {
                // :)
            } else {
                panic!("should have rejected the point because we expected a compressed point");
            }
        }

        {
            let mut z = z;
            z[0] |= 0b0010_0000;
            if matches!(read_g1c_slot(&z), Err(DecodeError::InvalidPoint)) {
                // :)
            } else {
                panic!("should have rejected the point because the parity bit should not be set if the point is at infinity");
            }
        }

        for i in 0..48 {
            let mut z = z;
            z[i] |= 0b0000_0001;
            if matches!(read_g1c_slot(&z), Err(DecodeError::InvalidPoint)) {
                // :)
            } else {
                panic!("should have rejected the point because the coordinates should be zeroes at the point at infinity");
            }
        }
    }

    let o = G1Affine::generator().to_compressed();

    {
        let mut o = o;
        o[0] &= 0b0111_1111;
        if matches!(read_g1c_slot(&o), Err(DecodeError::InvalidPoint)) {
            // :)
        } else {
            panic!("should have rejected the point because we expected a compressed point");
        }
    }

    {
        let mut o = o;
        o[..48].copy_from_slice(&fq_modulus());
        o[0] |= 0b1000_0000;

        if matches!(read_g1c_slot(&o), Err(DecodeError::InvalidPoint)) {
            // x coordinate
        } else {
            panic!("should have rejected the point")
        }
    }

    {
        // Walk the x-coordinates to one with no curve point above it.
        let mut x = [0u8; 48];
        be_incr(&mut x);
        loop {
            let mut comp = x;
            comp[0] |= 0b1000_0000;
            if bool::from(G1Affine::from_compressed_unchecked(&comp).is_some()) {
                be_incr(&mut x);
            } else {
                if matches!(read_g1c_slot(&comp), Err(DecodeError::InvalidPoint)) {
                    break;
                } else {
                    panic!("should have rejected the point because it isn't on the curve")
                }
            }
        }
    }

    {
        // Walk the x-coordinates to a point on the curve; the first hit lies
        // outside the prime-order subgroup.
        let mut x = [0u8; 48];
        be_incr(&mut x);
        loop {
            let mut comp = x;
            comp[0] |= 0b1000_0000;
            if bool::from(G1Affine::from_compressed_unchecked(&comp).is_some()) {
                if matches!(read_g1c_slot(&comp), Err(DecodeError::InvalidPoint)) {
                    break;
                } else {
                    panic!(
                        "should have rejected the point because it isn't in the correct subgroup"
                    )
                }
            } else {
                be_incr(&mut x);
            }
        }
    }
}

#[test]
fn test_g2_compressed_invalid_vectors() {
    {
        let z = G2Affine::identity().to_compressed();

        {
            let mut z = z;
            z[0] &= 0b0111_1111;
            if matches!(read_g2c_slot(&z), Err(DecodeError::InvalidPoint)) {
                // :)
            } else {
                panic!("should have rejected the point because we expected a compressed point");
            }
        }

        {
            let mut z = z;
            z[0] |= 0b0010_0000;
            if matches!(read_g2c_slot(&z), Err(DecodeError::InvalidPoint)) {
                // :)
            } else {
                panic!("should have rejected the point because the parity bit should not be set if the point is at infinity");
            }
        }

        for i in 0..96 {
            let mut z = z;
            z[i] |= 0b0000_0001;
            if matches!(read_g2c_slot(&z), Err(DecodeError::InvalidPoint)) {
                // :)
            } else {
                panic!("should have rejected the point because the coordinates should be zeroes at the point at infinity");
            }
        }
    }

    let o = G2Affine::generator().to_compressed();

    {
        let mut o = o;
        o[0] &= 0b0111_1111;
        if matches!(read_g2c_slot(&o), Err(DecodeError::InvalidPoint)) {
            // :)
        } else {
            panic!("should have rejected the point because we expected a compressed point");
        }
    }

    let m = fq_modulus();

    {
        let mut o = o;
        o[..48].copy_from_slice(&m);
        o[0] |= 0b1000_0000;

        if matches!(read_g2c_slot(&o), Err(DecodeError::InvalidPoint)) {
            // x coordinate (c1)
        } else {
            panic!("should have rejected the point")
        }
    }

    {
        let mut o = o;
        o[48..96].copy_from_slice(&m);
        o[0] |= 0b1000_0000;

        if matches!(read_g2c_slot(&o), Err(DecodeError::InvalidPoint)) {
            // x coordinate (c0)
        } else {
            panic!("should have rejected the point")
        }
    }

    {
        // Walk the x-coordinates (low limb varying, high limb one) to one
        // with no curve point above it.
        let mut c0 = [0u8; 48];
        be_incr(&mut c0);
        let mut c1 = [0u8; 48];
        be_incr(&mut c1);
        loop {
            let mut comp = [0u8; 96];
            comp[..48].copy_from_slice(&c1);
            comp[48..].copy_from_slice(&c0);
            comp[0] |= 0b1000_0000;
            if bool::from(G2Affine::from_compressed_unchecked(&comp).is_some()) {
                be_incr(&mut c0);
            } else {
                if matches!(read_g2c_slot(&comp), Err(DecodeError::InvalidPoint)) {
                    break;
                } else {
                    panic!("should have rejected the point because it isn't on the curve")
                }
            }
        }
    }

    {
        // Walk the same x-coordinates to a point on the curve; the first hit
        // lies outside the prime-order subgroup.
        let mut c0 = [0u8; 48];
        be_incr(&mut c0);
        let mut c1 = [0u8; 48];
        be_incr(&mut c1);
        loop {
            let mut comp = [0u8; 96];
            comp[..48].copy_from_slice(&c1);
            comp[48..].copy_from_slice(&c0);
            comp[0] |= 0b1000_0000;
            if bool::from(G2Affine::from_compressed_unchecked(&comp).is_some()) {
                if matches!(read_g2c_slot(&comp), Err(DecodeError::InvalidPoint)) {
                    break;
                } else {
                    panic!(
                        "should have rejected the point because it isn't in the correct subgroup"
                    )
                }
            } else {
                be_incr(&mut c0);
            }
        }
    }
}

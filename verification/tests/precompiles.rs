//! The arithmetic of the precompiles on known points.
use p3_field::{PrimeCharacteristicRing, PrimeField32};
use p3_koala_bear::{default_koalabear_poseidon2_16, KoalaBear};
use p3_symmetric::Permutation;
use zkm_core_executor::precompiles::{
    u256xu2048_mul, uint256_mul, Field, FieldOperation, Precompile,
};

/// The little-endian words of a number in hexadecimal.
fn words(hex: &str) -> Vec<u32> {
    let mut words: Vec<u32> = (0..hex.len() / 8)
        .map(|k| u32::from_str_radix(&hex[8 * k..8 * k + 8], 16).unwrap())
        .collect();
    words.reverse();
    words
}

fn point(x: &str, y: &str) -> Vec<u32> {
    let mut p = words(x);
    p.extend(words(y));
    p
}

#[test]
fn secp256k1_points() {
    let g = point(
        "79be667ef9dcbbac55a06295ce870b07029bfcdb2dce28d959f2815b16f81798",
        "483ada7726a3c4655da4fbfc0e1108a8fd17b448a68554199c47d08ffb10d4b8",
    );
    let g2 = point(
        "c6047f9441ed7d6d3045406e95c07cd85c778e4b8cef3ca7abac09b95c709ee5",
        "1ae168fea63dc339a3c58419466ceaeef7f632653266d0e1236431a950cfe52a",
    );
    let g3 = point(
        "f9308a019258c31049344f85f89d5229b531c845836f99b08601f113bce036f9",
        "388f7b0f632de8140fe337e62a37f3566500a99934c2231b6cb9fd7584b8e672",
    );
    assert_eq!(Precompile::EcDouble(Field::Secp256k1).apply_unary(&g), g2);
    assert_eq!(Precompile::EcAdd(Field::Secp256k1).apply_binary(&g, &g2), g3);
    let decompress = Precompile::EcDecompress(Field::Secp256k1);
    let (x, y) = (g[..8].to_vec(), g[8..].to_vec());
    assert_eq!(decompress.apply_decompress(&x, 0).unwrap(), y);
    assert_ne!(decompress.apply_decompress(&x, 1).unwrap(), y);
}

#[test]
fn secp256r1_points() {
    let g = point(
        "6b17d1f2e12c4247f8bce6e563a440f277037d812deb33a0f4a13945d898c296",
        "4fe342e2fe1a7f9b8ee7eb4a7c0f9e162bce33576b315ececbb6406837bf51f5",
    );
    let g2 = point(
        "7cf27b188d034f7e8a52380304b51ac3c08969e277f21b35a60b48fc47669978",
        "07775510db8ed040293d9ac69f7430dbba7dade63ce982299e04b79d227873d1",
    );
    let g3 = point(
        "5ecbe4d1a6330a44c8f7ef951d4bf165e6c6b721efada985fb41661bc6e7fd6c",
        "8734640c4998ff7e374b06ce1a64a2ecd82ab036384fb83d9a79b127a27d5032",
    );
    assert_eq!(Precompile::EcDouble(Field::Secp256r1).apply_unary(&g), g2);
    assert_eq!(Precompile::EcAdd(Field::Secp256r1).apply_binary(&g, &g2), g3);
    let decompress = Precompile::EcDecompress(Field::Secp256r1);
    let (x, y) = (g[..8].to_vec(), g[8..].to_vec());
    assert_eq!(decompress.apply_decompress(&x, 1).unwrap(), y);
    assert_ne!(decompress.apply_decompress(&x, 0).unwrap(), y);
}

#[test]
fn bn254_points() {
    let g = point(
        "0000000000000000000000000000000000000000000000000000000000000001",
        "0000000000000000000000000000000000000000000000000000000000000002",
    );
    let g2 = point(
        "030644e72e131a029b85045b68181585d97816a916871ca8d3c208c16d87cfd3",
        "15ed738c0e0a7c92e7845f96b2ae9c0a68a6a449e3538fc7ff3ebf7a5a18a2c4",
    );
    let g3 = point(
        "0769bf9ac56bea3ff40232bcb1b6bd159315d84715b8e679f2d355961915abf0",
        "2ab799bee0489429554fdb7c8d086475319e63b40b9c5b57cdf1ff3dd9fe2261",
    );
    assert_eq!(Precompile::EcDouble(Field::Bn254).apply_unary(&g), g2);
    assert_eq!(Precompile::EcAdd(Field::Bn254).apply_binary(&g, &g2), g3);
}

#[test]
fn bls12381_points() {
    let g = point(
        "17f1d3a73197d7942695638c4fa9ac0fc3688c4f9774b905a14e3a3f171bac586c55e83ff97a1aeffb3af00adb22c6bb",
        "08b3f481e3aaa0f1a09e30ed741d8ae4fcf5e095d5d00af600db18cb2c04b3edd03cc744a2888ae40caa232946c5e7e1",
    );
    let g2 = point(
        "0572cbea904d67468808c8eb50a9450c9721db309128012543902d0ac358a62ae28f75bb8f1c7c42c39a8c5529bf0f4e",
        "166a9d8cabc673a322fda673779d8e3822ba3ecb8670e461f73bb9021d5fd76a4c56d9d4cd16bd1bba86881979749d28",
    );
    let g3 = point(
        "09ece308f9d1f0131765212deca99697b112d61f9be9a5f1f3780a51335b3ff981747a0b2ca2179b96d2c0c9024e5224",
        "032b80d3a6f5b09f8a84623389c5f80ca69a0cddabc3097f9d9c27310fd43be6e745256c634af45ca3473b0590ae30d1",
    );
    assert_eq!(Precompile::EcDouble(Field::Bls12381).apply_unary(&g), g2);
    assert_eq!(Precompile::EcAdd(Field::Bls12381).apply_binary(&g, &g2), g3);
    let decompress = Precompile::EcDecompress(Field::Bls12381);
    let (x, y) = (g[..12].to_vec(), g[12..].to_vec());
    assert_eq!(decompress.apply_decompress(&x, 0).unwrap(), y);
    assert_ne!(decompress.apply_decompress(&x, 1).unwrap(), y);
}

#[test]
fn ed25519_points() {
    let b = point(
        "216936d3cd6e53fec0a4e231fdd6dc5c692cc7609525a7b2c9562d608f25d51a",
        "6666666666666666666666666666666666666666666666666666666666666658",
    );
    let b2 = point(
        "36ab384c9f5a046c3d043b7d1833e7ac080d8e4515d7a45f83c5a14e2843ce0e",
        "2260cdf3092329c21da25ee8c9a21f5697390f51643851560e5f46ae6af8a3c9",
    );
    let b3 = point(
        "67ae9c4a22928f491ff4ae743edac83a6343981981624886ac62485fd3f8e25c",
        "1267b1d177ee69aba126a18e60269ef79f16ec176724030402c3684878f5b4d4",
    );
    assert_eq!(Precompile::EdAdd.apply_binary(&b, &b2), b3);
    assert_eq!(Precompile::EdAdd.apply_binary(&b, &b), b2);
    let (x, y) = (b[..8].to_vec(), b[8..].to_vec());
    assert_eq!(Precompile::EdDecompress.apply_decompress(&y, 0).unwrap(), x);
    assert_ne!(Precompile::EdDecompress.apply_decompress(&y, 1).unwrap(), x);
    // No point has this coordinate.
    assert!(Precompile::EdDecompress.apply_decompress(&vec![2, 0, 0, 0, 0, 0, 0, 0], 0).is_err());
}

#[test]
fn bn254_fields() {
    let a = words("30644e72e131a029b85045b68181585d97816a916871ca8d3c208c16d87cfd42");
    let b = words("000000000000000000000000000000000000000027e41b3246bec9b16e398115");
    assert_eq!(
        Precompile::Fp(Field::Bn254, FieldOperation::Add).apply_binary(&a, &b),
        words("000000000000000000000000000000000000000027e41b3246bec9b16e398110")
    );
    assert_eq!(
        Precompile::Fp(Field::Bn254, FieldOperation::Sub).apply_binary(&a, &b),
        words("30644e72e131a029b85045b68181585d97816a91408daf5af561c2656a437c2d")
    );
    assert_eq!(
        Precompile::Fp(Field::Bn254, FieldOperation::Mul).apply_binary(&a, &b),
        words("30644e72e131a029b85045b68181585d97816a90a0fd4291da669b9fb15d77de")
    );
    let x = point("30644e72e131a029b85045b68181585d97816a916871ca8d3c208c16d87cfd42", "000000000000000000000000000000000000000027e41b3246bec9b16e398115");
    let y = point("30644e72e131a029b85045b68181585d97816a916871ca8d3c208c16d87cfd45", "0000000000000000000000000000000000000000000000000000000000000309");
    assert_eq!(
        Precompile::Fp2(Field::Bn254, FieldOperation::Add).apply_binary(&x, &y),
        point("30644e72e131a029b85045b68181585d97816a916871ca8d3c208c16d87cfd40", "000000000000000000000000000000000000000027e41b3246bec9b16e39841e")
    );
    assert_eq!(
        Precompile::Fp2(Field::Bn254, FieldOperation::Sub).apply_binary(&x, &y),
        point("30644e72e131a029b85045b68181585d97816a916871ca8d3c208c16d87cfd44", "000000000000000000000000000000000000000027e41b3246bec9b16e397e0c")
    );
    assert_eq!(
        Precompile::Fp2(Field::Bn254, FieldOperation::Mul).apply_binary(&x, &y),
        point("30644e72e131a029b85045b68181585d97816a18551b3ef4830e608f4bf43494", "30644e72e131a029b85045b68181585d97816a9118a99428aea2f8b3fc09ebf0")
    );
}

#[test]
fn bls12381_fields() {
    let a = words("1a0111ea397fe69a4b1ba7b6434bacd764774b84f38512bf6730d2a0f6b0f6241eabfffeb153ffffb9feffffffffaaa6");
    let b = words("00000000000000000000000000000000000000000000000000000000000000000000000027e41b3246bec9b16e398115");
    assert_eq!(
        Precompile::Fp(Field::Bls12381, FieldOperation::Add).apply_binary(&a, &b),
        words("00000000000000000000000000000000000000000000000000000000000000000000000027e41b3246bec9b16e398110")
    );
    assert_eq!(
        Precompile::Fp(Field::Bls12381, FieldOperation::Sub).apply_binary(&a, &b),
        words("1a0111ea397fe69a4b1ba7b6434bacd764774b84f38512bf6730d2a0f6b0f6241eabfffe896fe4cd7340364e91c62991")
    );
    assert_eq!(
        Precompile::Fp(Field::Bls12381, FieldOperation::Mul).apply_binary(&a, &b),
        words("1a0111ea397fe69a4b1ba7b6434bacd764774b84f38512bf6730d2a0f6b0f6241eabfffde9df780458450f88d8e02542")
    );
    let x = point("1a0111ea397fe69a4b1ba7b6434bacd764774b84f38512bf6730d2a0f6b0f6241eabfffeb153ffffb9feffffffffaaa6", "00000000000000000000000000000000000000000000000000000000000000000000000027e41b3246bec9b16e398115");
    let y = point("1a0111ea397fe69a4b1ba7b6434bacd764774b84f38512bf6730d2a0f6b0f6241eabfffeb153ffffb9feffffffffaaa9", "000000000000000000000000000000000000000000000000000000000000000000000000000000000000000000000309");
    assert_eq!(
        Precompile::Fp2(Field::Bls12381, FieldOperation::Add).apply_binary(&x, &y),
        point("1a0111ea397fe69a4b1ba7b6434bacd764774b84f38512bf6730d2a0f6b0f6241eabfffeb153ffffb9feffffffffaaa4", "00000000000000000000000000000000000000000000000000000000000000000000000027e41b3246bec9b16e39841e")
    );
    assert_eq!(
        Precompile::Fp2(Field::Bls12381, FieldOperation::Sub).apply_binary(&x, &y),
        point("1a0111ea397fe69a4b1ba7b6434bacd764774b84f38512bf6730d2a0f6b0f6241eabfffeb153ffffb9feffffffffaaa8", "00000000000000000000000000000000000000000000000000000000000000000000000027e41b3246bec9b16e397e0c")
    );
    assert_eq!(
        Precompile::Fp2(Field::Bls12381, FieldOperation::Mul).apply_binary(&x, &y),
        point("1a0111ea397fe69a4b1ba7b6434bacd764774b84f38512bf6730d2a0f6b0f6241eabff859dfd746700ecd4787376e1f8", "1a0111ea397fe69a4b1ba7b6434bacd764774b84f38512bf6730d2a0f6b0f6241eabfffe618bc99b2c816c9d238c9954")
    );
}

#[test]
fn wide_products() {
    let a = words("ffffffffffffffffffffffffffffffffffffffffffffffffffffffffffffcfc7");
    let b = words("800000000000000000000000000000000000000000000000000000003ade68b1");
    let m = words("0000000000000100000000000000000000000000000000000000000000000007");
    assert_eq!(uint256_mul(&a, &b, &m), words("0000000000000000000000000000000000187ffffe63ebcbf07ff4e930d98097"));
    // A modulus of zero stands for 2^256.
    assert_eq!(uint256_mul(&a, &b, &vec![0; 8]), words("7ffffffffffffffffffffffffffffffffffffffffffffffffffff4e930d98097"));

    let mut long = vec![0u32; 64];
    long[0] = 3;
    long[63] = 0xffff_ffff;
    let (lo, hi) = u256xu2048_mul(&words("0000000000000000000000000000000100000000000000000000000000000005"), &long);
    let mut low = vec![0u32; 64];
    low[0] = 0xf;
    low[4] = 0x3;
    low[63] = 0xfffffffb;
    assert_eq!(lo, low);
    assert_eq!(hi, vec![0x4, 0x0, 0x0, 0xffffffff, 0x0, 0x0, 0x0, 0x0]);
}

#[test]
fn poseidon2_permutes_the_state() {
    let state: Vec<u32> = (1..=16).collect();
    let permuted = Precompile::Poseidon2.apply_unary(&state);
    assert_ne!(permuted, state);
    let mut expected: [KoalaBear; 16] = core::array::from_fn(|k| KoalaBear::from_u32(k as u32 + 1));
    default_koalabear_poseidon2_16().permute_mut(&mut expected);
    assert_eq!(permuted, expected.iter().map(|w| w.as_canonical_u32()).collect::<Vec<u32>>());
}

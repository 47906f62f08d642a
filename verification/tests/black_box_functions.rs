use noirc::blackbox::BlackBoxFunc;

fn all_black_box_funcs() -> Vec<BlackBoxFunc> {
    vec![
        BlackBoxFunc::AES128Encrypt,
        BlackBoxFunc::AND,
        BlackBoxFunc::XOR,
        BlackBoxFunc::RANGE,
        BlackBoxFunc::SHA256,
        BlackBoxFunc::Blake2s,
        BlackBoxFunc::Blake3,
        BlackBoxFunc::SchnorrVerify,
        BlackBoxFunc::PedersenCommitment,
        BlackBoxFunc::PedersenHash,
        BlackBoxFunc::EcdsaSecp256k1,
        BlackBoxFunc::EcdsaSecp256r1,
        BlackBoxFunc::MultiScalarMul,
        BlackBoxFunc::Keccak256,
        BlackBoxFunc::Keccakf1600,
        BlackBoxFunc::RecursiveAggregation,
        BlackBoxFunc::EmbeddedCurveAdd,
        BlackBoxFunc::BigIntAdd,
        BlackBoxFunc::BigIntSub,
        BlackBoxFunc::BigIntMul,
        BlackBoxFunc::BigIntDiv,
        BlackBoxFunc::BigIntFromLeBytes,
        BlackBoxFunc::BigIntToLeBytes,
        BlackBoxFunc::Poseidon2Permutation,
        BlackBoxFunc::Sha256Compression,
    ]
}

#[test]
fn consistent_function_names() {
    for bb_func in all_black_box_funcs() {
        let resolved_func = BlackBoxFunc::lookup(bb_func.name()).unwrap_or_else(|| {
            panic!(
                "BlackBoxFunc::lookup couldn't find black box function {}",
                bb_func.name()
            )
        });
        assert_eq!(
            resolved_func, bb_func,
            "BlackBoxFunc::lookup returns unexpected BlackBoxFunc"
        );
    }
}

#[test]
fn lookup_rejects_unknown_names() {
    assert_eq!(BlackBoxFunc::lookup(""), None);
    assert_eq!(BlackBoxFunc::lookup("sha-256"), None);
    assert_eq!(BlackBoxFunc::lookup("pedersen"), None);
    assert!(!BlackBoxFunc::is_valid_black_box_func_name("not_a_black_box"));
    assert!(BlackBoxFunc::is_valid_black_box_func_name("keccakf1600"));
}

#[test]
fn name_gives_exact_spelling() {
    assert_eq!(BlackBoxFunc::SHA256.name(), "sha256");
    assert_eq!(BlackBoxFunc::AES128Encrypt.name(), "aes128_encrypt");
    assert_eq!(BlackBoxFunc::BigIntFromLeBytes.name(), "bigint_from_le_bytes");
}

//! Black box functions are circuit opcodes which rely on backends
//! implementing support for specialized constraints, making certain
//! proof-unfriendly computations cheaper than if they were implemented in
//! more basic constraints.

use vstd::prelude::*;

verus! {

/// A black box function of the circuit backend.
#[derive(Clone, Debug, Hash, Copy, PartialEq, Eq, Structural)]
pub enum BlackBoxFunc {
    /// Ciphers the provided plaintext with a block cipher in CBC mode.
    AES128Encrypt,
    /// Bitwise AND of two inputs of the same bit size.
    AND,
    /// Bitwise XOR of two inputs of the same bit size.
    XOR,
    /// Range constraint on the bit size of an input.
    RANGE,
    /// A 256-bit hash of the input bytes.
    SHA256,
    /// The Blake2s hash of the input bytes.
    Blake2s,
    /// The Blake3 hash of the input bytes.
    Blake3,
    /// Verifies a Schnorr signature over the embedded curve.
    SchnorrVerify,
    /// A Pedersen commitment to the inputs.
    PedersenCommitment,
    /// A Pedersen hash of the inputs and their number.
    PedersenHash,
    /// Verifies an ECDSA signature over the secp256k1 curve.
    EcdsaSecp256k1,
    /// Verifies an ECDSA signature over the secp256r1 curve.
    EcdsaSecp256r1,
    /// Multiple scalar multiplication over the embedded curve.
    MultiScalarMul,
    /// The Keccak-256 hash of the input bytes.
    Keccak256,
    /// The Keccak permutation function of width 1600.
    Keccakf1600,
    /// Computes a recursive aggregation object when verifying a proof
    /// inside another circuit.
    RecursiveAggregation,
    /// Addition over the embedded curve.
    EmbeddedCurveAdd,
    /// Big integer addition.
    BigIntAdd,
    /// Big integer subtraction.
    BigIntSub,
    /// Big integer multiplication.
    BigIntMul,
    /// Big integer division.
    BigIntDiv,
    /// Big integer from little-endian bytes.
    BigIntFromLeBytes,
    /// Big integer to little-endian bytes.
    BigIntToLeBytes,
    /// The permutation function of Poseidon2.
    Poseidon2Permutation,
    /// The 256-bit hash compression function.
    Sha256Compression,
}

/// The lower-case name each black box function goes by.
pub open spec fn name_spec(f: BlackBoxFunc) -> Seq<char> {
    match f {
        BlackBoxFunc::AES128Encrypt => "aes128_encrypt"@,
        BlackBoxFunc::SHA256 => "sha256"@,
        BlackBoxFunc::SchnorrVerify => "schnorr_verify"@,
        BlackBoxFunc::Blake2s => "blake2s"@,
        BlackBoxFunc::Blake3 => "blake3"@,
        BlackBoxFunc::PedersenCommitment => "pedersen_commitment"@,
        BlackBoxFunc::PedersenHash => "pedersen_hash"@,
        BlackBoxFunc::EcdsaSecp256k1 => "ecdsa_secp256k1"@,
        BlackBoxFunc::MultiScalarMul => "multi_scalar_mul"@,
        BlackBoxFunc::EmbeddedCurveAdd => "embedded_curve_add"@,
        BlackBoxFunc::AND => "and"@,
        BlackBoxFunc::XOR => "xor"@,
        BlackBoxFunc::RANGE => "range"@,
        BlackBoxFunc::Keccak256 => "keccak256"@,
        BlackBoxFunc::Keccakf1600 => "keccakf1600"@,
        BlackBoxFunc::RecursiveAggregation => "recursive_aggregation"@,
        BlackBoxFunc::EcdsaSecp256r1 => "ecdsa_secp256r1"@,
        BlackBoxFunc::BigIntAdd => "bigint_add"@,
        BlackBoxFunc::BigIntSub => "bigint_sub"@,
        BlackBoxFunc::BigIntMul => "bigint_mul"@,
        BlackBoxFunc::BigIntDiv => "bigint_div"@,
        BlackBoxFunc::BigIntFromLeBytes => "bigint_from_le_bytes"@,
        BlackBoxFunc::BigIntToLeBytes => "bigint_to_le_bytes"@,
        BlackBoxFunc::Poseidon2Permutation => "poseidon2_permutation"@,
        BlackBoxFunc::Sha256Compression => "sha256_compression"@,
    }
}

/// The black box function a name denotes, if any: the inverse of
/// [`name_spec`], `None` on anything that is no black box function's name.
pub open spec fn lookup_spec(s: Seq<char>) -> Option<BlackBoxFunc> {
    if s == "aes128_encrypt"@ {
        Some(BlackBoxFunc::AES128Encrypt)
    } else if s == "sha256"@ {
        Some(BlackBoxFunc::SHA256)
    } else if s == "schnorr_verify"@ {
        Some(BlackBoxFunc::SchnorrVerify)
    } else if s == "blake2s"@ {
        Some(BlackBoxFunc::Blake2s)
    } else if s == "blake3"@ {
        Some(BlackBoxFunc::Blake3)
    } else if s == "pedersen_commitment"@ {
        Some(BlackBoxFunc::PedersenCommitment)
    } else if s == "pedersen_hash"@ {
        Some(BlackBoxFunc::PedersenHash)
    } else if s == "ecdsa_secp256k1"@ {
        Some(BlackBoxFunc::EcdsaSecp256k1)
    } else if s == "ecdsa_secp256r1"@ {
        Some(BlackBoxFunc::EcdsaSecp256r1)
    } else if s == "multi_scalar_mul"@ {
        Some(BlackBoxFunc::MultiScalarMul)
    } else if s == "embedded_curve_add"@ {
        Some(BlackBoxFunc::EmbeddedCurveAdd)
    } else if s == "and"@ {
        Some(BlackBoxFunc::AND)
    } else if s == "xor"@ {
        Some(BlackBoxFunc::XOR)
    } else if s == "range"@ {
        Some(BlackBoxFunc::RANGE)
    } else if s == "keccak256"@ {
        Some(BlackBoxFunc::Keccak256)
    } else if s == "keccakf1600"@ {
        Some(BlackBoxFunc::Keccakf1600)
    } else if s == "recursive_aggregation"@ {
        Some(BlackBoxFunc::RecursiveAggregation)
    } else if s == "bigint_add"@ {
        Some(BlackBoxFunc::BigIntAdd)
    } else if s == "bigint_sub"@ {
        Some(BlackBoxFunc::BigIntSub)
    } else if s == "bigint_mul"@ {
        Some(BlackBoxFunc::BigIntMul)
    } else if s == "bigint_div"@ {
        Some(BlackBoxFunc::BigIntDiv)
    } else if s == "bigint_from_le_bytes"@ {
        Some(BlackBoxFunc::BigIntFromLeBytes)
    } else if s == "bigint_to_le_bytes"@ {
        Some(BlackBoxFunc::BigIntToLeBytes)
    } else if s == "poseidon2_permutation"@ {
        Some(BlackBoxFunc::Poseidon2Permutation)
    } else if s == "sha256_compression"@ {
        Some(BlackBoxFunc::Sha256Compression)
    } else {
        None
    }
}

impl BlackBoxFunc {
    /// The lower-case name this black box function goes by.
    pub fn name(&self) -> (r: &'static str)
        ensures
            r@ == name_spec(*self),
    {
        match self {
            BlackBoxFunc::AES128Encrypt => "aes128_encrypt",
            BlackBoxFunc::SHA256 => "sha256",
            BlackBoxFunc::SchnorrVerify => "schnorr_verify",
            BlackBoxFunc::Blake2s => "blake2s",
            BlackBoxFunc::Blake3 => "blake3",
            BlackBoxFunc::PedersenCommitment => "pedersen_commitment",
            BlackBoxFunc::PedersenHash => "pedersen_hash",
            BlackBoxFunc::EcdsaSecp256k1 => "ecdsa_secp256k1",
            BlackBoxFunc::MultiScalarMul => "multi_scalar_mul",
            BlackBoxFunc::EmbeddedCurveAdd => "embedded_curve_add",
            BlackBoxFunc::AND => "and",
            BlackBoxFunc::XOR => "xor",
            BlackBoxFunc::RANGE => "range",
            BlackBoxFunc::Keccak256 => "keccak256",
            BlackBoxFunc::Keccakf1600 => "keccakf1600",
            BlackBoxFunc::RecursiveAggregation => "recursive_aggregation",
            BlackBoxFunc::EcdsaSecp256r1 => "ecdsa_secp256r1",
            BlackBoxFunc::BigIntAdd => "bigint_add",
            BlackBoxFunc::BigIntSub => "bigint_sub",
            BlackBoxFunc::BigIntMul => "bigint_mul",
            BlackBoxFunc::BigIntDiv => "bigint_div",
            BlackBoxFunc::BigIntFromLeBytes => "bigint_from_le_bytes",
            BlackBoxFunc::BigIntToLeBytes => "bigint_to_le_bytes",
            BlackBoxFunc::Poseidon2Permutation => "poseidon2_permutation",
            BlackBoxFunc::Sha256Compression => "sha256_compression",
        }
    }

    /// The black box function `op_name` denotes: `Some` exactly when the
    /// name is one of the catalogue, and then the function it names.
    pub fn lookup(op_name: &str) -> (r: Option<BlackBoxFunc>)
        ensures
            r == lookup_spec(op_name@),
    {
        if crate::strcmp::str_eq(op_name, "aes128_encrypt") {
            Some(BlackBoxFunc::AES128Encrypt)
        } else if crate::strcmp::str_eq(op_name, "sha256") {
            Some(BlackBoxFunc::SHA256)
        } else if crate::strcmp::str_eq(op_name, "schnorr_verify") {
            Some(BlackBoxFunc::SchnorrVerify)
        } else if crate::strcmp::str_eq(op_name, "blake2s") {
            Some(BlackBoxFunc::Blake2s)
        } else if crate::strcmp::str_eq(op_name, "blake3") {
            Some(BlackBoxFunc::Blake3)
        } else if crate::strcmp::str_eq(op_name, "pedersen_commitment") {
            Some(BlackBoxFunc::PedersenCommitment)
        } else if crate::strcmp::str_eq(op_name, "pedersen_hash") {
            Some(BlackBoxFunc::PedersenHash)
        } else if crate::strcmp::str_eq(op_name, "ecdsa_secp256k1") {
            Some(BlackBoxFunc::EcdsaSecp256k1)
        } else if crate::strcmp::str_eq(op_name, "ecdsa_secp256r1") {
            Some(BlackBoxFunc::EcdsaSecp256r1)
        } else if crate::strcmp::str_eq(op_name, "multi_scalar_mul") {
            Some(BlackBoxFunc::MultiScalarMul)
        } else if crate::strcmp::str_eq(op_name, "embedded_curve_add") {
            Some(BlackBoxFunc::EmbeddedCurveAdd)
        } else if crate::strcmp::str_eq(op_name, "and") {
            Some(BlackBoxFunc::AND)
        } else if crate::strcmp::str_eq(op_name, "xor") {
            Some(BlackBoxFunc::XOR)
        } else if crate::strcmp::str_eq(op_name, "range") {
            Some(BlackBoxFunc::RANGE)
        } else if crate::strcmp::str_eq(op_name, "keccak256") {
            Some(BlackBoxFunc::Keccak256)
        } else if crate::strcmp::str_eq(op_name, "keccakf1600") {
            Some(BlackBoxFunc::Keccakf1600)
        } else if crate::strcmp::str_eq(op_name, "recursive_aggregation") {
            Some(BlackBoxFunc::RecursiveAggregation)
        } else if crate::strcmp::str_eq(op_name, "bigint_add") {
            Some(BlackBoxFunc::BigIntAdd)
        } else if crate::strcmp::str_eq(op_name, "bigint_sub") {
            Some(BlackBoxFunc::BigIntSub)
        } else if crate::strcmp::str_eq(op_name, "bigint_mul") {
            Some(BlackBoxFunc::BigIntMul)
        } else if crate::strcmp::str_eq(op_name, "bigint_div") {
            Some(BlackBoxFunc::BigIntDiv)
        } else if crate::strcmp::str_eq(op_name, "bigint_from_le_bytes") {
            Some(BlackBoxFunc::BigIntFromLeBytes)
        } else if crate::strcmp::str_eq(op_name, "bigint_to_le_bytes") {
            Some(BlackBoxFunc::BigIntToLeBytes)
        } else if crate::strcmp::str_eq(op_name, "poseidon2_permutation") {
            Some(BlackBoxFunc::Poseidon2Permutation)
        } else if crate::strcmp::str_eq(op_name, "sha256_compression") {
            Some(BlackBoxFunc::Sha256Compression)
        } else {
            None
        }
    }

    /// Whether `op_name` is the name of some black box function.
    pub fn is_valid_black_box_func_name(op_name: &str) -> (r: bool)
        ensures
            r == (lookup_spec(op_name@) is Some),
    {
        BlackBoxFunc::lookup(op_name).is_some()
    }
}

} // verus!

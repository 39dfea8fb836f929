use fci4096::entropy::{
    calculate_checksum, checksum_bits_for_entropy, checksum_from_digest, entropy_to_indices, generate_entropy,
    indices_to_entropy, indices_to_entropy_inner, validate_entropy_length,
    validate_mnemonic_length, ENTROPY_BITS_VALID,
};
use fci4096::Error;

#[test]
fn test_checksum_formula() {
    // Verify that checksum bits = entropy bits / 8
    for &bits in ENTROPY_BITS_VALID.iter() {
        assert_eq!(checksum_bits_for_entropy(bits), bits / 8);
    }
}

#[test]
fn test_checksum() {
    let entropy = [0x00u8; 16];
    let checksum_bits = checksum_bits_for_entropy(128);
    let checksum = calculate_checksum(&entropy, checksum_bits);
    assert!(checksum < (1 << checksum_bits));
}

#[test]
fn test_entropy_to_indices() {
    let entropy = [0x00u8; 16];
    let indices = entropy_to_indices(&entropy);
    assert_eq!(indices.len(), 12);
    // All indices should be within 0-4095
    for &idx in &indices {
        assert!(idx < 4096);
    }
}

#[test]
fn test_indices_to_entropy_roundtrip() {
    let entropy = [0x00u8; 16];
    let indices = entropy_to_indices(&entropy);
    let recovered = indices_to_entropy(&indices).unwrap();
    assert_eq!(entropy, recovered.as_slice());
}

#[test]
fn test_roundtrip_various_entropy() {
    for entropy_bits in ENTROPY_BITS_VALID {
        let entropy = vec![0xABu8; entropy_bits / 8];
        let indices = entropy_to_indices(&entropy);
        let recovered = indices_to_entropy(&indices).unwrap();
        assert_eq!(entropy, recovered);
    }
}

#[test]
fn test_roundtrip_random_patterns() {
    // Test non-uniform entropy patterns (edge cases for bit manipulation)
    let test_entropies: Vec<Vec<u8>> = vec![
        vec![0xFF; 16],
        vec![0x55; 16],
        vec![0xAA; 16],
        vec![0x00, 0xFF, 0x00, 0xFF, 0x00, 0xFF, 0x00, 0xFF, 0x00, 0xFF, 0x00, 0xFF, 0x00, 0xFF, 0x00, 0xFF],
        vec![0x01, 0x23, 0x45, 0x67, 0x89, 0xAB, 0xCD, 0xEF, 0xFE, 0xDC, 0xBA, 0x98, 0x76, 0x54, 0x32, 0x10],
    ];
    for entropy in &test_entropies {
        let indices = entropy_to_indices(entropy);
        let recovered = indices_to_entropy(&indices).unwrap();
        assert_eq!(entropy.as_slice(), recovered.as_slice());
    }
}

#[test]
fn test_roundtrip_256bit() {
    let entropy = vec![0xDEu8; 32];
    let indices = entropy_to_indices(&entropy);
    assert_eq!(indices.len(), 24);
    let recovered = indices_to_entropy(&indices).unwrap();
    assert_eq!(entropy, recovered);
}

#[test]
fn test_unchecked_roundtrip() {
    let entropy = [0x00u8; 16];
    let indices = entropy_to_indices(&entropy);
    let recovered = indices_to_entropy_inner(&indices).unwrap();
    assert_eq!(entropy, recovered.as_slice());
}

#[test]
fn test_generate_entropy_zero_bits() {
    assert!(generate_entropy(0).is_err());
}

#[test]
fn entropy_test_invalid_entropy_length() {
    assert!(generate_entropy(127).is_err());
    assert!(generate_entropy(257).is_err());
}

#[test]
fn test_invalid_mnemonic_length() {
    let indices = vec![0; 13];
    assert!(indices_to_entropy(&indices).is_err());
}

#[test]
fn test_invalid_index() {
    let indices = vec![4096; 12];
    assert!(indices_to_entropy(&indices).is_err());
}

#[test]
fn test_validate_functions() {
    assert!(validate_entropy_length(16));
    assert!(validate_entropy_length(32));
    assert!(!validate_entropy_length(10));

    assert!(validate_mnemonic_length(12));
    assert!(validate_mnemonic_length(24));
    assert!(!validate_mnemonic_length(13));
}

// ---- further cases ----

#[test]
fn checksum_of_zero_entropy_is_sha256_prefix() {
    // SHA-256 of 16 zero bytes starts with 0x3747 08ff.
    let entropy = [0x00u8; 16];
    assert_eq!(calculate_checksum(&entropy, 16), 0x3747);
    assert_eq!(calculate_checksum(&entropy, 32), 0x3747_08ff);
    assert_eq!(calculate_checksum(&entropy, 1), 0);
    assert_eq!(calculate_checksum(&entropy, 4), 0x3);
}

#[test]
fn indices_of_zero_entropy_exact() {
    // 128 zero bits, then the checksum 0x3747: word 10 holds the first four
    // checksum bits (0b0011), word 11 the last twelve (0x747).
    let indices = entropy_to_indices(&[0x00u8; 16]);
    let mut expected = vec![0usize; 10];
    expected.push(3);
    expected.push(0x747);
    assert_eq!(indices, expected);
}

#[test]
fn indices_of_ab_entropy_exact() {
    // 0xAB repeated: 101010111010 / 101110101011 ..., checksum 0x5a2c.
    let indices = entropy_to_indices(&[0xABu8; 16]);
    assert_eq!(indices[0], 0xABA);
    assert_eq!(indices[1], 0xBAB);
    assert_eq!(indices[10], 0xAB5);
    assert_eq!(indices[11], 0xA2C);
}

#[test]
fn checksum_mismatch_is_reported() {
    let mut indices = entropy_to_indices(&[0x00u8; 16]);
    indices[11] ^= 1;
    assert_eq!(indices_to_entropy(&indices), Err(Error::ChecksumMismatch));
    assert_eq!(indices_to_entropy_inner(&indices), Err(Error::ChecksumMismatch));
}

#[test]
fn error_values_name_the_input() {
    assert_eq!(indices_to_entropy(&[0usize; 13]), Err(Error::InvalidLength(13)));
    let mut indices = vec![0usize; 12];
    indices[3] = 5000;
    indices[7] = 4096;
    assert_eq!(indices_to_entropy(&indices), Err(Error::InvalidIndex(5000)));
    assert_eq!(generate_entropy(100), Err(Error::InvalidEntropyLength(100)));
}

#[test]
fn decode_then_encode_gives_indices_back() {
    let indices = entropy_to_indices(&[0x5Au8; 24]);
    assert_eq!(indices.len(), 18);
    let entropy = indices_to_entropy(&indices).unwrap();
    assert_eq!(entropy_to_indices(&entropy), indices);
}

#[test]
fn generated_entropy_has_requested_size_and_is_random() {
    for bits in ENTROPY_BITS_VALID {
        let entropy = generate_entropy(bits).unwrap();
        assert_eq!(entropy.len() * 8, bits);
    }
    let a = generate_entropy(256).unwrap();
    assert!(a.iter().any(|&b| b != 0));
}

#[test]
fn checksum_bits_per_size() {
    assert_eq!(checksum_bits_for_entropy(160), 20);
    assert_eq!(checksum_bits_for_entropy(224), 28);
    assert_eq!(fci4096::entropy::entropy_bits_for_word_count(21), 224);
    assert_eq!(fci4096::entropy::entropy_bits_for_word_count(12), 128);
}

#[test]
fn checksum_from_digest_takes_leading_bits() {
    let digest = [0x37u8, 0x47, 0x08, 0xff, 0xf7, 0x71];
    assert_eq!(checksum_from_digest(&digest, 16), 0x3747);
    assert_eq!(checksum_from_digest(&digest, 20), 0x37470);
    assert_eq!(checksum_from_digest(&digest, 32), 0x3747_08ff);
    assert_eq!(checksum_from_digest(&digest, 3), 1);
}

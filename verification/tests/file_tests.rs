use sha2::{Digest, Sha256};
use downloader::file_checks::{digest_matches, digest_of_fed_matches, sanitize_filename, size_is_valid, validate_probe, FileProbe, Sha256Hasher};

#[test]
fn sanitize_normal_filename() {
    assert_eq!(sanitize_filename("model.safetensors"), "model.safetensors");
}

#[test]
fn sanitize_removes_spaces() {
    assert_eq!(sanitize_filename("my model v2.safetensors"), "mymodelv2.safetensors");
}

#[test]
fn sanitize_removes_special_chars() {
    assert_eq!(sanitize_filename("flux1-dev (Q5_K_S).gguf"), "flux1-devQ5_K_S.gguf");
}

#[test]
fn sanitize_collapses_double_dot() {
    assert_eq!(sanitize_filename("test..safetensors"), "test.safetensors");
}

#[test]
fn sanitize_triple_dot_becomes_double_dot() {
    assert_eq!(sanitize_filename("test...safetensors"), "test..safetensors");
}

#[test]
fn sanitize_empty_string() {
    assert_eq!(sanitize_filename(""), "");
}

#[test]
fn sanitize_allows_hyphen_underscore() {
    assert_eq!(sanitize_filename("my-model_v2.gguf"), "my-model_v2.gguf");
}

#[test]
fn sanitize_replaces_path_separators() {
    let result = sanitize_filename("path/to/model.safetensors");
    assert!(!result.contains('/'));
}

#[test]
fn sanitize_keeps_unicode_letters_and_collapses_pairs() {
    assert_eq!(sanitize_filename("modèle ü.gguf"), "modèleü.gguf");
    assert_eq!(sanitize_filename("a....b"), "a..b");
    assert_eq!(sanitize_filename("../../etc/passwd"), "..etcpasswd");
}

#[test]
fn size_tolerance_is_one_percent_or_one_mib() {
    assert!(size_is_valid(1000, 0));
    assert!(!size_is_valid(999, 0));
    assert!(size_is_valid(1_048_576 + 10, 10));
    assert!(!size_is_valid(1_048_576 + 11, 10));
    assert!(size_is_valid(1_010_000_000, 1_000_000_000));
    assert!(!size_is_valid(1_010_000_001, 1_000_000_000));
    assert!(size_is_valid(990_000_000, 1_000_000_000));
    assert!(!size_is_valid(989_999_999, 1_000_000_000));
}

#[test]
fn probe_decisions() {
    assert!(!validate_probe(&FileProbe::Missing, 0, None));
    assert!(!validate_probe(&FileProbe::File { len: None }, 0, None));
    assert!(validate_probe(&FileProbe::File { len: Some(5000) }, 0, None));
    assert!(!validate_probe(&FileProbe::File { len: Some(500) }, 0, None));
    // with no expected size, a file matching the remembered size passes
    assert!(validate_probe(&FileProbe::File { len: Some(500) }, 0, Some(600)));
    assert!(validate_probe(&FileProbe::File { len: Some(50_000_000) }, 0, Some(50_000_000)));
    assert!(!validate_probe(&FileProbe::File { len: Some(10) }, 50_000_000, Some(10)));
    assert!(validate_probe(&FileProbe::File { len: Some(50_000_000) }, 50_100_000, None));
    assert!(validate_probe(&FileProbe::Directory { entries: Some(6) }, 0, None));
    assert!(!validate_probe(&FileProbe::Directory { entries: Some(5) }, 0, None));
    assert!(!validate_probe(&FileProbe::Directory { entries: None }, 0, None));
    assert!(!validate_probe(&FileProbe::Other, 0, None));
}

#[test]
fn digest_comparison_uses_hex_and_ignores_case() {
    let digest = [0xde_u8, 0xad, 0xbe, 0xef, 0x01];
    assert!(digest_matches(&digest, "deadbeef01"));
    assert!(digest_matches(&digest, "DEADBEEF01"));
    assert!(!digest_matches(&digest, "deadbeef1"));
    assert!(!digest_matches(&digest, "deadbeef02"));
    // the raw bytes themselves are not the hexadecimal text
    let ascii = b"ab";
    assert!(!digest_matches(ascii, "ab"));
    assert!(digest_matches(ascii, "6162"));
}

#[test]
fn sha256_digest_of_known_input_matches_its_published_checksum() {
    let digest = Sha256::digest(b"abc");
    assert!(digest_matches(
        digest.as_slice(),
        "BA7816BF8F01CFEA414140DE5DAE2223B00361A396177A9CB410FF61F20015AD"
    ));
    assert!(!digest_matches(
        digest.as_slice(),
        "ba7816bf8f01cfea414140de5dae2223b00361a396177a9cb410ff61f20015ae"
    ));
}

#[test]
fn checksum_of_chunks_matches_checksum_of_whole() {
    let mut h = Sha256Hasher::new();
    h.update(b"a");
    h.update(b"");
    h.update(b"bc");
    assert!(digest_of_fed_matches(h, "ba7816bf8f01cfea414140de5dae2223b00361a396177a9cb410ff61f20015ad"));
    let mut h = Sha256Hasher::new();
    h.update(b"ab");
    assert!(!digest_of_fed_matches(h, "ba7816bf8f01cfea414140de5dae2223b00361a396177a9cb410ff61f20015ad"));
    let h = Sha256Hasher::new();
    assert!(digest_of_fed_matches(h, "E3B0C44298FC1C149AFBF4C8996FB92427AE41E4649B934CA495991B7852B855"));
}

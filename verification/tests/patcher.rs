use aho_corasick::{AhoCorasick, MatchKind};
use shader_patcher::error::Error;
use shader_patcher::patcher::{apply_replacement, build_aho_corasick, is_whitelisted, HardCodedPatcher, SimplePatcher};
use shader_patcher::BinaryPatcher;

fn vector(x: f32, n: usize) -> Vec<u8> {
    let mut v = Vec::new();
    for _ in 0..n {
        v.extend_from_slice(&x.to_le_bytes());
    }
    v
}

fn vector4(x: f32) -> Vec<u8> {
    let mut v = vector(x, 3);
    v.extend_from_slice(&0f32.to_le_bytes());
    v
}

const WHITELISTED: u128 = 0x3caf9cdde6b655e3ddfba2c137b02621;

#[test]
fn whitelist_holds_the_four_shader_hashes() {
    assert!(is_whitelisted(0x85d254ecdbd4d71dcdec559258d1e696));
    assert!(is_whitelisted(0x3caf9cdde6b655e3ddfba2c137b02621));
    assert!(is_whitelisted(0xdbadc38d66727c965df029e2ff26892c));
    assert!(is_whitelisted(0xf5a79888be546336d9b324afbbbf93f6));
    assert!(!is_whitelisted(0));
    assert!(!is_whitelisted(0x85d254ecdbd4d71dcdec559258d1e697));
}

#[test]
fn new_rejects_gammas_not_above_zero() {
    for g in [0.0f32, -0.0, -1.0, -2.2, f32::NEG_INFINITY, -f32::MIN_POSITIVE] {
        let aho = build_aho_corasick().unwrap();
        assert_eq!(SimplePatcher::new(aho, g.to_bits(), false).err(), Some(Error::NonPositiveGamma));
    }
    for g in [2.2f32, 2.0, 1e-30, f32::INFINITY, f32::NAN, f32::MIN_POSITIVE] {
        let aho = build_aho_corasick().unwrap();
        assert!(SimplePatcher::new(aho, g.to_bits(), false).is_ok());
    }
}

#[test]
fn with_gamma_matches_float_comparison() {
    let samples = [
        0.0f32, -0.0, 1.0, -1.0, 2.4, f32::NAN, -f32::NAN, f32::INFINITY, f32::NEG_INFINITY,
        f32::MIN_POSITIVE, -f32::MIN_POSITIVE, 1e-45, -1e-45, f32::MAX, f32::MIN,
    ];
    for g in samples {
        let r = SimplePatcher::with_gamma(g.to_bits(), true);
        assert_eq!(r.is_err(), g <= 0.0, "gamma {:?}", g);
    }
}

#[test]
fn replaces_constants_with_those_of_the_gamma() {
    let p = SimplePatcher::with_gamma(2.0f32.to_bits(), true).unwrap();
    let mut data = vec![1u8, 2, 3];
    data.extend(vector4(2.4));
    data.extend(vector4(0.04045));
    data.extend(vector4(0.055));
    data.extend(vector4(0.94786733));
    data.extend(vec![9u8; 5]);
    let r = p.patch(&mut data, 0);
    assert_eq!(r, Ok(true));
    let mut expected = vec![1u8, 2, 3];
    expected.extend(vector4(2.0));
    expected.extend(vector4(0.0));
    expected.extend(vector4(0.0));
    expected.extend(vector4(1.0));
    expected.extend(vec![9u8; 5]);
    assert_eq!(data, expected);
}

#[test]
fn leaves_data_alone_off_the_whitelist() {
    let p = SimplePatcher::with_gamma(2.0f32.to_bits(), false).unwrap();
    let mut data = vector4(2.4);
    assert_eq!(p.patch(&mut data, 1), Ok(false));
    assert_eq!(data, vector4(2.4));
    assert_eq!(p.patch(&mut data, WHITELISTED), Ok(true));
    assert_eq!(data, vector4(2.0));
}

#[test]
fn whitelisted_data_without_patterns_is_unchanged_but_reported() {
    let p = SimplePatcher::with_gamma(2.0f32.to_bits(), false).unwrap();
    let mut data = vec![7u8; 40];
    assert_eq!(p.patch(&mut data, WHITELISTED), Ok(true));
    assert_eq!(data, vec![7u8; 40]);
}

#[test]
fn replacement_of_another_length_is_refused() {
    let aho = AhoCorasick::builder()
        .match_kind(MatchKind::LeftmostLongest)
        .build(["ab", "cd", "ef", "gh"])
        .unwrap();
    let p = SimplePatcher::new(aho, 2.2f32.to_bits(), true).unwrap();
    let mut data = b"xxabxx".to_vec();
    assert_eq!(p.patch(&mut data, 0), Err(Error::ReplLenChange));
    assert_eq!(data, b"xxabxx".to_vec());
}

#[test]
fn hard_coded_patcher_uses_three_component_vectors() {
    let p = HardCodedPatcher::try_default().unwrap();
    let mut data = vector(2.4, 3);
    data.extend(vector(0.94786733, 3));
    assert_eq!(p.patch(&mut data.clone(), 5), Ok(false));
    assert_eq!(p.patch(&mut data, WHITELISTED), Ok(true));
    let mut expected = vector(2.2, 3);
    expected.extend(vector(1.0, 3));
    assert_eq!(data, expected);
}

#[test]
fn automaton_and_patchers_always_build() {
    assert!(build_aho_corasick().is_ok());
    assert!(HardCodedPatcher::try_default().is_ok());
    assert!(SimplePatcher::with_gamma(2.2f32.to_bits(), false).is_ok());
}

#[test]
fn replacement_of_the_same_length_takes_the_place_of_the_data() {
    let mut data = vec![1u8, 2, 3];
    assert_eq!(apply_replacement(&mut data, &[4, 5, 6]), Ok(true));
    assert_eq!(data, vec![4u8, 5, 6]);
}

#[test]
fn replacement_of_another_length_leaves_the_data() {
    let mut data = vec![1u8, 2, 3];
    assert_eq!(apply_replacement(&mut data, &[4, 5]), Err(Error::ReplLenChange));
    assert_eq!(data, vec![1u8, 2, 3]);
    assert_eq!(apply_replacement(&mut data, &[4, 5, 6, 7]), Err(Error::ReplLenChange));
    assert_eq!(data, vec![1u8, 2, 3]);
}

#[test]
fn case_insensitive_automaton_matches_other_case() {
    let build = |insensitive: bool| {
        AhoCorasick::builder()
            .match_kind(MatchKind::LeftmostLongest)
            .ascii_case_insensitive(insensitive)
            .build(["abcd", "efgh", "ijkl", "mnop"])
            .unwrap()
    };
    // The replacements are longer than these patterns, so a match shows as a
    // refused change of length.
    let sensitive = SimplePatcher::new(build(false), 2.2f32.to_bits(), true).unwrap();
    let mut data = b"xxABCDxx".to_vec();
    assert_eq!(sensitive.patch(&mut data, 0), Ok(true));
    assert_eq!(data, b"xxABCDxx".to_vec());
    let insensitive = SimplePatcher::new(build(true), 2.2f32.to_bits(), true).unwrap();
    assert_eq!(insensitive.patch(&mut data, 0), Err(Error::ReplLenChange));
    assert_eq!(data, b"xxABCDxx".to_vec());
}

use solar_monitoring_import::profile::signature::{compute, signature_of_digest};

#[test]
fn stable_signature() {
    let h: Vec<String> = vec!["a".into(), "b".into(), "c".into()];
    let s1 = compute(&h);
    let s2 = compute(&h);
    assert_eq!(s1, s2);
    assert_eq!(s1.len(), 12);
}

#[test]
fn ignores_surrounding_whitespace() {
    let a: Vec<String> = vec!["a ".into(), " b".into()];
    let b: Vec<String> = vec!["a".into(), "b".into()];
    assert_eq!(compute(&a), compute(&b));
}

#[test]
fn different_for_different_headers() {
    let a: Vec<String> = vec!["a".into(), "b".into()];
    let b: Vec<String> = vec!["a".into(), "c".into()];
    assert_ne!(compute(&a), compute(&b));
}

#[test]
fn signature_is_sha1_prefix_of_joined_header() {
    let h: Vec<String> = vec!["a".into(), "b".into(), "c".into()];
    let s = compute(&h);
    assert!(s.chars().all(|c| c.is_ascii_hexdigit() && !c.is_ascii_uppercase()));
    let empty: Vec<String> = vec![];
    // sha1("") = da39a3ee5e6b4b0d3255bfef95601890afd80709
    assert_eq!(compute(&empty), "da39a3ee5e6b");
    let ab: Vec<String> = vec![" a".into(), "b ".into()];
    assert_eq!(compute(&ab), "9abe6de24a87");
}

#[test]
fn signature_from_digest_bytes() {
    let digest = [0xda, 0x39, 0xa3, 0xee, 0x5e, 0x6b, 0x4b, 0x0d];
    assert_eq!(signature_of_digest(&digest), "da39a3ee5e6b");
    assert_eq!(signature_of_digest(&[0, 1, 2, 10, 11, 255]), "0001020a0bff");
}

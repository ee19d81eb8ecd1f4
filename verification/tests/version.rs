use lifemaint::version;

#[test]
fn version_matches_cargo() {
    assert_eq!(version(), "0.1.0");
    assert!(!version().is_empty());
}

use asset_migrator::fingerprint::fingerprint_str;

#[test]
fn empty_string_yields_offset_basis() {
    assert_eq!(fingerprint_str(""), 0xcbf2_9ce4_8422_2325);
}

#[test]
fn known_fingerprint_values() {
    assert_eq!(fingerprint_str("a"), 0xaf63_dc4c_8601_ec8c);
    assert_eq!(fingerprint_str("foobar"), 0x8594_4171_f739_67e8);
    assert_eq!(fingerprint_str("Foo.mat"), 0xb4c1_d399_bb41_9557);
}

#[test]
fn equal_strings_have_equal_fingerprints() {
    let a = String::from("some-identifier-0123456789abcdef");
    let b = String::from("some-identifier-0123456789abcdef");
    assert_eq!(fingerprint_str(a.as_str()), fingerprint_str(b.as_str()));
}

#[test]
fn different_strings_have_different_fingerprints() {
    assert_ne!(fingerprint_str("Foo.mat"), fingerprint_str("Bar.mat"));
}

use asset_migrator::fingerprint::fingerprint_str;
use asset_migrator::index::build_index;
use asset_migrator::meta_file::MetaFile;

fn record(dir: &str, base: &str, guid: &str) -> MetaFile {
    MetaFile {
        directory: String::from(dir),
        base_name: String::from(base),
        guid: String::from(guid),
        guid_hash: fingerprint_str(guid),
        base_hash: fingerprint_str(base),
    }
}

const GUID_A: &str = "aaaaaaaaaaaaaaaaaaaaaaaaaaaaaaaa";
const GUID_B: &str = "bbbbbbbbbbbbbbbbbbbbbbbbbbbbbbbb";
const GUID_C: &str = "cccccccccccccccccccccccccccccccc";

#[test]
fn identical_identifier_is_neither_missing_nor_remapped() {
    let src = vec![record("src/Assets", "Foo.mat", GUID_A)];
    let dst = vec![record("dst/Assets", "Other.mat", GUID_A)];
    let (missing, remap) = build_index(&src, &dst);
    assert_eq!(missing.len(), 0);
    assert!(remap.lookup(GUID_A).is_none());
}

#[test]
fn equal_base_name_under_other_identifier_is_remapped() {
    let src = vec![record("src/Assets", "Foo.mat", GUID_A)];
    let dst = vec![record("dst/Assets", "Foo.mat", GUID_B)];
    let (missing, remap) = build_index(&src, &dst);
    assert_eq!(missing.len(), 0);
    let target = remap.lookup(GUID_A).unwrap();
    assert_eq!(target.guid, GUID_B);
    assert_eq!(target.base_name, "Foo.mat");
    assert_eq!(target.directory, "dst/Assets");
}

#[test]
fn unmatched_record_is_missing() {
    let src = vec![record("src/Assets", "Lost.asset", GUID_C)];
    let dst = vec![record("dst/Assets", "Foo.mat", GUID_B)];
    let (missing, remap) = build_index(&src, &dst);
    assert_eq!(missing.len(), 1);
    assert_eq!(missing[0].guid, GUID_C);
    assert_eq!(missing[0].base_name, "Lost.asset");
    assert!(remap.lookup(GUID_C).is_none());
}

#[test]
fn identifier_check_takes_priority_per_candidate() {
    // one destination record matches by identifier and by name at once:
    // the identifier match wins, so nothing is remapped
    let src = vec![record("src/Assets", "Foo.mat", GUID_A)];
    let dst = vec![record("dst/Assets", "Foo.mat", GUID_A)];
    let (missing, remap) = build_index(&src, &dst);
    assert_eq!(missing.len(), 0);
    assert!(remap.lookup(GUID_A).is_none());
}

#[test]
fn first_acceptable_destination_match_wins() {
    let src = vec![record("src/Assets", "Foo.mat", GUID_A)];
    let dst = vec![
        record("dst/One", "Foo.mat", GUID_B),
        record("dst/Two", "Foo.mat", GUID_C),
    ];
    let (missing, remap) = build_index(&src, &dst);
    assert_eq!(missing.len(), 0);
    let target = remap.lookup(GUID_A).unwrap();
    assert_eq!(target.guid, GUID_B);
    assert_eq!(target.directory, "dst/One");
}

#[test]
fn every_source_record_is_classified() {
    let src = vec![
        record("src/Assets", "Same.mat", GUID_A),
        record("src/Assets", "Renamed.mat", GUID_B),
        record("src/Assets", "Lost.asset", GUID_C),
    ];
    let dst = vec![
        record("dst/Assets", "Same.mat", GUID_A),
        record("dst/Assets", "Renamed.mat", "dddddddddddddddddddddddddddddddd"),
    ];
    let (missing, remap) = build_index(&src, &dst);
    assert_eq!(missing.len(), 1);
    assert_eq!(missing[0].guid, GUID_C);
    assert!(remap.lookup(GUID_A).is_none());
    assert_eq!(
        remap.lookup(GUID_B).unwrap().guid,
        "dddddddddddddddddddddddddddddddd"
    );
    assert!(remap.lookup(GUID_C).is_none());
}

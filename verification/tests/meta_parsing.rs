use asset_migrator::fingerprint::fingerprint_str;
use asset_migrator::meta_file::is_meta_file_name;
use asset_migrator::meta_file::MetaFile;

fn parse(text: &str) -> Option<MetaFile> {
    MetaFile::from_meta_text(String::from("proj/Assets"), String::from("Foo.mat"), text)
}

#[test]
fn wellformed_guid_line_is_parsed() {
    let m = parse("fileFormatVersion: 2\nguid: 0123456789abcdef0123456789abcdef\nfolderAsset: no\n")
        .unwrap();
    assert_eq!(m.guid, "0123456789abcdef0123456789abcdef");
    assert_eq!(m.directory, "proj/Assets");
    assert_eq!(m.base_name, "Foo.mat");
}

#[test]
fn guid_value_is_trimmed() {
    let m = parse("guid:   abcd  \r\nrest: x\n").unwrap();
    assert_eq!(m.guid, "abcd");
}

#[test]
fn only_first_guid_line_counts() {
    let m = parse("guid: first\nguid: second\n").unwrap();
    assert_eq!(m.guid, "first");
}

#[test]
fn text_without_guid_line_is_discarded() {
    assert!(parse("fileFormatVersion: 2\nfolderAsset: no\n").is_none());
    assert!(parse("").is_none());
}

#[test]
fn empty_guid_value_is_discarded() {
    assert!(parse("guid:   \nrest: x\n").is_none());
}

#[test]
fn parsed_record_carries_fingerprints() {
    let m = parse("guid: 0123456789abcdef0123456789abcdef\n").unwrap();
    assert_eq!(m.guid_hash, fingerprint_str("0123456789abcdef0123456789abcdef"));
    assert_eq!(m.base_hash, fingerprint_str("Foo.mat"));
}

#[test]
fn get_paths_joins_directory_and_base_name() {
    let m = parse("guid: 0123456789abcdef0123456789abcdef\n").unwrap();
    let (asset, meta) = m.get_paths();
    assert_eq!(asset, "proj/Assets/Foo.mat");
    assert_eq!(meta, "proj/Assets/Foo.mat.meta");
}

#[test]
fn get_paths_stem_replaces_directory() {
    let m = parse("guid: 0123456789abcdef0123456789abcdef\n").unwrap();
    let (asset, meta) = m.get_paths_stem("out/export");
    assert_eq!(asset, "out/export/Foo.mat");
    assert_eq!(meta, "out/export/Foo.mat.meta");
}

#[test]
fn meta_file_names_are_recognised() {
    assert!(is_meta_file_name("Foo.mat.meta"));
    assert!(is_meta_file_name("x.meta"));
    assert!(!is_meta_file_name(".meta"));
    assert!(!is_meta_file_name("Foo.mat"));
    assert!(!is_meta_file_name("meta"));
}

#[test]
fn duplicate_copies_every_field() {
    let m = parse("guid: 0123456789abcdef0123456789abcdef\n").unwrap();
    let d = m.duplicate();
    assert_eq!(d.directory, m.directory);
    assert_eq!(d.base_name, m.base_name);
    assert_eq!(d.guid, m.guid);
    assert_eq!(d.guid_hash, m.guid_hash);
    assert_eq!(d.base_hash, m.base_hash);
}

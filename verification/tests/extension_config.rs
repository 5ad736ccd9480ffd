use asset_migrator::extensions::add_extensions;
use asset_migrator::extensions::default_extensions;

#[test]
fn defaults_hold_the_five_built_in_extensions() {
    let v = default_extensions();
    assert_eq!(v, vec![".prefab", ".mat", ".asset", ".unity", ".controller"]);
}

#[test]
fn config_lines_extend_the_defaults() {
    let mut v = default_extensions();
    add_extensions(&mut v, "# custom additions\n.shader\n\n.mat\n.shader\n");
    // comments, blank lines and duplicates are skipped
    assert_eq!(
        v,
        vec![".prefab", ".mat", ".asset", ".unity", ".controller", ".shader"]
    );
}

#[test]
fn windows_line_endings_are_accepted() {
    let mut v: Vec<String> = Vec::new();
    add_extensions(&mut v, ".one\r\n.two\r\n");
    assert_eq!(v, vec![".one", ".two"]);
}

#[test]
fn last_line_without_newline_counts() {
    let mut v: Vec<String> = Vec::new();
    add_extensions(&mut v, ".only");
    assert_eq!(v, vec![".only"]);
}

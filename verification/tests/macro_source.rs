use ddnet_kit::macro_source::{literal_is_cuttable, source_path};

#[test]
fn path_joins_dir_literal_and_file() {
    let p = source_path("/crate", "\"../../\"", "game/vanilla/src/world.rs");
    assert_eq!(p, "/crate/../../game/vanilla/src/world.rs");
}

#[test]
fn empty_literal_gives_root() {
    assert_eq!(source_path("/c", "\"\"", "a.rs"), "/c/a.rs");
}

#[test]
fn cuttable_literals() {
    assert!(literal_is_cuttable("\"x\""));
    assert!(literal_is_cuttable("\"\""));
    assert!(!literal_is_cuttable("\""));
    assert!(!literal_is_cuttable(""));
    assert!(!literal_is_cuttable("é\""));
    assert!(!literal_is_cuttable("\"é"));
}

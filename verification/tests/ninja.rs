use ddnet_kit::ninja::{ninja_source, LoadedItem, NinjaLoadError, PartOutcome, PartSequence, PartStep};

#[test]
fn muzzle_names_start_at_zero() {
    let mut s = PartSequence::muzzles();
    assert_eq!(s.part_name(), "muzzle0");
    assert_eq!(s.record(PartOutcome::Loaded { from_default: false }), PartStep::Continue);
    assert_eq!(s.part_name(), "muzzle1");
}

#[test]
fn sound_names_start_at_one() {
    assert_eq!(PartSequence::attacks().part_name(), "attack1");
    assert_eq!(PartSequence::hits().part_name(), "hit1");
}

#[test]
fn names_use_decimal_digits() {
    let mut s = PartSequence::new("hit", 1);
    for _ in 0..9 {
        s.record(PartOutcome::Loaded { from_default: true });
    }
    assert_eq!(s.part_name(), "hit10");
    let mut s = PartSequence::new("p", 120);
    for _ in 0..3 {
        s.record(PartOutcome::Loaded { from_default: true });
    }
    assert_eq!(s.part_name(), "p123");
}

#[test]
fn first_failure_aborts() {
    let mut s = PartSequence::muzzles();
    assert_eq!(s.record(PartOutcome::Failed), PartStep::Abort);
    assert_eq!(s.loaded(), 0);
}

#[test]
fn later_failure_finishes() {
    let mut s = PartSequence::attacks();
    assert_eq!(s.record(PartOutcome::Loaded { from_default: true }), PartStep::Continue);
    assert_eq!(s.record(PartOutcome::Loaded { from_default: true }), PartStep::Continue);
    assert_eq!(s.record(PartOutcome::Failed), PartStep::Finished);
    assert_eq!(s.loaded(), 2);
}

#[test]
fn default_allowed_only_while_all_default() {
    let mut s = PartSequence::hits();
    assert!(s.allow_default());
    s.record(PartOutcome::Loaded { from_default: true });
    assert!(s.allow_default());
    s.record(PartOutcome::Loaded { from_default: false });
    assert!(!s.allow_default());
    s.record(PartOutcome::Loaded { from_default: true });
    assert!(!s.allow_default());
}

#[test]
fn can_continue_near_the_limit() {
    let s = PartSequence::new("x", u64::MAX - 1);
    assert!(s.can_continue());
    let s = PartSequence::new("x", u64::MAX);
    assert!(!s.can_continue());
}

#[test]
fn ninjas_load_from_directories_only() {
    let dir: LoadedItem<u32, &str> = LoadedItem::Directory(5);
    assert_eq!(ninja_source(dir), Ok(5));
    let file: LoadedItem<u32, &str> = LoadedItem::SingleFile("ninja.png");
    assert_eq!(ninja_source(file), Err(NinjaLoadError::SingleFileUnsupported));
}

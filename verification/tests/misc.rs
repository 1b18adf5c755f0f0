use video_player::hash::{
    fingerprint, hex, legacy_hash_needed, legacy_sample_plan, sample_plan, CHUNK,
};
use video_player::pending_open::PendingOpen;
use video_player::startup_config::{config_from_fields, config_or_default, StartupConfig};
use video_player::store::{
    legacy_migration, needs_migration, plan_schema_upgrade, preset_tags, LegacyMigration,
    SCHEMA_VERSION,
};
use video_player::text::{decimal_string, trimmed};
use video_player::window::centered_position;

#[test]
fn centers_outer_window_inside_offset_work_area() {
    assert_eq!(
        centered_position(-1920, 40, 1920, 1040, 1546, 1040),
        (-1733, 40)
    );
}

#[test]
fn oversized_window_is_aligned_to_the_corner() {
    assert_eq!(centered_position(10, 20, 800, 600, 1000, 900), (10, 20));
}

#[test]
fn latest_request_wins() {
    let mut state = PendingOpen::default();
    state.put("a.mp4".into());
    state.put("b.mp4".into());
    assert_eq!(state.take().as_deref(), Some("b.mp4"));
    assert_eq!(state.take(), None);
}

#[test]
fn hashes_entire_small_file() {
    let content = b"abcdefghij";
    let plan = sample_plan(10, 8);
    assert_eq!(plan.head_len, 10);
    assert!(plan.tail.is_none());
    let actual = fingerprint(10, &content[..plan.head_len as usize], None);
    let legacy = fingerprint(10, &content[..8], None);
    assert_ne!(actual, legacy);
    assert_eq!(
        actual,
        "10:72399361da6a7754fec986dca5b7cbaf1c810a28ded4abaf56b2106d06cb78b0:"
    );
}

#[test]
fn samples_head_and_tail_of_large_file() {
    let content = b"abcdefghijklmnopqrst";
    let plan = sample_plan(20, 8);
    assert_eq!(plan.head_len, 8);
    assert_eq!(plan.tail, Some((12, 8)));
    let hash = fingerprint(20, &content[..8], Some(&content[12..20]));
    assert_eq!(hash.matches(':').count(), 2);
    assert!(!hash.ends_with(':'));
}

#[test]
fn legacy_sampling_differs_only_between_one_and_two_chunks() {
    assert!(!legacy_hash_needed(CHUNK));
    assert!(legacy_hash_needed(CHUNK + 1));
    assert!(legacy_hash_needed(CHUNK * 2));
    assert!(!legacy_hash_needed(CHUNK * 2 + 1));
    let plan = legacy_sample_plan(10, 8);
    assert_eq!(plan.head_len, 8);
    assert!(plan.tail.is_none());
    let plan = legacy_sample_plan(20, 8);
    assert_eq!((plan.head_len, plan.tail), (8, Some((12, 8))));
}

#[test]
fn hex_and_decimal_text() {
    assert_eq!(hex(&[0x00, 0x0f, 0xa5, 0xff]), "000fa5ff");
    assert_eq!(decimal_string(0), "0");
    assert_eq!(decimal_string(18446744073709551615), "18446744073709551615");
    assert_eq!(trimmed("\u{3000} a b \n"), "a b");
}

#[test]
fn invalid_config_falls_back_to_enabled() {
    assert!(config_or_default(None).single_instance);
    assert!(StartupConfig::default().single_instance);
    assert!(config_from_fields(None).single_instance);
    assert!(!config_from_fields(Some(false)).single_instance);
    assert!(!config_or_default(Some(StartupConfig { single_instance: false })).single_instance);
}

#[test]
fn initialization_is_idempotent_and_has_seven_stars() {
    let old = plan_schema_upgrade(1).unwrap();
    assert!(old.to_v2 && old.to_v3 && old.to_v4);
    let again = plan_schema_upgrade(SCHEMA_VERSION).unwrap();
    assert!(!again.to_v2 && !again.to_v3 && !again.to_v4);
    assert!(plan_schema_upgrade(SCHEMA_VERSION + 1).is_none());
    let presets = preset_tags();
    assert_eq!(presets[0].system_key, "stars");
    assert_eq!(presets[0].options.len(), 7);
    assert_eq!(presets[1].options, vec!["480p", "720p", "1080p", "4K"]);
}

#[test]
fn legacy_fingerprints_are_merged_or_moved() {
    assert!(!needs_migration("a", "a"));
    assert!(needs_migration("a", "b"));
    assert!(matches!(legacy_migration(false, true), LegacyMigration::Nothing));
    assert!(matches!(legacy_migration(true, true), LegacyMigration::Merge));
    assert!(matches!(legacy_migration(true, false), LegacyMigration::Move));
}

use zonewm::config::layout::assign_slots;
use zonewm::config::settings::{
    parse_hex_color, settings_from, ColorsEntry, Settings, SnappingEntry, DEFAULT_COLOR_FLOATING,
    DEFAULT_COLOR_STRETCHED, DEFAULT_COLOR_ZONED,
};
use zonewm::config::SavedState;
use zonewm::models::system::SNAP_GAP;

fn no_colors() -> Option<ColorsEntry> {
    None
}

#[test]
fn missing_snapping_section_falls_back_to_default_gap() {
    let s = settings_from(&None, &no_colors());
    assert_eq!(s.snap_gap, SNAP_GAP);
}

#[test]
fn snapping_gap_is_read_from_config() {
    let s = settings_from(&Some(SnappingEntry { gap: Some(7) }), &no_colors());
    assert_eq!(s.snap_gap, 7);
}

#[test]
fn missing_colors_section_falls_back_to_defaults() {
    let s = settings_from(&None, &no_colors());
    assert_eq!(s.color_floating, DEFAULT_COLOR_FLOATING);
    assert_eq!(s.color_stretched, DEFAULT_COLOR_STRETCHED);
    assert_eq!(s.color_zoned, DEFAULT_COLOR_ZONED);
}

#[test]
fn colors_are_read_from_config_as_rgb_hex() {
    let colors = ColorsEntry {
        floating: Some("#112233".to_string()),
        stretched: Some("#aabbcc".to_string()),
        zoned: Some("445566".to_string()),
    };
    let s = settings_from(&None, &Some(colors));
    assert_eq!(s.color_floating, 0x00332211);
    assert_eq!(s.color_stretched, 0x00ccbbaa);
    assert_eq!(s.color_zoned, 0x00665544);
}

#[test]
fn invalid_hex_color_falls_back_to_default() {
    let colors = ColorsEntry { floating: Some("not-a-color".to_string()), stretched: None, zoned: None };
    let s = settings_from(&None, &Some(colors));
    assert_eq!(s.color_floating, DEFAULT_COLOR_FLOATING);
}

#[test]
fn parse_hex_color_handles_leading_hash_and_case() {
    assert_eq!(parse_hex_color("#FFFFFF"), Some(0x00FFFFFF));
    assert_eq!(parse_hex_color("000000"), Some(0));
    assert_eq!(parse_hex_color("#zzzzzz"), None);
    assert_eq!(parse_hex_color("#fff"), None);
}

#[test]
fn hex_colors_allow_space_repeated_hashes_and_plus_signs() {
    assert_eq!(parse_hex_color("  #102030\n"), Some(0x00302010));
    assert_eq!(parse_hex_color("##102030"), Some(0x00302010));
    assert_eq!(parse_hex_color("+f+f+f"), Some(0x000f0f0f));
    assert_eq!(parse_hex_color("-f0000"), None);
    assert_eq!(parse_hex_color("ééé"), None);
    assert_eq!(parse_hex_color("# 102030"), None);
}

#[test]
fn default_settings() {
    let s = Settings::default();
    assert_eq!(s.snap_gap, 2);
    assert_eq!(s.color_zoned, 0x00FFA269);
    assert_eq!(settings_from(&None, &no_colors()), s);
}

#[test]
fn explicit_index_places_layout_in_correct_slot() {
    let layouts = assign_slots(vec![(Some(5), "pinned")]);
    assert!(layouts[4].is_some(), "slot 5 (index 4) should be occupied");
    assert!(layouts[0].is_none(), "slot 1 should be empty");
}

#[test]
fn unindexed_layouts_fill_slots_in_order() {
    let layouts = assign_slots(vec![(None, "A"), (None, "B")]);
    assert_eq!(*layouts[0].as_ref().unwrap(), "A");
    assert_eq!(*layouts[1].as_ref().unwrap(), "B");
}

#[test]
fn pinned_slots_keep_the_first_and_the_rest_fill_gaps() {
    let layouts = assign_slots(vec![
        (None, "A"),
        (Some(1), "P"),
        (Some(1), "dropped"),
        (Some(10), "out of range"),
        (Some(0), "zero"),
    ]);
    assert_eq!(layouts.len(), 9);
    assert_eq!(layouts[0], Some("P"));
    assert_eq!(layouts[1], Some("A"));
    assert_eq!(layouts[2], Some("out of range"));
    assert_eq!(layouts[3], Some("zero"));
    assert_eq!(layouts[4], None);
    assert!(!layouts.contains(&Some("dropped")));
}

#[test]
fn saved_layouts_are_replaced_per_monitor() {
    let mut saved = SavedState::default();
    assert_eq!(saved.layout_for(&"mon-a".to_string()), None);
    saved.insert("mon-a".to_string(), 2);
    saved.insert("mon-b".to_string(), 5);
    saved.insert("mon-a".to_string(), 3);
    assert_eq!(saved.layout_for(&"mon-a".to_string()), Some(3));
    assert_eq!(saved.layout_for(&"mon-b".to_string()), Some(5));
    assert_eq!(saved.monitor_layouts.len(), 2);
}

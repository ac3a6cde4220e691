use zonewm::actions::keymap::{Keymap, KeymapError, KeymapRegistry};
use zonewm::actions::Action;
use zonewm::config::keymap::{
    mod_bit, parse_keymap, to_keymaps, vk_from_name, KeymapEntry, MOD_ALT, MOD_CONTROL, MOD_SHIFT, MOD_WIN,
};
use zonewm::config::ConfigError;
use zonewm::state::window_state::Direction;

#[test]
fn add_keymap_errors_on_duplicate_keymap() {
    let mut r = KeymapRegistry::new();
    let k = Keymap { mods: 0, vk: 0 };
    let a1 = Action::SetLayout(1);
    let a2 = Action::SetLayout(2);

    r.add_keymap(k, a1).unwrap();
    assert!(r.add_keymap(k, a2).is_err());
    assert!(r.get_id_from_keymap(k).unwrap() == 0);

    assert!(r.keymap_to_id.len() == 1);
    assert!(r.id_to_action.len() == 1);
}

#[test]
fn add_keymap_allow_duplicate_action() {
    let mut r = KeymapRegistry::new();
    let k1 = Keymap { mods: 0, vk: 0 };
    let k2 = Keymap { mods: 1, vk: 1 };
    let a = Action::SetLayout(1);

    r.add_keymap(k1, a).unwrap();
    r.add_keymap(k2, a).unwrap();

    let id1 = r.get_id_from_keymap(k1).unwrap();
    let id2 = r.get_id_from_keymap(k2).unwrap();

    let a1 = r.get_action_from_id(id1).unwrap();
    let a2 = r.get_action_from_id(id2).unwrap();

    assert!(a1 == a2);
}

#[test]
fn duplicate_error_names_both_actions() {
    let mut r = KeymapRegistry::new();
    let k = Keymap { mods: MOD_ALT, vk: 0x31 };
    r.add_keymap(k, Action::SetWorkspace(0)).unwrap();
    match r.add_keymap(k, Action::ToggleFloat) {
        Err(e) => {
            assert!(matches!(e, KeymapError::Duplicate(_, _)));
            assert_eq!(e.message(), "Duplicate keymap found for action 'set_workspace_0' and 'toggle_float'");
        },
        Ok(()) => panic!("duplicate combo accepted"),
    }
}

#[test]
fn lookup_after_add_gives_the_action() {
    let mut r = KeymapRegistry::new();
    let k = Keymap { mods: MOD_CONTROL | MOD_ALT, vk: 0x48 };
    r.add_keymap(Keymap { mods: 0, vk: 1 }, Action::WinMinimize).unwrap();
    r.add_keymap(k, Action::WinSwap(Direction::Left)).unwrap();
    let id = r.get_id_from_keymap(k).unwrap();
    assert_eq!(id, 1);
    assert_eq!(r.get_action_from_id(id), Some(Action::WinSwap(Direction::Left)));
    assert_eq!(r.get_id_from_keymap(Keymap { mods: MOD_ALT, vk: 0x48 }), None);
    assert_eq!(r.get_action_from_id(-1), None);
    assert_eq!(r.get_action_from_id(2), None);
}

#[test]
fn keymap_codes_keep_modifiers_and_key_apart() {
    let a = Keymap { mods: 1, vk: 0 };
    let b = Keymap { mods: 0, vk: 1 };
    assert_ne!(a.code(), b.code());
    assert_eq!(a.code(), 0x1_0000_0000);
}

#[test]
fn action_names_round_trip_with_one_based_indices() {
    assert_eq!(Action::SetLayout(3).to_string(), "set_layout_3");
    assert_eq!(Action::from_string("set_layout_3"), Some(Action::SetLayout(2)));
    assert_eq!(Action::from_string("set_workspace_1"), Some(Action::SetWorkspace(0)));
    assert_eq!(Action::from_string("move_to_workspace_9"), Some(Action::WinMoveWS(8)));
    assert_eq!(Action::from_string("set_layout_+2"), Some(Action::SetLayout(1)));
    assert_eq!(Action::from_string("set_layout_x"), None);
    assert_eq!(Action::from_string("set_layout_"), None);
    assert!(Action::has_zero_index("set_layout_0"));
    assert!(Action::has_zero_index("move_to_workspace_00"));
    assert!(!Action::has_zero_index("set_layout_1"));
    assert!(!Action::has_zero_index("toggle_float"));
}

#[test]
fn every_plain_action_reads_back_from_its_name() {
    let actions = [
        Action::ToggleFloat,
        Action::ToggleMonLock,
        Action::WinCycle(true),
        Action::WinCycle(false),
        Action::WinFocus(Direction::Left),
        Action::WinMove(Direction::Down),
        Action::WinSwap(Direction::Up),
        Action::WinStretch(Direction::Right),
        Action::WinShrink(Direction::Left),
        Action::WinFullscreen,
        Action::WinMinimize,
    ];
    for a in actions {
        let name = a.to_string();
        assert_eq!(Action::from_string(&name), Some(a), "{}", name);
    }
    assert_eq!(Action::WinCycle(false).to_string(), "cycle_window_prev");
    assert_eq!(Action::WinFocus(Direction::Right).to_string(), "move_focus_right");
    assert_eq!(Action::from_string("set_float"), None);
    assert_eq!(Action::from_string("cycle_window_sideways"), None);
    assert_eq!(Action::from_string("move_focus_north"), None);
}

#[test]
fn direction_names() {
    assert_eq!(Direction::Down.to_string(), "down");
    assert_eq!(Direction::from_string("up"), Some(Direction::Up));
    assert_eq!(Direction::from_string("Up"), None);
}

#[test]
fn modifier_and_key_names() {
    assert_eq!(mod_bit("ctrl"), Some(MOD_CONTROL));
    assert_eq!(mod_bit("control"), Some(MOD_CONTROL));
    assert_eq!(mod_bit("super"), Some(MOD_WIN));
    assert_eq!(mod_bit("meta"), None);
    assert_eq!(vk_from_name("a"), Some(0x41));
    assert_eq!(vk_from_name("Z"), Some(0x5A));
    assert_eq!(vk_from_name("7"), Some(0x37));
    assert_eq!(vk_from_name("f"), Some(0x46));
    assert_eq!(vk_from_name("f1"), Some(0x70));
    assert_eq!(vk_from_name("f24"), Some(0x87));
    assert_eq!(vk_from_name("f25"), None);
    assert_eq!(vk_from_name("f0"), None);
    assert_eq!(vk_from_name("return"), Some(0x0D));
    assert_eq!(vk_from_name("escape"), Some(0x1B));
    assert_eq!(vk_from_name("é"), None);
    assert_eq!(vk_from_name("-"), None);
}

#[test]
fn key_combos_parse() {
    assert_eq!(parse_keymap("ctrl+alt+1").unwrap(), Keymap { mods: MOD_CONTROL | MOD_ALT, vk: 0x31 });
    assert_eq!(parse_keymap("win+left").unwrap(), Keymap { mods: MOD_WIN, vk: 0x25 });
    assert_eq!(parse_keymap("alt+shift+f").unwrap(), Keymap { mods: MOD_ALT | MOD_SHIFT, vk: 0x46 });
    assert_eq!(parse_keymap("tab").unwrap(), Keymap { mods: 0, vk: 0x09 });
    assert!(matches!(parse_keymap("ctrl+"), Err(KeymapError::Invalid)));
    assert!(matches!(parse_keymap("+a"), Err(KeymapError::Invalid)));
    assert!(matches!(parse_keymap("hyper+a"), Err(KeymapError::Invalid)));
    assert!(matches!(parse_keymap(""), Err(KeymapError::Invalid)));
}

fn entry(combo: &str, action: &str) -> KeymapEntry {
    KeymapEntry { combo: combo.to_string(), action: action.to_string() }
}

#[test]
fn key_bindings_build_a_registry() {
    let entries = vec![entry("alt+1", "set_workspace_1"), entry("alt+h", "move_focus_left")];
    let reg = to_keymaps(&entries).unwrap();
    let id = reg.get_id_from_keymap(Keymap { mods: MOD_ALT, vk: 0x48 }).unwrap();
    assert_eq!(reg.get_action_from_id(id), Some(Action::WinFocus(Direction::Left)));
    let id = reg.get_id_from_keymap(Keymap { mods: MOD_ALT, vk: 0x31 }).unwrap();
    assert_eq!(reg.get_action_from_id(id), Some(Action::SetWorkspace(0)));
}

#[test]
fn key_binding_errors_say_what_is_wrong() {
    match to_keymaps(&vec![entry("alt+1", "set_float")]) {
        Err(ConfigError::Invalid(m)) => assert_eq!(m, "unknown action 'set_float'"),
        _ => panic!("expected an unknown action"),
    }
    match to_keymaps(&vec![entry("alt+nope", "set_layout_2")]) {
        Err(ConfigError::Invalid(m)) => assert_eq!(m, "Invalid key combo for action 'set_layout_1'"),
        _ => panic!("expected an invalid combo"),
    }
    match to_keymaps(&vec![entry("alt+1", "toggle_float"), entry("alt+1", "set_minimized")]) {
        Err(ConfigError::Invalid(m)) => {
            assert_eq!(m, "Duplicate keymap found for action 'toggle_float' and 'set_minimized'")
        },
        _ => panic!("expected a duplicate"),
    }
    match to_keymaps(&vec![entry("alt+1", "set_workspace_0")]) {
        Err(ConfigError::IndexFromZero(m)) => assert_eq!(m, "set_workspace_0"),
        _ => panic!("expected an index from zero"),
    }
}

#[test]
fn successful_registrations_get_ids_in_order_without_gaps() {
    let mut r = KeymapRegistry::new();
    let keys = [Keymap { mods: MOD_ALT, vk: 0x48 }, Keymap { mods: MOD_ALT, vk: 0x4A }, Keymap { mods: MOD_CONTROL, vk: 0x48 }];
    assert!(r.add_keymap(keys[0], Action::ToggleFloat).is_ok());
    assert!(r.add_keymap(keys[0], Action::ToggleMonLock).is_err());
    assert!(r.add_keymap(keys[1], Action::WinFocus(Direction::Down)).is_ok());
    assert!(r.add_keymap(keys[2], Action::ToggleFloat).is_ok());
    for (j, k) in keys.iter().enumerate() {
        assert_eq!(r.get_id_from_keymap(*k), Some(j as i32));
    }
    assert_eq!(r.get_id_from_keymap(Keymap { mods: MOD_SHIFT, vk: 0x48 }), None);
    assert_eq!(r.get_action_from_id(1), Some(Action::WinFocus(Direction::Down)));
    assert_eq!(r.get_action_from_id(3), None);
    assert_eq!(r.get_action_from_id(-1), None);
    assert_eq!(r.get_action_from_id(i32::MIN), None);
}

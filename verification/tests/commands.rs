use std::cell::RefCell;
use std::collections::{HashMap, HashSet};

use zonewm::actions::hooks::{
    builtin_hotkey_action, builtin_hotkey_id, drop_outside_with, hjkl_dir, hotkey_for_key, is_window_object,
    modifier_bits, on_drag_end,
    on_foreground, on_minimize_end, on_window_destroyed, on_window_shown, zone_at, DragState,
};
use zonewm::actions::keymap::{Keymap, KeymapRegistry};
use zonewm::actions::{last_focused_on, Action, Effect};
use zonewm::commands::window::{handle_cycle, handle_focus_move, handle_window_move, handle_window_swap};
use zonewm::config::keymap::{MOD_ALT, MOD_CONTROL, MOD_SHIFT, MOD_WIN};
use zonewm::models::monitor::{Monitor, Rect};
use zonewm::models::system::{Hmonitor, Hwnd, SysCall, WindowSystem};
use zonewm::models::window::{border_rect, frame_offsets, is_manageable, snap_placement, FrameOffsets};
use zonewm::models::zone::{Axis, Layout, ZoneNode};
use zonewm::state::monitor_state::MonitorState;
use zonewm::state::window_state::{Direction, WindowState};
use zonewm::state::{build, focus_border_style, StateMap};
use zonewm::tray::icon_rgba;

fn h(n: isize) -> Hwnd {
    Hwnd(n)
}

#[derive(Default)]
struct FakeSystem {
    minimized: HashSet<isize>,
    rects: HashMap<isize, Rect>,
    on_monitor: Vec<Hwnd>,
    snapped: RefCell<Vec<(isize, Rect)>>,
    cloaked: RefCell<HashMap<isize, bool>>,
    fronted: RefCell<Vec<isize>>,
    foreground: isize,
}

impl FakeSystem {
    /// Carries out queued system calls, recording what they did.
    fn perform(&self, calls: Vec<SysCall>) {
        for c in calls {
            match c {
                SysCall::Snap(hwnd, rect) => self.snapped.borrow_mut().push((hwnd.0, rect)),
                SysCall::Restore(_, _) => {}
                SysCall::Cloak(hwnd, cloaked) => {
                    self.cloaked.borrow_mut().insert(hwnd.0, cloaked);
                }
                SysCall::BringToFront(hwnd) => self.fronted.borrow_mut().push(hwnd.0),
            }
        }
    }
}

impl WindowSystem for FakeSystem {
    fn enumerate_on_monitor(&self, _hmon: Hmonitor) -> Vec<Hwnd> {
        self.on_monitor.clone()
    }
    fn is_minimized(&self, hwnd: Hwnd) -> bool {
        self.minimized.contains(&hwnd.0)
    }
    fn window_rect(&self, hwnd: Hwnd) -> Option<Rect> {
        self.rects.get(&hwnd.0).copied()
    }
    fn foreground_window(&self) -> Hwnd {
        Hwnd(self.foreground)
    }
}

fn rect(left: i32, top: i32, right: i32, bottom: i32) -> Rect {
    Rect { left, top, right, bottom }
}

fn two_col_at(x: i32) -> Layout {
    Layout {
        name: "2-col".to_string(),
        zones: vec![rect(x, 0, x + 960, 1080), rect(x + 960, 0, x + 1920, 1080)],
        tree: ZoneNode::Split { axis: Axis::Horizontal, children: vec![ZoneNode::Leaf(0), ZoneNode::Leaf(1)] },
    }
}

fn monitor(handle: isize, x: i32, id: &str) -> Monitor {
    Monitor {
        handle: Hmonitor(handle),
        work_area: rect(x, 0, x + 1920, 1080),
        device_name: format!("DISPLAY{}", handle),
        device_id: id.to_string(),
    }
}

fn layouts_at(x: i32) -> Vec<Option<Layout>> {
    let mut v = vec![Some(two_col_at(x))];
    for _ in 1..9 {
        v.push(None);
    }
    v
}

/// Two monitors side by side, keyed 1 (left) and 2 (right), both unlocked.
fn two_monitors() -> StateMap {
    let mut states = build(vec![(monitor(1, 0, "a"), layouts_at(0)), (monitor(2, 1920, "b"), layouts_at(1920))]);
    for e in states.entries.iter_mut() {
        e.1.monitor_locked = false;
    }
    states
}

fn state_of(states: &StateMap, key: isize) -> &MonitorState {
    states.get(key).unwrap()
}

#[test]
fn window_moves_to_the_next_zone_on_its_monitor() {
    let sys = FakeSystem::default();
    let mut states = two_monitors();
    states.entries[0].1.assign_to_zone(0, h(1), Rect::default());
    handle_window_move(h(1), rect(2, 2, 958, 1078), 1, Direction::Right, &mut states, &sys);
    assert_eq!(state_of(&states, 1).window_state(h(1)), WindowState::Zoned(1));
}

#[test]
fn window_moves_across_to_an_unlocked_monitor() {
    let sys = FakeSystem::default();
    let mut states = two_monitors();
    states.entries[0].1.assign_to_zone(1, h(1), Rect::default());
    handle_window_move(h(1), rect(962, 2, 1918, 1078), 1, Direction::Right, &mut states, &sys);
    assert_eq!(state_of(&states, 1).window_state(h(1)), WindowState::Ignored);
    assert_eq!(state_of(&states, 2).window_state(h(1)), WindowState::Zoned(0));
}

#[test]
fn a_locked_monitor_keeps_moves_on_itself() {
    let sys = FakeSystem::default();
    let mut states = two_monitors();
    states.entries[0].1.monitor_locked = true;
    states.entries[1].1.monitor_locked = true;
    states.entries[0].1.assign_to_zone(1, h(1), Rect::default());
    handle_window_move(h(1), rect(962, 2, 1918, 1078), 1, Direction::Right, &mut states, &sys);
    assert_eq!(state_of(&states, 1).window_state(h(1)), WindowState::Zoned(1));
    assert_eq!(state_of(&states, 2).window_state(h(1)), WindowState::Ignored);
}

#[test]
fn swap_exchanges_the_zones_of_two_windows() {
    let sys = FakeSystem::default();
    let mut states = two_monitors();
    states.entries[0].1.assign_to_zone(0, h(1), Rect::default());
    states.entries[0].1.assign_to_zone(1, h(2), Rect::default());
    handle_window_swap(h(1), rect(2, 2, 958, 1078), 1, Direction::Right, &mut states, &sys);
    sys.perform(states.take_commands());
    assert_eq!(state_of(&states, 1).window_state(h(1)), WindowState::Zoned(1));
    assert_eq!(state_of(&states, 1).window_state(h(2)), WindowState::Zoned(0));
    assert_eq!(*sys.fronted.borrow(), vec![2]);
    assert_eq!(*sys.snapped.borrow(), vec![(2, rect(0, 0, 960, 1080)), (1, rect(960, 0, 1920, 1080))]);
}

#[test]
fn swap_across_monitors_exchanges_owners() {
    let sys = FakeSystem::default();
    let mut states = two_monitors();
    states.entries[0].1.assign_to_zone(1, h(1), Rect::default());
    states.entries[1].1.assign_to_zone(0, h(2), Rect::default());
    handle_window_swap(h(1), rect(962, 2, 1918, 1078), 1, Direction::Right, &mut states, &sys);
    assert_eq!(state_of(&states, 1).window_state(h(2)), WindowState::Zoned(1));
    assert_eq!(state_of(&states, 2).window_state(h(1)), WindowState::Zoned(0));
    assert_eq!(state_of(&states, 2).window_state(h(2)), WindowState::Ignored);
}

#[test]
fn swap_of_a_floating_window_does_nothing() {
    let sys = FakeSystem::default();
    let mut states = two_monitors();
    states.entries[0].1.assign_to_zone(1, h(2), Rect::default());
    states.entries[0].1.capture_all_windows(&FakeSystem { on_monitor: vec![h(1)], ..Default::default() });
    handle_window_swap(h(1), rect(2, 2, 500, 500), 1, Direction::Right, &mut states, &sys);
    assert_eq!(state_of(&states, 1).window_state(h(1)), WindowState::Floating);
    assert_eq!(state_of(&states, 1).window_state(h(2)), WindowState::Zoned(1));
}

#[test]
fn focus_moves_to_the_window_on_the_neighbouring_monitor() {
    let sys = FakeSystem::default();
    let mut states = two_monitors();
    states.entries[0].1.assign_to_zone(1, h(1), Rect::default());
    states.entries[1].1.assign_to_zone(0, h(2), Rect::default());
    let target = handle_focus_move(h(1), rect(962, 2, 1918, 1078), 1, Direction::Right, &states, &sys);
    assert_eq!(target, Some(h(2)));
    let none = handle_focus_move(h(2), rect(1922, 2, 2878, 1078), 2, Direction::Up, &states, &sys);
    assert_eq!(none, None);
}

#[test]
fn cycling_returns_the_window_brought_up() {
    let sys = FakeSystem::default();
    let mut states = two_monitors();
    states.entries[0].1.assign_to_zone(0, h(1), Rect::default());
    states.entries[0].1.assign_to_zone(0, h(2), Rect::default());
    assert_eq!(handle_cycle(h(2), 1, true, &mut states, &sys), Some(h(1)));
    assert_eq!(handle_cycle(h(2), 7, true, &mut states, &sys), None);
}

#[test]
fn actions_run_against_the_focused_monitor() {
    let sys = FakeSystem { foreground: 1, ..Default::default() };
    let mut states = two_monitors();
    states.entries[0].1.assign_to_zone(0, h(1), Rect::default());
    match Action::SetLayout(0).execute(&mut states, 1, h(1), None, &sys) {
        Effect::ShowFlash(wa, zones) => {
            assert_eq!(wa, rect(0, 0, 1920, 1080));
            assert_eq!(zones.len(), 2);
        },
        _ => panic!("expected a flash"),
    }
    assert!(matches!(Action::SetLayout(4).execute(&mut states, 1, h(1), None, &sys), Effect::ShowFlash(_, _)));
    assert!(matches!(Action::SetWorkspace(1).execute(&mut states, 1, h(1), None, &sys), Effect::Nothing));
    assert_eq!(state_of(&states, 1).active_ws, 1);
    assert!(matches!(Action::SetWorkspace(0).execute(&mut states, 1, h(1), None, &sys), Effect::Foreground(w) if w == h(1)));
    assert!(matches!(Action::WinMinimize.execute(&mut states, 1, h(1), None, &sys), Effect::Minimize));
    assert_eq!(last_focused_on(&states, 1, &sys), Some(h(1)));
    assert!(matches!(Action::WinMoveWS(2).execute(&mut states, 1, h(9), None, &sys), Effect::NoWindowRect));
    Action::ToggleMonLock.execute(&mut states, 1, h(1), None, &sys);
    assert!(state_of(&states, 1).monitor_locked && state_of(&states, 2).monitor_locked);
    Action::ToggleFloat.execute(&mut states, 1, h(1), None, &sys);
    assert_eq!(state_of(&states, 1).window_state(h(1)), WindowState::Floating);
}

#[test]
fn toggling_the_lock_twice_restores_it() {
    let mut states = two_monitors();
    states.toggle_monitor_lock();
    assert!(state_of(&states, 1).monitor_locked);
    states.toggle_monitor_lock();
    assert!(!state_of(&states, 1).monitor_locked && !state_of(&states, 2).monitor_locked);
}

#[test]
fn hook_events_follow_the_window() {
    let sys = FakeSystem::default();
    let mut states = two_monitors();
    states.entries[1].1.assign_to_zone(0, h(5), Rect::default());
    states.entries[1].1.switch_workspace(3, &sys);
    on_foreground(&mut states, h(5), &sys);
    assert_eq!(state_of(&states, 2).active_ws, 0);
    on_minimize_end(&mut states, h(5));
    on_window_destroyed(&mut states, h(5));
    assert_eq!(state_of(&states, 2).window_state(h(5)), WindowState::Ignored);
    let shown = FakeSystem { on_monitor: vec![h(6)], ..Default::default() };
    on_window_shown(&mut states, 1, &shown);
    assert_eq!(state_of(&states, 1).window_state(h(6)), WindowState::Floating);
    assert!(is_window_object(0, 0));
    assert!(!is_window_object(-4, 0));
}

#[test]
fn dragging_over_a_zone_drops_the_window_into_it() {
    let sys = FakeSystem::default();
    let mut states = two_monitors();
    states.entries[0].1.assign_to_zone(0, h(1), Rect::default());
    let mut ds = DragState::new(h(1), rect(0, 0, 960, 1080));
    let (wa, zones) = ds.overlay_request(&states, 2).unwrap();
    assert_eq!(wa, rect(1920, 0, 3840, 1080));
    ds.attach_overlay(h(100), zones, 2);
    assert_eq!(ds.highlight_at(3000, 500), Some((h(100), Some(1))));
    assert_eq!(ds.highlight_at(3001, 501), None);
    assert_eq!(ds.leave_monitor(2), None);
    let snap = on_drag_end(&mut states, &ds, &sys);
    sys.perform(snap.into_iter().collect());
    assert_eq!(state_of(&states, 1).window_state(h(1)), WindowState::Ignored);
    assert_eq!(state_of(&states, 2).window_state(h(1)), WindowState::Zoned(1));
    assert_eq!(*sys.snapped.borrow(), vec![(1, rect(2880, 0, 3840, 1080))]);
}

#[test]
fn dropping_outside_the_zones_floats_the_window() {
    let sys = FakeSystem::default();
    let mut states = two_monitors();
    states.entries[0].1.assign_to_zone(0, h(1), Rect::default());
    let mut ds = DragState::new(h(1), rect(0, 0, 960, 1080));
    assert_eq!(ds.hide_overlay(), None);
    assert_eq!(on_drag_end(&mut states, &ds, &sys), None);
    assert_eq!(state_of(&states, 1).window_state(h(1)), WindowState::Floating);
}

#[test]
fn zone_under_the_cursor() {
    let zones = vec![rect(0, 0, 100, 100), rect(100, 0, 200, 100)];
    assert_eq!(zone_at(&zones, 100, 50), Some(1));
    assert_eq!(zone_at(&zones, 99, 99), Some(0));
    assert_eq!(zone_at(&zones, 200, 50), None);
}

#[test]
fn keys_turn_into_hotkeys() {
    assert_eq!(modifier_bits(true, true, false, false), MOD_CONTROL | MOD_ALT);
    assert_eq!(modifier_bits(false, false, true, true), MOD_SHIFT | MOD_WIN);
    let mut reg = KeymapRegistry::new();
    reg.add_keymap(Keymap { mods: MOD_ALT, vk: 0x4E }, Action::WinCycle(true)).unwrap();
    assert_eq!(hotkey_for_key(&reg, false, true, false, false, 0x4E), Some(0));
    assert_eq!(hotkey_for_key(&reg, true, true, false, false, 0x4E), None);
}

#[test]
fn built_in_bindings() {
    assert_eq!(hjkl_dir(0x4B), Some(2));
    assert_eq!(hjkl_dir(0x41), None);
    assert_eq!(builtin_hotkey_id(0x33, true, true, false), Some(3));
    assert_eq!(builtin_hotkey_action(3), Some(Action::SetLayout(2)));
    assert_eq!(builtin_hotkey_id(0x31, false, true, false), Some(11));
    assert_eq!(builtin_hotkey_action(11), Some(Action::SetWorkspace(0)));
    assert_eq!(builtin_hotkey_id(0x39, false, true, true), Some(29));
    assert_eq!(builtin_hotkey_action(29), Some(Action::WinMoveWS(8)));
    assert_eq!(builtin_hotkey_id(0x4C, true, true, false), Some(44));
    assert_eq!(builtin_hotkey_action(44), Some(Action::WinSwap(Direction::Right)));
    assert_eq!(builtin_hotkey_id(0x50, false, true, false), Some(46));
    assert_eq!(builtin_hotkey_action(46), Some(Action::WinCycle(false)));
    assert_eq!(builtin_hotkey_id(0x31, false, false, false), None);
    assert_eq!(builtin_hotkey_action(0), None);
    assert_eq!(builtin_hotkey_action(47), None);
}

#[test]
fn window_geometry() {
    let off = frame_offsets(rect(107, 0, 893, 593), rect(100, 0, 900, 600)).unwrap();
    assert_eq!(off, FrameOffsets { left: 7, top: 0, right: 7, bottom: 7 });
    assert_eq!(snap_placement(rect(0, 0, 960, 1080), off, 2), Some((-5, 2, 970, 1083)));
    assert_eq!(snap_placement(rect(i32::MAX - 1, 0, i32::MAX, 10), off, 2), None);
    assert_eq!(frame_offsets(rect(i32::MAX, 0, 0, 0), rect(-1, 0, 0, 0)), None);
    assert_eq!(border_rect(rect(10, 10, 20, 20)), Some(rect(8, 8, 22, 22)));
    assert_eq!(border_rect(rect(i32::MIN, 10, 20, 20)), None);
    assert_eq!(is_manageable(true, false, 0, true, Some(rect(0, 0, 50, 50))), Some(true));
    assert_eq!(is_manageable(true, false, 0x80, true, Some(rect(0, 0, 500, 500))), Some(false));
    assert_eq!(is_manageable(true, false, 0, true, Some(rect(0, 0, 49, 500))), Some(false));
    assert_eq!(is_manageable(true, true, 0, true, Some(rect(0, 0, 500, 500))), Some(false));
    assert_eq!(is_manageable(true, false, 0, true, None), Some(false));
    assert_eq!(is_manageable(true, false, 0, true, Some(rect(i32::MIN, 0, i32::MAX, 100))), None);
}

#[test]
fn focus_border_colours() {
    let sys = FakeSystem::default();
    let mut states = two_monitors();
    states.entries[0].1.assign_to_zone(0, h(1), Rect::default());
    assert_eq!(focus_border_style(&states, 1, h(1), h(1)), Some((0x00FFA269, None)));
    states.entries[0].1.set_floating(h(1));
    assert_eq!(focus_border_style(&states, 1, h(1), h(4)), Some((0x0067B051, Some(h(4)))));
    assert_eq!(focus_border_style(&states, 9, h(1), h(4)), None);
}

#[test]
fn tray_icon_is_one_colour() {
    let px = icon_rgba();
    assert_eq!(px.len(), 16 * 16 * 4);
    assert_eq!(&px[0..4], &[0x20, 0x80, 0xd0, 0xff]);
    assert_eq!(&px[1020..1024], &[0x20, 0x80, 0xd0, 0xff]);
}

#[test]
fn dropping_outside_unresized_restores_the_pre_snap_rect() {
    let mut states = two_monitors();
    states.entries[0].1.assign_to_zone(0, h(1), rect(50, 50, 650, 450));
    drop_outside_with(&mut states, h(1), rect(0, 0, 960, 1080), Some(rect(300, 300, 1260, 1380)));
    assert_eq!(state_of(&states, 1).window_state(h(1)), WindowState::Floating);
    assert_eq!(states.take_commands(), vec![SysCall::Restore(h(1), rect(50, 50, 650, 450))]);
}

#[test]
fn dropping_outside_after_a_resize_keeps_the_new_size() {
    let mut states = two_monitors();
    states.entries[0].1.assign_to_zone(0, h(1), rect(50, 50, 650, 450));
    drop_outside_with(&mut states, h(1), rect(0, 0, 960, 1080), Some(rect(0, 0, 800, 600)));
    assert_eq!(state_of(&states, 1).window_state(h(1)), WindowState::Floating);
    assert!(states.take_commands().is_empty());
}

#[test]
fn dropping_an_untracked_window_outside_changes_nothing() {
    let mut states = two_monitors();
    drop_outside_with(&mut states, h(9), rect(0, 0, 10, 10), None);
    assert_eq!(state_of(&states, 1).window_state(h(9)), WindowState::Ignored);
    assert!(states.take_commands().is_empty());
}

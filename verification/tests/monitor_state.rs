use std::cell::RefCell;
use std::collections::{HashMap, HashSet};

use zonewm::models::monitor::{Monitor, Rect};
use zonewm::models::system::{Hmonitor, Hwnd, SysCall, WindowSystem};
use zonewm::models::zone::{Axis, Layout, ZoneNode};
use zonewm::state::monitor_state::MonitorState;
use zonewm::state::window_state::WindowState;
use zonewm::state::workspace::WORKSPACE_COUNT;

fn h(n: isize) -> Hwnd {
    Hwnd(n)
}

#[derive(Default)]
struct MockSystem {
    minimized: HashSet<isize>,
    rects: HashMap<isize, Rect>,
    on_monitor: Vec<Hwnd>,
    snapped: RefCell<Vec<(isize, Rect)>>,
    cloaked: RefCell<HashMap<isize, bool>>,
    brought_to_front: RefCell<Vec<isize>>,
    foreground: isize,
}

impl MockSystem {
    fn with_minimized(mut self, hwnd: Hwnd) -> Self {
        self.minimized.insert(hwnd.0);
        self
    }
    fn with_rect(mut self, hwnd: Hwnd, rect: Rect) -> Self {
        self.rects.insert(hwnd.0, rect);
        self
    }
    fn is_cloaked(&self, hwnd: Hwnd) -> bool {
        *self.cloaked.borrow().get(&hwnd.0).unwrap_or(&false)
    }
}

impl MockSystem {
    /// Carries out queued system calls, recording what they did.
    fn perform(&self, calls: Vec<SysCall>) {
        for c in calls {
            match c {
                SysCall::Snap(hwnd, rect) => self.snapped.borrow_mut().push((hwnd.0, rect)),
                SysCall::Restore(_, _) => {}
                SysCall::Cloak(hwnd, cloaked) => {
                    self.cloaked.borrow_mut().insert(hwnd.0, cloaked);
                }
                SysCall::BringToFront(hwnd) => self.brought_to_front.borrow_mut().push(hwnd.0),
            }
        }
    }
}

impl WindowSystem for MockSystem {
    fn enumerate_on_monitor(&self, _hmon: Hmonitor) -> Vec<Hwnd> {
        self.on_monitor.clone()
    }
    fn is_minimized(&self, hwnd: Hwnd) -> bool {
        self.minimized.contains(&hwnd.0)
    }
    fn window_rect(&self, hwnd: Hwnd) -> Option<Rect> {
        self.rects.get(&hwnd.0).copied()
    }
    fn foreground_window(&self) -> Hwnd {
        Hwnd(self.foreground)
    }
}

fn rect(left: i32, top: i32, right: i32, bottom: i32) -> Rect {
    Rect { left, top, right, bottom }
}

fn make_monitor() -> Monitor {
    Monitor {
        handle: Hmonitor(1),
        work_area: rect(0, 0, 1920, 1080),
        device_name: r"\\.\DISPLAY1".to_string(),
        device_id: "test-monitor-1".to_string(),
    }
}

fn two_col_layout() -> Layout {
    Layout {
        name: "2-col".to_string(),
        zones: vec![rect(0, 0, 960, 1080), rect(960, 0, 1920, 1080)],
        tree: ZoneNode::Split { axis: Axis::Horizontal, children: vec![ZoneNode::Leaf(0), ZoneNode::Leaf(1)] },
    }
}

fn two_by_two_layout() -> Layout {
    Layout {
        name: "2x2".to_string(),
        zones: vec![rect(0, 0, 960, 540), rect(960, 0, 1920, 540), rect(0, 540, 960, 1080), rect(960, 540, 1920, 1080)],
        tree: ZoneNode::Split {
            axis: Axis::Vertical,
            children: vec![
                ZoneNode::Split { axis: Axis::Horizontal, children: vec![ZoneNode::Leaf(0), ZoneNode::Leaf(1)] },
                ZoneNode::Split { axis: Axis::Horizontal, children: vec![ZoneNode::Leaf(2), ZoneNode::Leaf(3)] },
            ],
        },
    }
}

fn make_layouts(layouts: Vec<fn() -> Layout>) -> Vec<Option<Layout>> {
    assert!(layouts.len() <= WORKSPACE_COUNT, "Too many layouts");
    let mut slots: Vec<Option<Layout>> = Vec::new();
    for i in 0..WORKSPACE_COUNT {
        slots.push(layouts.get(i).map(|f| f()));
    }
    slots
}

fn make_state() -> MonitorState {
    MonitorState::new(make_monitor(), make_layouts(vec![two_col_layout]))
}

#[test]
fn assign_places_window_in_zone() {
    let mut ms = make_state();
    ms.assign_to_zone(0, h(1), Rect::default());
    assert_eq!(ms.window_state(h(1)), WindowState::Zoned(0));
}

#[test]
fn window_state_is_ignored_when_untracked() {
    let ms = make_state();
    assert_eq!(ms.window_state(h(99)), WindowState::Ignored);
}

#[test]
fn reassign_moves_window_to_new_zone() {
    let mut ms = make_state();
    ms.assign_to_zone(0, h(1), Rect::default());
    ms.assign_to_zone(1, h(1), Rect::default());
    assert_eq!(ms.window_state(h(1)), WindowState::Zoned(1));
}

#[test]
fn window_state_is_floating_after_set_floating() {
    let mut ms = make_state();
    let sys = MockSystem::default();
    ms.assign_to_zone(0, h(1), Rect::default());
    ms.set_floating(h(1));
    assert_eq!(ms.window_state(h(1)), WindowState::Floating);
}

#[test]
fn detach_window_removes_from_tracking() {
    let mut ms = make_state();
    ms.assign_to_zone(0, h(1), Rect::default());
    ms.detach_window(h(1));
    assert_eq!(ms.window_state(h(1)), WindowState::Ignored);
}

#[test]
fn capture_all_windows_tracks_untracked_windows_as_floating() {
    let mut ms = make_state();
    let sys = MockSystem { on_monitor: vec![h(1)], ..Default::default() };
    ms.capture_all_windows(&sys);
    assert_eq!(ms.window_state(h(1)), WindowState::Floating);
}

#[test]
fn capture_all_windows_does_not_redetect_window_on_inactive_workspace() {
    let mut ms = make_state();
    let move_sys = MockSystem::default().with_rect(h(1), Rect::default());
    ms.move_window_to_workspace(h(1), 1, &move_sys);
    let sys = MockSystem { on_monitor: vec![h(1)], ..Default::default() };
    ms.capture_all_windows(&sys);
    assert_eq!(ms.find_workspace(h(1)), Some(1));
}

#[test]
fn switch_workspace_cloaks_windows_on_old_workspace() {
    let sys = MockSystem::default();
    let mut ms = make_state();
    ms.assign_to_zone(0, h(1), Rect::default());
    ms.switch_workspace(1, &sys);
    sys.perform(ms.take_commands());
    assert!(sys.is_cloaked(h(1)));
}

#[test]
fn switch_workspace_uncloaks_windows_on_new_workspace() {
    let sys = MockSystem::default().with_rect(h(2), Rect::default());
    let mut ms = make_state();
    ms.assign_to_zone(0, h(1), Rect::default());

    ms.move_window_to_workspace(h(2), 1, &sys);
    ms.switch_workspace(1, &sys);
    sys.perform(ms.take_commands());
    assert!(!sys.is_cloaked(h(2)));
}

#[test]
fn move_to_workspace_arrives_as_zoned_if_index_in_bound() {
    let sys = MockSystem::default().with_rect(h(1), Rect::default());
    let mut ms = make_state();
    ms.assign_to_zone(0, h(1), Rect::default());
    ms.move_window_to_workspace(h(1), 1, &sys);
    ms.switch_workspace(1, &sys);
    assert_eq!(ms.window_state(h(1)), WindowState::Zoned(0));
}

#[test]
fn move_to_workspace_arrives_as_floating_if_index_out_of_bounds() {
    let sys = MockSystem::default().with_rect(h(1), Rect::default());
    let mut ms = make_state();
    ms.layouts = make_layouts(vec![two_by_two_layout, two_col_layout]);

    ms.assign_to_zone(3, h(1), Rect::default());
    ms.move_window_to_workspace(h(1), 1, &sys);
    ms.switch_workspace(1, &sys);
    assert_eq!(ms.window_state(h(1)), WindowState::Floating);
}

#[test]
fn topmost_in_zone_returns_last_added() {
    let sys = MockSystem::default();
    let mut ms = make_state();
    ms.assign_to_zone(0, h(1), Rect::default());
    ms.assign_to_zone(0, h(2), Rect::default());
    assert_eq!(ms.topmost_in_zone(0, &sys), Some(h(2)));
}

#[test]
fn topmost_in_zone_skips_minimized() {
    let mut ms = make_state();
    ms.assign_to_zone(0, h(1), Rect::default());
    ms.assign_to_zone(0, h(2), Rect::default());
    let sys = MockSystem::default().with_minimized(h(2));
    assert_eq!(ms.topmost_in_zone(0, &sys), Some(h(1)));
}

#[test]
fn topmost_in_zone_returns_none_when_all_minimized() {
    let mut ms = make_state();
    ms.assign_to_zone(0, h(1), Rect::default());
    let sys = MockSystem::default().with_minimized(h(1));
    assert_eq!(ms.topmost_in_zone(0, &sys), None);
}

#[test]
fn topmost_in_zone_tracks_window_focused_via_cycle() {
    let sys = MockSystem::default();
    let mut ms = make_state();
    ms.assign_to_zone(0, h(1), Rect::default());
    ms.assign_to_zone(0, h(2), Rect::default());

    assert_eq!(ms.cycle_window_in_zone(h(2), false, &sys), Some(h(1)));
    assert_eq!(ms.topmost_in_zone(0, &sys), Some(h(1)));
}

#[test]
fn zoned_focus_candidates_tracks_window_focused_via_cycle_in_left_zone() {
    let sys = MockSystem::default();
    let mut ms = make_state();
    ms.assign_to_zone(0, h(1), Rect::default());
    ms.assign_to_zone(0, h(2), Rect::default());
    ms.assign_to_zone(1, h(3), Rect::default());

    ms.cycle_window_in_zone(h(2), false, &sys);

    let candidates = ms.zoned_focus_candidates(&sys);
    let zone0_rect = Rect { left: 0, top: 0, right: 960, bottom: 1080 };
    let zone0_candidate = candidates.iter().find(|&&(_, r)| r == zone0_rect).map(|&(h, _)| h);

    assert_eq!(zone0_candidate, Some(h(1)));
}

#[test]
fn cycle_forward_through_full_zone_is_a_clean_round_robin() {
    let sys = MockSystem::default();
    let mut ms = make_state();
    ms.assign_to_zone(0, h(1), Rect::default());
    ms.assign_to_zone(0, h(2), Rect::default());
    ms.assign_to_zone(0, h(3), Rect::default());

    let first = ms.cycle_window_in_zone(h(3), true, &sys).unwrap();
    let second = ms.cycle_window_in_zone(first, true, &sys).unwrap();
    let third = ms.cycle_window_in_zone(second, true, &sys).unwrap();

    let mut visited = [first, second, third];
    visited.sort_by_key(|h| h.0);
    assert_eq!(visited, [h(1), h(2), h(3)]);
    assert_eq!(third, h(3));
}

#[test]
fn cycle_forward_moves_to_next_window() {
    let sys = MockSystem::default();
    let mut ms = make_state();
    ms.assign_to_zone(0, h(1), Rect::default());
    ms.assign_to_zone(0, h(2), Rect::default());
    ms.assign_to_zone(0, h(3), Rect::default());
    assert_eq!(ms.cycle_window_in_zone(h(1), true, &sys), Some(h(2)));
}

#[test]
fn cycle_forward_wraps_around() {
    let sys = MockSystem::default();
    let mut ms = make_state();
    ms.assign_to_zone(0, h(1), Rect::default());
    ms.assign_to_zone(0, h(2), Rect::default());
    assert_eq!(ms.cycle_window_in_zone(h(2), true, &sys), Some(h(1)));
}

#[test]
fn cycle_skips_minimized() {
    let mut ms = make_state();
    ms.assign_to_zone(0, h(1), Rect::default());
    ms.assign_to_zone(0, h(2), Rect::default());
    ms.assign_to_zone(0, h(3), Rect::default());
    let sys = MockSystem::default().with_minimized(h(2));
    assert_eq!(ms.cycle_window_in_zone(h(1), true, &sys), Some(h(3)));
}

#[test]
fn first_visible_returns_topmost_zoned_window() {
    let sys = MockSystem::default();
    let mut ms = make_state();
    ms.assign_to_zone(0, h(1), Rect::default());
    ms.assign_to_zone(0, h(2), Rect::default());
    assert_eq!(ms.get_last_focused_window(&sys), Some(h(2)));
}

#[test]
fn first_visible_skips_minimized() {
    let mut ms = make_state();
    ms.assign_to_zone(0, h(1), Rect::default());
    ms.assign_to_zone(0, h(2), Rect::default());
    let sys = MockSystem::default().with_minimized(h(2));
    assert_eq!(ms.get_last_focused_window(&sys), Some(h(1)));
}

#[test]
fn first_visible_falls_back_to_floating() {
    let sys = MockSystem::default();
    let mut ms = make_state();
    let sys_m = MockSystem::default();
    ms.assign_to_zone(0, h(1), Rect::default());
    ms.set_floating(h(1));
    assert_eq!(ms.get_last_focused_window(&sys), Some(h(1)));
}

#[test]
fn zoned_focus_candidates_one_per_zone_using_topmost() {
    let sys = MockSystem::default();
    let mut ms = make_state();
    ms.assign_to_zone(0, h(1), Rect::default());
    ms.assign_to_zone(0, h(2), Rect::default());
    ms.assign_to_zone(1, h(3), Rect::default());

    let mut candidates = ms.zoned_focus_candidates(&sys);
    candidates.sort_by_key(|&(h, _)| h.0);
    assert_eq!(
        candidates,
        vec![
            (h(2), Rect { left: 0, top: 0, right: 960, bottom: 1080 }),
            (h(3), Rect { left: 960, top: 0, right: 1920, bottom: 1080 }),
        ]
    );
}

#[test]
fn zoned_focus_candidates_skips_empty_and_all_minimized_zones() {
    let mut ms = make_state();
    ms.assign_to_zone(1, h(1), Rect::default());
    let sys = MockSystem::default().with_minimized(h(1));
    assert_eq!(ms.zoned_focus_candidates(&sys), vec![]);
}

#[test]
fn floating_focus_candidates_uses_actual_window_rect() {
    let mut ms = make_state();
    let sys = MockSystem::default().with_rect(h(1), Rect { left: 100, top: 100, right: 300, bottom: 300 });
    ms.assign_to_zone(0, h(1), Rect::default());
    ms.set_floating_in_place(h(1));
    assert_eq!(ms.floating_focus_candidates(&sys), vec![(h(1), Rect { left: 100, top: 100, right: 300, bottom: 300 })]);
}

#[test]
fn floating_focus_candidates_includes_untracked_windows_on_monitor() {
    let sys = MockSystem {
        on_monitor: vec![h(9)],
        rects: HashMap::from([(9, Rect { left: 50, top: 50, right: 150, bottom: 150 })]),
        ..Default::default()
    };
    let ms = make_state();
    assert_eq!(ms.floating_focus_candidates(&sys), vec![(h(9), Rect { left: 50, top: 50, right: 150, bottom: 150 })]);
}

#[test]
fn new_state_starts_on_the_first_workspace_with_the_first_layout() {
    let ms = make_state();
    assert_eq!(ms.active_ws, 0);
    assert!(ms.monitor_locked);
    assert_eq!(ms.workspace1_layout_idx(), 0);
    assert_eq!(ms.active_zone_rects(), vec![rect(0, 0, 960, 1080), rect(960, 0, 1920, 1080)]);
    assert_eq!(ms.monitor_key(), "test-monitor-1");
    assert_eq!(ms.layout_len(0), Some(2));
    assert_eq!(ms.layout_len(1), None);
}

#[test]
fn moving_to_a_zone_snaps_the_window_there() {
    let sys = MockSystem::default().with_rect(h(5), rect(10, 10, 500, 500));
    let mut ms = make_state();
    ms.move_window_to_zone_idx(h(5), 1, &sys);
    sys.perform(ms.take_commands());
    assert_eq!(ms.window_state(h(5)), WindowState::Zoned(1));
    assert_eq!(*sys.snapped.borrow(), vec![(5, rect(960, 0, 1920, 1080))]);
}

#[test]
fn capture_snaps_a_window_close_to_a_zone() {
    let sys = MockSystem { on_monitor: vec![h(7)], ..Default::default() }.with_rect(h(7), rect(960, 10, 1900, 1070));
    let mut ms = make_state();
    ms.capture_all_windows(&sys);
    assert_eq!(ms.window_state(h(7)), WindowState::Zoned(1));
}

#[test]
fn switching_layout_resizes_the_zones() {
    let mut ms = make_state();
    ms.layouts = make_layouts(vec![two_col_layout, two_by_two_layout]);
    ms.assign_to_zone(1, h(1), Rect::default());
    ms.switch_layout(1);
    assert_eq!(ms.active_zone_rects().len(), 4);
    assert_eq!(ms.window_state(h(1)), WindowState::Zoned(1));
    ms.switch_layout(5);
    assert_eq!(ms.active_zone_rects().len(), 4);
}

#[test]
fn move_to_workspace_without_a_rect_does_nothing() {
    let sys = MockSystem::default();
    let mut ms = make_state();
    assert!(!ms.move_window_to_workspace(h(4), 1, &sys));
    assert_eq!(ms.window_state(h(4)), WindowState::Ignored);
}

#[test]
fn window_records_list_every_tracked_window() {
    let sys = MockSystem::default();
    let mut ms = make_state();
    ms.assign_to_zone(0, h(1), Rect::default());
    ms.assign_to_zone(0, h(2), Rect::default());
    ms.assign_to_zone(1, h(3), Rect::default());
    ms.set_floating(h(3));
    let records = ms.all_window_records();
    assert_eq!(records.len(), 3);
    assert!(records.iter().any(|r| r.hwnd == h(3) && r.state == WindowState::Floating));
}

#[test]
fn set_floating_queues_restoring_the_pre_snap_rect() {
    let mut ms = make_state();
    ms.assign_to_zone(0, h(1), rect(100, 100, 700, 500));
    ms.assign_to_zone(1, h(2), Rect::default());
    ms.set_floating(h(1));
    ms.set_floating(h(2));
    assert_eq!(ms.take_commands(), vec![SysCall::Restore(h(1), rect(100, 100, 700, 500))]);
    assert!(ms.take_commands().is_empty());
}

#[test]
fn moving_to_another_workspace_queues_the_cloak() {
    let sys = MockSystem::default();
    let mut ms = make_state();
    ms.assign_to_zone(1, h(3), rect(0, 0, 10, 10));
    assert!(ms.move_window_to_workspace(h(3), 2, &sys));
    assert_eq!(ms.take_commands(), vec![SysCall::Cloak(h(3), true)]);
    assert_eq!(ms.find_workspace(h(3)), Some(2));
}

#[test]
fn switching_workspaces_cloaks_then_uncloaks_then_snaps() {
    let sys = MockSystem::default().with_rect(h(2), rect(0, 0, 10, 10));
    let mut ms = make_state();
    ms.assign_to_zone(0, h(1), Rect::default());
    ms.assign_to_zone(1, h(2), rect(0, 0, 10, 10));
    ms.move_window_to_workspace(h(2), 1, &sys);
    ms.take_commands();
    ms.switch_workspace(1, &sys);
    assert_eq!(
        ms.take_commands(),
        vec![
            SysCall::Cloak(h(1), true),
            SysCall::Cloak(h(2), false),
            SysCall::Snap(h(2), rect(960, 0, 1920, 1080)),
        ]
    );
}

#[test]
fn uncloak_all_queues_every_window() {
    let sys = MockSystem::default();
    let mut ms = make_state();
    ms.assign_to_zone(0, h(1), Rect::default());
    ms.assign_to_zone(1, h(2), rect(0, 0, 10, 10));
    ms.move_window_to_workspace(h(2), 3, &sys);
    ms.take_commands();
    ms.uncloak_all();
    assert_eq!(ms.take_commands(), vec![SysCall::Cloak(h(1), false), SysCall::Cloak(h(2), false)]);
}

#[test]
fn reflow_snaps_only_windows_not_already_there() {
    let mut ms = make_state();
    ms.assign_to_zone(0, h(1), Rect::default());
    ms.reflow();
    ms.reflow();
    assert_eq!(ms.take_commands(), vec![SysCall::Snap(h(1), rect(0, 0, 960, 1080))]);
}

#[test]
fn captured_windows_snap_or_float_by_the_rects_given() {
    let mut ms = make_state();
    ms.assign_to_zone(0, h(1), Rect::default());
    let on = vec![h(1), h(2), h(3), h(4)];
    assert_eq!(ms.unowned_windows(&on), vec![h(2), h(3), h(4)]);
    ms.capture_windows(&on, &vec![Some(rect(970, 5, 1900, 1070)), Some(rect(100, 100, 300, 300)), None]);
    assert_eq!(ms.window_state(h(2)), WindowState::Zoned(1));
    assert_eq!(ms.window_state(h(3)), WindowState::Floating);
    assert_eq!(ms.window_state(h(4)), WindowState::Floating);
    assert_eq!(
        ms.take_commands(),
        vec![SysCall::Snap(h(1), rect(0, 0, 960, 1080)), SysCall::Snap(h(2), rect(960, 0, 1920, 1080))]
    );
}

#[test]
fn moving_to_a_workspace_needs_a_known_rect() {
    let mut ms = make_state();
    ms.workspaces[0].floating.push(h(5));
    ms.hwnd_ws.insert(5, 0);
    assert!(!ms.move_window_to_workspace_with(h(5), 1, None));
    assert_eq!(ms.find_workspace(h(5)), Some(0));
    assert!(ms.move_window_to_workspace_with(h(5), 1, Some(rect(10, 20, 410, 320))));
    assert_eq!(ms.find_workspace(h(5)), Some(1));
    assert_eq!(
        ms.take_commands(),
        vec![SysCall::Restore(h(5), rect(10, 20, 410, 320)), SysCall::Cloak(h(5), true)]
    );
}

use zonewm::models::monitor::Rect;
use zonewm::models::system::{Hwnd, SNAP_GAP};
use zonewm::state::window_state::{nearest_in_dir, Direction};

fn h(n: isize) -> Hwnd {
    Hwnd(n)
}

#[test]
fn nearest_in_dir_works_with_zone_slot_candidates() {
    let candidates = [
        ((1isize, 0usize), Rect { left: 1000, top: 0, right: 1920, bottom: 1080 }),
        ((1isize, 1usize), Rect { left: 500, top: 0, right: 600, bottom: 1080 }),
    ];
    let from = Rect { left: 0, top: 0, right: 500, bottom: 1080 };
    assert_eq!(nearest_in_dir(&candidates, from, Direction::Right), Some((1, 1)));
}

#[test]
fn nearest_window_in_dir_maps_to_hwnd() {
    let candidates = [
        (h(10), Rect { left: 1000, top: 0, right: 1920, bottom: 1080 }),
        (h(20), Rect { left: 500, top: 0, right: 600, bottom: 1080 }),
    ];
    let from = Rect { left: 0, top: 0, right: 500, bottom: 1080 };
    assert_eq!(nearest_in_dir(&candidates, from, Direction::Right), Some(h(20)));
}

#[test]
fn nearest_window_in_dir_prefers_smaller_gap_over_larger_shared_edge() {
    let candidates = [
        (h(10), Rect { left: 600, top: 0, right: 1100, bottom: 1080 }),
        (h(20), Rect { left: 510, top: 0, right: 700, bottom: 300 }),
    ];
    let from = Rect { left: 0, top: 0, right: 500, bottom: 1080 };
    assert_eq!(nearest_in_dir(&candidates, from, Direction::Right), Some(h(20)));
}

#[test]
fn nearest_window_in_dir_prefers_negative_gap_over_flush_zone_with_full_edge_share() {
    let candidates = [
        (h(10), Rect { left: 500, top: 0, right: 1000, bottom: 1080 }),
        (h(20), Rect { left: 480, top: 0, right: 700, bottom: 200 }),
    ];
    let from = Rect { left: 0, top: 0, right: 500, bottom: 1080 };
    assert_eq!(nearest_in_dir(&candidates, from, Direction::Right), Some(h(20)));
}

#[test]
fn nearest_window_in_dir_prefers_smaller_gap_when_shared_edge_ties() {
    let candidates = [
        (h(10), Rect { left: 500, top: 0, right: 700, bottom: 1080 }),
        (h(20), Rect { left: 480, top: 0, right: 700, bottom: 1080 }),
    ];
    let from = Rect { left: 0, top: 0, right: 500, bottom: 1080 };
    assert_eq!(nearest_in_dir(&candidates, from, Direction::Right), Some(h(20)));
}

#[test]
fn nearest_window_in_dir_excludes_physically_overlapping_candidate() {
    let candidates = [
        (h(10), Rect { left: 100, top: 100, right: 400, bottom: 900 }),
        (h(20), Rect { left: 500, top: 0, right: 700, bottom: 1080 }),
    ];
    let from = Rect { left: 0, top: 0, right: 500, bottom: 1080 };
    assert_eq!(nearest_in_dir(&candidates, from, Direction::Right), Some(h(20)));
}

#[test]
fn nearest_window_in_dir_none_when_only_candidate_overlaps() {
    let candidates = [(h(10), Rect { left: 100, top: 100, right: 400, bottom: 900 })];
    let from = Rect { left: 0, top: 0, right: 500, bottom: 1080 };
    assert_eq!(nearest_in_dir(&candidates, from, Direction::Right), None);
}

fn visible_rect_for_zone(zone: Rect) -> Rect {
    Rect {
        left: zone.left + SNAP_GAP,
        top: zone.top + SNAP_GAP,
        right: zone.right - SNAP_GAP,
        bottom: zone.bottom - SNAP_GAP,
    }
}

/// The zones of a 2x2 grid split into columns first: top-left, bottom-left, top-right,
/// bottom-right, on a 1920x1080 work area.
fn two_by_two_zones() -> Vec<Rect> {
    vec![
        Rect { left: 0, top: 0, right: 960, bottom: 540 },
        Rect { left: 0, top: 540, right: 960, bottom: 1080 },
        Rect { left: 960, top: 0, right: 1920, bottom: 540 },
        Rect { left: 960, top: 540, right: 1920, bottom: 1080 },
    ]
}

#[test]
fn focus_up_from_bottom_right_reaches_top_right() {
    let zones = two_by_two_zones();
    let (tl, bl, tr, br) = (zones[0], zones[1], zones[2], zones[3]);
    let candidates = [(h(1), tl), (h(2), bl), (h(3), tr)];
    let from = visible_rect_for_zone(br);
    assert_eq!(nearest_in_dir(&candidates, from, Direction::Up), Some(h(3)));
}

#[test]
fn focus_down_from_top_left_is_noop_when_bottom_left_empty() {
    let zones = two_by_two_zones();
    let (tl, tr, br) = (zones[0], zones[2], zones[3]);
    let candidates = [(h(3), tr), (h(4), br)];
    let from = visible_rect_for_zone(tl);
    assert_eq!(nearest_in_dir(&candidates, from, Direction::Down), None);
}

#[test]
fn focus_up_from_bottom_right_is_noop_when_top_right_empty() {
    let zones = two_by_two_zones();
    let (tl, br) = (zones[0], zones[3]);
    let candidates = [(h(1), tl)];
    let from = visible_rect_for_zone(br);
    assert_eq!(nearest_in_dir(&candidates, from, Direction::Up), None);
}

#[test]
fn focus_down_from_top_left_is_noop_when_only_diagonal_occupied() {
    let zones = two_by_two_zones();
    let (tl, br) = (zones[0], zones[3]);
    let candidates = [(h(4), br)];
    let from = visible_rect_for_zone(tl);
    assert_eq!(nearest_in_dir(&candidates, from, Direction::Down), None);
}

#[test]
fn focus_right_from_top_left_is_noop_when_only_diagonal_occupied() {
    let zones = two_by_two_zones();
    let (tl, br) = (zones[0], zones[3]);
    let candidates = [(h(4), br)];
    let from = visible_rect_for_zone(tl);
    assert_eq!(nearest_in_dir(&candidates, from, Direction::Right), None);
}

#[test]
fn direction_from_index() {
    assert_eq!(Direction::from_idx(0), Some(Direction::Left));
    assert_eq!(Direction::from_idx(3), Some(Direction::Right));
    assert_eq!(Direction::from_idx(4), None);
}

#[test]
fn nearest_in_dir_on_each_side() {
    let from = Rect { left: 500, top: 500, right: 600, bottom: 600 };
    let candidates = [
        (h(1), Rect { left: 300, top: 500, right: 450, bottom: 600 }),
        (h(2), Rect { left: 650, top: 500, right: 800, bottom: 600 }),
        (h(3), Rect { left: 500, top: 300, right: 600, bottom: 450 }),
        (h(4), Rect { left: 500, top: 650, right: 600, bottom: 800 }),
    ];
    assert_eq!(nearest_in_dir(&candidates, from, Direction::Left), Some(h(1)));
    assert_eq!(nearest_in_dir(&candidates, from, Direction::Right), Some(h(2)));
    assert_eq!(nearest_in_dir(&candidates, from, Direction::Up), Some(h(3)));
    assert_eq!(nearest_in_dir(&candidates, from, Direction::Down), Some(h(4)));
}

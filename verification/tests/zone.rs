use zonewm::models::monitor::Rect;
use zonewm::models::zone::{Axis, Layout, Reach, ZoneNode};

fn work_area() -> Rect {
    Rect { left: 0, top: 0, right: 1920, bottom: 1080 }
}

fn rect(left: i32, top: i32, right: i32, bottom: i32) -> Rect {
    Rect { left, top, right, bottom }
}

fn two_col_layout() -> Layout {
    Layout {
        name: "2-col".to_string(),
        zones: vec![rect(0, 0, 960, 1080), rect(960, 0, 1920, 1080)],
        tree: ZoneNode::Split { axis: Axis::Horizontal, children: vec![ZoneNode::Leaf(0), ZoneNode::Leaf(1)] },
    }
}

fn two_by_two_layout() -> Layout {
    Layout {
        name: "2x2".to_string(),
        zones: vec![rect(0, 0, 960, 540), rect(960, 0, 1920, 540), rect(0, 540, 960, 1080), rect(960, 540, 1920, 1080)],
        tree: ZoneNode::Split {
            axis: Axis::Vertical,
            children: vec![
                ZoneNode::Split { axis: Axis::Horizontal, children: vec![ZoneNode::Leaf(0), ZoneNode::Leaf(1)] },
                ZoneNode::Split { axis: Axis::Horizontal, children: vec![ZoneNode::Leaf(2), ZoneNode::Leaf(3)] },
            ],
        },
    }
}

#[test]
fn unstretched_reach_is_the_leaf_own_rect() {
    let layout = two_col_layout();
    assert_eq!(layout.bounds_for_reach(0, Reach::default()), Rect { left: 0, top: 0, right: 960, bottom: 1080 });
}

#[test]
fn growing_right_from_left_column_covers_whole_layout() {
    let layout = two_col_layout();
    let mut reach = Reach::default();
    reach.grow(Axis::Horizontal, true);
    assert_eq!(layout.bounds_for_reach(0, reach), work_area());
}

#[test]
fn growing_left_from_leftmost_leaf_is_a_no_op() {
    let layout = two_col_layout();
    let mut reach = Reach::default();
    reach.grow(Axis::Horizontal, false);
    assert_eq!(layout.bounds_for_reach(0, reach), layout.bounds_for_reach(0, Reach::default()));
}

#[test]
fn growing_along_unrelated_axis_is_a_no_op() {
    let layout = two_col_layout();
    let mut reach = Reach::default();
    reach.grow(Axis::Vertical, true);
    assert_eq!(layout.bounds_for_reach(0, reach), layout.bounds_for_reach(0, Reach::default()));
}

#[test]
fn growing_in_2x2_grid_consumes_only_the_matching_axis_sibling() {
    let layout = two_by_two_layout();
    let mut right = Reach::default();
    right.grow(Axis::Horizontal, true);
    assert_eq!(layout.bounds_for_reach(0, right), Rect { left: 0, top: 0, right: 1920, bottom: 540 });

    let mut down = Reach::default();
    down.grow(Axis::Vertical, true);
    assert_eq!(layout.bounds_for_reach(0, down), Rect { left: 0, top: 0, right: 960, bottom: 1080 });
}

#[test]
fn growing_consumes_entire_subdivided_sibling_subtree() {
    let layout = Layout {
        name: "left-1-right-2".to_string(),
        zones: vec![rect(0, 0, 960, 1080), rect(960, 0, 1920, 540), rect(960, 540, 1920, 1080)],
        tree: ZoneNode::Split {
            axis: Axis::Horizontal,
            children: vec![
                ZoneNode::Leaf(0),
                ZoneNode::Split { axis: Axis::Vertical, children: vec![ZoneNode::Leaf(1), ZoneNode::Leaf(2)] },
            ],
        },
    };

    let mut reach = Reach::default();
    reach.grow(Axis::Horizontal, true);
    assert_eq!(layout.bounds_for_reach(0, reach), work_area());
}

#[test]
fn growing_from_partial_leaf_keeps_its_own_cross_axis_bounds() {
    let layout = Layout {
        name: "left-2-right-1".to_string(),
        zones: vec![rect(0, 0, 960, 540), rect(0, 540, 960, 1080), rect(960, 0, 1920, 1080)],
        tree: ZoneNode::Split {
            axis: Axis::Horizontal,
            children: vec![
                ZoneNode::Split { axis: Axis::Vertical, children: vec![ZoneNode::Leaf(0), ZoneNode::Leaf(1)] },
                ZoneNode::Leaf(2),
            ],
        },
    };

    let mut reach = Reach::default();
    reach.grow(Axis::Horizontal, true);
    assert_eq!(layout.bounds_for_reach(0, reach), Rect { left: 0, top: 0, right: 1920, bottom: 540 });
}

#[test]
fn repeated_growth_climbs_one_more_ancestor_each_time() {
    let layout = Layout {
        name: "3-col".to_string(),
        zones: vec![rect(0, 0, 640, 1080), rect(640, 0, 1280, 1080), rect(1280, 0, 1920, 1080)],
        tree: ZoneNode::Split {
            axis: Axis::Horizontal,
            children: vec![ZoneNode::Leaf(0), ZoneNode::Leaf(1), ZoneNode::Leaf(2)],
        },
    };

    let mut reach = Reach::default();
    reach.grow(Axis::Horizontal, true);
    let one_step = layout.bounds_for_reach(0, reach);
    assert_eq!(one_step, Rect { left: 0, top: 0, right: 1280, bottom: 1080 });

    reach.grow(Axis::Horizontal, true);
    let two_steps = layout.bounds_for_reach(0, reach);
    assert_eq!(two_steps, work_area());
}

#[test]
fn shrink_releases_the_opposite_edge_toward_the_given_direction() {
    let layout = two_col_layout();
    let mut reach = Reach::default();
    reach.grow(Axis::Horizontal, true);
    assert_eq!(layout.bounds_for_reach(0, reach), work_area());

    reach.shrink(Axis::Horizontal, false);
    assert_eq!(layout.bounds_for_reach(0, reach), Rect { left: 0, top: 0, right: 960, bottom: 1080 });
}

#[test]
fn shrink_below_zero_is_a_no_op() {
    let mut reach = Reach::default();
    reach.shrink(Axis::Horizontal, false);
    assert_eq!(reach, Reach::default());
}

#[test]
fn shrinking_the_opposite_edge_undoes_a_grow() {
    let start = Reach { neg_h: 1, pos_h: 2, neg_v: 3, pos_v: 4 };
    let mut r = start;
    r.grow(Axis::Vertical, false);
    assert_eq!(r.neg_v, 4);
    r.shrink(Axis::Vertical, true);
    assert_eq!(r, start);
}

#[test]
fn rect_extents_and_union() {
    let r = rect(10, 20, 110, 70);
    assert_eq!(r.width(), 100);
    assert_eq!(r.height(), 50);
    assert_eq!(Rect::union(&[rect(0, 0, 10, 10), rect(5, -5, 20, 8)]), rect(0, -5, 20, 10));
}

#[test]
fn leaves_are_found_in_the_tree() {
    let layout = two_by_two_layout();
    assert!(layout.tree.contains_leaf(3));
    assert!(!layout.tree.contains_leaf(4));
}

#[test]
fn vertical_reach_in_a_layout_of_columns_keeps_each_zone() {
    let layout = two_col_layout();
    let reach = Reach { neg_h: 0, pos_h: 0, neg_v: 3, pos_v: 2 };
    assert_eq!(layout.bounds_for_reach(0, reach), rect(0, 0, 960, 1080));
    assert_eq!(layout.bounds_for_reach(1, reach), rect(960, 0, 1920, 1080));
}

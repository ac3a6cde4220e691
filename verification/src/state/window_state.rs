use vstd::prelude::*;
use vstd::string::*;

use crate::models::monitor::Rect;
use crate::models::system::Hwnd;
use crate::text::str_eq;

verus! {

#[derive(Clone, Copy, PartialEq, Eq, Debug, Structural)]
pub enum WindowState {
    /// Managed but not belongs to any zone
    Floating,
    /// Managed and belongs to a zone
    Zoned(usize),
    /// Not managed
    Ignored,
}

/// Where a tracked window sits, for display.
#[derive(Clone, Copy, PartialEq, Eq, Debug, Structural)]
pub struct WindowRecord {
    pub hwnd: Hwnd,
    pub ws_idx: usize,
    pub state: WindowState,
    pub z_order: usize,
}

#[derive(Clone, Copy, PartialEq, Eq, Debug, Structural)]
pub enum Direction {
    Left,
    Down,
    Up,
    Right,
}

impl Direction {
    pub open spec fn spec_from_idx(idx: usize) -> Option<Direction> {
        if idx == 0 {
            Some(Direction::Left)
        } else if idx == 1 {
            Some(Direction::Down)
        } else if idx == 2 {
            Some(Direction::Up)
        } else if idx == 3 {
            Some(Direction::Right)
        } else {
            None
        }
    }

    pub fn from_idx(idx: usize) -> (d: Option<Self>)
        ensures
            d == Self::spec_from_idx(idx),
    {
        match idx {
            0 => Some(Direction::Left),
            1 => Some(Direction::Down),
            2 => Some(Direction::Up),
            3 => Some(Direction::Right),
            _ => None,
        }
    }

    /// The name of the direction in action names.
    pub open spec fn name(self) -> Seq<char> {
        match self {
            Direction::Left => "left"@,
            Direction::Down => "down"@,
            Direction::Up => "up"@,
            Direction::Right => "right"@,
        }
    }

    /// The direction named `s`, if any.
    pub open spec fn spec_from_name(s: Seq<char>) -> Option<Direction> {
        if s == "left"@ {
            Some(Direction::Left)
        } else if s == "down"@ {
            Some(Direction::Down)
        } else if s == "up"@ {
            Some(Direction::Up)
        } else if s == "right"@ {
            Some(Direction::Right)
        } else {
            None
        }
    }

    /// The name of the direction: `left`, `down`, `up` or `right`.
    pub fn to_string(&self) -> (s: String)
        ensures
            s@ == self.name(),
    {
        match self {
            Direction::Left => String::from_str("left"),
            Direction::Down => String::from_str("down"),
            Direction::Up => String::from_str("up"),
            Direction::Right => String::from_str("right"),
        }
    }

    /// The direction named `s`, if any.
    pub fn from_string(s: &str) -> (d: Option<Direction>)
        ensures
            d == Direction::spec_from_name(s@),
    {
        if str_eq(s, "left") {
            Some(Direction::Left)
        } else if str_eq(s, "down") {
            Some(Direction::Down)
        } else if str_eq(s, "up") {
            Some(Direction::Up)
        } else if str_eq(s, "right") {
            Some(Direction::Right)
        } else {
            None
        }
    }
}

/// Every direction is read back from its name.
pub proof fn lemma_direction_name_round_trip(d: Direction)
    ensures
        Direction::spec_from_name(d.name()) == Some(d),
{
    reveal_strlit("left");
    reveal_strlit("down");
    reveal_strlit("up");
    reveal_strlit("right");
    assert("down"@[0] != "left"@[0]);
    assert("up"@.len() != "left"@.len() && "up"@.len() != "down"@.len());
    assert("right"@.len() != "left"@.len() && "right"@.len() != "down"@.len() && "right"@.len() != "up"@.len());
}

pub open spec fn min_i(a: int, b: int) -> int {
    if a <= b { a } else { b }
}

pub open spec fn max_i(a: int, b: int) -> int {
    if a >= b { a } else { b }
}

/// Horizontal extent shared by `a` and `b` (negative when they are apart).
pub open spec fn shared_x(a: Rect, b: Rect) -> int {
    min_i(a.right as int, b.right as int) - max_i(a.left as int, b.left as int)
}

/// Vertical extent shared by `a` and `b` (negative when they are apart).
pub open spec fn shared_y(a: Rect, b: Rect) -> int {
    min_i(a.bottom as int, b.bottom as int) - max_i(a.top as int, b.top as int)
}

pub open spec fn fits_i32(x: int) -> bool {
    i32::MIN <= x <= i32::MAX
}

/// The differences that `overlap_pct` computes in `i32` do not overflow.
pub open spec fn overlap_fits(a: Rect, b: Rect) -> bool {
    &&& fits_i32(shared_x(a, b))
    &&& fits_i32(shared_y(a, b))
    &&& a.extents_fit()
    &&& b.extents_fit()
}

/// Area of `a` and `b`'s intersection.
pub open spec fn inter_area(a: Rect, b: Rect) -> int {
    max_i(shared_x(a, b), 0) * max_i(shared_y(a, b), 0)
}

/// The smaller of the two areas, at least 1.
pub open spec fn overlap_base(a: Rect, b: Rect) -> int {
    max_i(min_i(a.spec_width() * a.spec_height(), b.spec_width() * b.spec_height()), 1)
}

/// `b` covers at most 90 percent of the smaller of `a` and `b`.
pub open spec fn overlap_allowed(a: Rect, b: Rect) -> bool {
    inter_area(a, b) * 100 <= OVERLAP_EXCLUDE_PCT * overlap_base(a, b)
}

/// Percentage of overlap at which a rect is excluded from directional movement.
pub const OVERLAP_EXCLUDE_PCT: i128 = 90;

/// Whether the intersection of `a` and `b` is at most `OVERLAP_EXCLUDE_PCT` percent
/// of the smaller of their areas.
fn overlap_within_limit(a: Rect, b: Rect) -> (ok: bool)
    requires
        overlap_fits(a, b),
    ensures
        ok == overlap_allowed(a, b),
{
    let rmin = if a.right <= b.right { a.right } else { b.right };
    let lmax = if a.left >= b.left { a.left } else { b.left };
    let bmin = if a.bottom <= b.bottom { a.bottom } else { b.bottom };
    let tmax = if a.top >= b.top { a.top } else { b.top };
    let dx: i32 = rmin - lmax;
    let dy: i32 = bmin - tmax;
    let ix: i128 = if dx > 0 { dx as i128 } else { 0 };
    let iy: i128 = if dy > 0 { dy as i128 } else { 0 };
    if ix == 0 || iy == 0 {
        assert(inter_area(a, b) == 0) by (nonlinear_arith)
            requires
                ix == max_i(shared_x(a, b), 0),
                iy == max_i(shared_y(a, b), 0),
                ix == 0 || iy == 0,
                inter_area(a, b) == max_i(shared_x(a, b), 0) * max_i(shared_y(a, b), 0),
        ;
        assert(overlap_base(a, b) >= 1);
        return true;
    }
    let aw = a.width() as i128;
    let ah = a.height() as i128;
    let bw = b.width() as i128;
    let bh = b.height() as i128;
    assert(-0x8000_0000 <= aw <= 0x7fff_ffff && -0x8000_0000 <= ah <= 0x7fff_ffff);
    assert(-0x8000_0000 <= bw <= 0x7fff_ffff && -0x8000_0000 <= bh <= 0x7fff_ffff);
    assert(-0x4000_0000_0000_0000 <= aw * ah <= 0x4000_0000_0000_0000) by (nonlinear_arith)
        requires
            -0x8000_0000 <= aw <= 0x7fff_ffff,
            -0x8000_0000 <= ah <= 0x7fff_ffff,
    ;
    assert(-0x4000_0000_0000_0000 <= bw * bh <= 0x4000_0000_0000_0000) by (nonlinear_arith)
        requires
            -0x8000_0000 <= bw <= 0x7fff_ffff,
            -0x8000_0000 <= bh <= 0x7fff_ffff,
    ;
    assert(0 <= ix * iy <= 0x4000_0000_0000_0000) by (nonlinear_arith)
        requires
            0 <= ix <= 0x7fff_ffff,
            0 <= iy <= 0x7fff_ffff,
    ;
    let area_a = aw * ah;
    let area_b = bw * bh;
    let smaller = if area_a <= area_b { area_a } else { area_b };
    let base = if smaller >= 1 { smaller } else { 1 };
    let inter = ix * iy;
    inter * 100 <= OVERLAP_EXCLUDE_PCT * base
}

/// The components of `edge_score` that are computed in `i32` do not overflow.
pub open spec fn edge_fits(from: Rect, r: Rect, dir: Direction) -> bool {
    match dir {
        Direction::Left => fits_i32(shared_y(r, from)) && fits_i32(from.left - r.right),
        Direction::Right => fits_i32(shared_y(r, from)) && fits_i32(r.left - from.right),
        Direction::Up => fits_i32(shared_x(r, from)) && fits_i32(from.top - r.bottom),
        Direction::Down => fits_i32(shared_x(r, from)) && fits_i32(r.top - from.bottom),
    }
}

/// `(travel gap, -shared edge)` of `r` seen from `from` toward `dir`, or `None` when
/// `r` does not reach past `from` in that direction or shares no edge with it.
pub open spec fn spec_edge_score(from: Rect, r: Rect, dir: Direction) -> Option<(int, int)> {
    let (perp, reaches, gap) = match dir {
        Direction::Left => (shared_y(r, from), r.left < from.left, from.left - r.right),
        Direction::Right => (shared_y(r, from), r.right > from.right, r.left - from.right),
        Direction::Up => (shared_x(r, from), r.top < from.top, from.top - r.bottom),
        Direction::Down => (shared_x(r, from), r.bottom > from.bottom, r.top - from.bottom),
    };
    if !reaches || perp <= 0 {
        None
    } else {
        Some((gap, -perp))
    }
}

/// Returns the score as (travel_gap, -perp_overlap).
fn edge_score(from: Rect, r: Rect, dir: Direction) -> (s: Option<(i32, i32)>)
    requires
        edge_fits(from, r, dir),
    ensures
        match s {
            Some((g, p)) => spec_edge_score(from, r, dir) == Some((g as int, p as int)),
            None => spec_edge_score(from, r, dir) is None,
        },
{
    let ymin = if r.bottom <= from.bottom { r.bottom } else { from.bottom };
    let ymax = if r.top >= from.top { r.top } else { from.top };
    let xmin = if r.right <= from.right { r.right } else { from.right };
    let xmax = if r.left >= from.left { r.left } else { from.left };
    let (perp_overlap, reaches, travel_gap) = match dir {
        Direction::Left => (ymin - ymax, r.left < from.left, from.left - r.right),
        Direction::Right => (ymin - ymax, r.right > from.right, r.left - from.right),
        Direction::Up => (xmin - xmax, r.top < from.top, from.top - r.bottom),
        Direction::Down => (xmin - xmax, r.bottom > from.bottom, r.top - from.bottom),
    };
    if !reaches || perp_overlap <= 0 {
        return None;
    }
    Some((travel_gap, -perp_overlap))
}

/// Lexicographic order on scores.
pub open spec fn score_lt(a: (int, int), b: (int, int)) -> bool {
    a.0 < b.0 || (a.0 == b.0 && a.1 < b.1)
}

/// Candidate `r` takes part in a move from `from` toward `dir`.
pub open spec fn eligible(from: Rect, r: Rect, dir: Direction) -> bool {
    overlap_allowed(from, r) && spec_edge_score(from, r, dir) is Some
}

/// Index `i` holds the first eligible candidate of least score.
pub open spec fn is_nearest<T>(cands: Seq<(T, Rect)>, from: Rect, dir: Direction, i: int) -> bool {
    &&& 0 <= i < cands.len()
    &&& eligible(from, cands[i].1, dir)
    &&& forall|j: int|
        0 <= j < cands.len() && eligible(from, cands[j].1, dir) ==> !score_lt(
            spec_edge_score(from, cands[j].1, dir)->0,
            spec_edge_score(from, cands[i].1, dir)->0,
        )
    &&& forall|j: int|
        0 <= j < i && eligible(from, cands[j].1, dir) ==> score_lt(
            spec_edge_score(from, cands[i].1, dir)->0,
            spec_edge_score(from, cands[j].1, dir)->0,
        )
}

/// The candidate nearest to `from` toward `dir`: the first eligible one of least score.
pub open spec fn spec_nearest<T>(cands: Seq<(T, Rect)>, from: Rect, dir: Direction) -> Option<T> {
    if exists|i: int| is_nearest(cands, from, dir, i) {
        Some(cands[choose|i: int| is_nearest(cands, from, dir, i)].0)
    } else {
        None
    }
}

proof fn lemma_nearest_unique<T>(cands: Seq<(T, Rect)>, from: Rect, dir: Direction, i: int)
    requires
        is_nearest(cands, from, dir, i),
    ensures
        spec_nearest(cands, from, dir) == Some(cands[i].0),
{
    let c = choose|c: int| is_nearest(cands, from, dir, c);
    assert(is_nearest(cands, from, dir, c));
    if c < i {
        assert(score_lt(spec_edge_score(from, cands[i].1, dir)->0, spec_edge_score(from, cands[c].1, dir)->0));
        assert(!score_lt(spec_edge_score(from, cands[i].1, dir)->0, spec_edge_score(from, cands[c].1, dir)->0));
    } else if i < c {
        assert(score_lt(spec_edge_score(from, cands[c].1, dir)->0, spec_edge_score(from, cands[i].1, dir)->0));
        assert(!score_lt(spec_edge_score(from, cands[c].1, dir)->0, spec_edge_score(from, cands[i].1, dir)->0));
    }
}

/// Whether rect `a` lies at least as close as rect `b` to `from` toward `dir`: its edge
/// facing `from` is no farther from `from`'s edge on that side (a larger right edge going
/// left, a smaller left edge going right, a larger bottom going up, a smaller top going
/// down).
pub open spec fn edge_no_farther(dir: Direction, a: Rect, b: Rect) -> bool {
    match dir {
        Direction::Left => a.right >= b.right,
        Direction::Right => a.left <= b.left,
        Direction::Up => a.bottom >= b.bottom,
        Direction::Down => a.top <= b.top,
    }
}

/// Length along which rect `r` and `from` face each other across a move toward `dir`.
pub open spec fn facing_length(dir: Direction, from: Rect, r: Rect) -> int {
    match dir {
        Direction::Left | Direction::Right => min_i(r.bottom as int, from.bottom as int) - max_i(r.top as int, from.top as int),
        Direction::Up | Direction::Down => min_i(r.right as int, from.right as int) - max_i(r.left as int, from.left as int),
    }
}

/// The candidate picked as nearest toward `dir` is an eligible one whose facing edge is
/// closest to `from` among all eligible candidates (moving left, the one with the largest
/// right edge; moving right, the smallest left edge; and so on), and among those with
/// the same edge it faces `from` along the longest stretch.
pub proof fn lemma_nearest_has_closest_edge<T>(cands: Seq<(T, Rect)>, from: Rect, dir: Direction)
    ensures
        spec_nearest(cands, from, dir) matches Some(t) ==> exists|i: int| {
            &&& 0 <= i < cands.len()
            &&& #[trigger] cands[i].0 == t
            &&& eligible(from, cands[i].1, dir)
            &&& forall|j: int| 0 <= j < cands.len() && eligible(from, cands[j].1, dir) ==> {
                &&& edge_no_farther(dir, cands[i].1, #[trigger] cands[j].1)
                &&& edge_no_farther(dir, cands[j].1, cands[i].1) ==> facing_length(dir, from, cands[j].1) <= facing_length(dir, from, cands[i].1)
            }
        },
{
    if spec_nearest(cands, from, dir) is Some {
        let i = choose|i: int| is_nearest(cands, from, dir, i);
        assert(is_nearest(cands, from, dir, i));
        assert forall|j: int| 0 <= j < cands.len() && eligible(from, cands[j].1, dir) implies {
            &&& edge_no_farther(dir, cands[i].1, #[trigger] cands[j].1)
            &&& edge_no_farther(dir, cands[j].1, cands[i].1) ==> facing_length(dir, from, cands[j].1) <= facing_length(dir, from, cands[i].1)
        } by {
            assert(!score_lt(spec_edge_score(from, cands[j].1, dir)->0, spec_edge_score(from, cands[i].1, dir)->0));
        }
        assert(cands[i].0 == spec_nearest(cands, from, dir)->0);
    }
}

/// Candidate `r` can be scored from `from` toward `dir` without overflow.
pub open spec fn candidate_fits(from: Rect, r: Rect, dir: Direction) -> bool {
    &&& overlap_fits(from, r)
    &&& overlap_allowed(from, r) ==> edge_fits(from, r, dir)
}

fn i32_diff_fits(a: i32, b: i32) -> (ok: bool)
    ensures
        ok == fits_i32(a - b),
{
    let d = a as i64 - b as i64;
    d >= i32::MIN as i64 && d <= i32::MAX as i64
}

/// Whether candidate `r` can be scored from `from` toward `dir` without overflow.
pub fn scorable(from: Rect, r: Rect, dir: Direction) -> (ok: bool)
    ensures
        ok == candidate_fits(from, r, dir),
{
    let xmin_a = if from.right <= r.right { from.right } else { r.right };
    let xmax_a = if from.left >= r.left { from.left } else { r.left };
    let ymin_a = if from.bottom <= r.bottom { from.bottom } else { r.bottom };
    let ymax_a = if from.top >= r.top { from.top } else { r.top };
    let ov = i32_diff_fits(xmin_a, xmax_a) && i32_diff_fits(ymin_a, ymax_a)
        && i32_diff_fits(from.right, from.left) && i32_diff_fits(from.bottom, from.top)
        && i32_diff_fits(r.right, r.left) && i32_diff_fits(r.bottom, r.top);
    if !ov {
        return false;
    }
    assert(overlap_fits(from, r));
    if !overlap_within_limit(from, r) {
        return true;
    }
    assert(shared_y(r, from) == shared_y(from, r));
    assert(shared_x(r, from) == shared_x(from, r));
    match dir {
        Direction::Left => i32_diff_fits(from.left, r.right),
        Direction::Right => i32_diff_fits(r.left, from.right),
        Direction::Up => i32_diff_fits(from.top, r.bottom),
        Direction::Down => i32_diff_fits(r.top, from.bottom),
    }
}

/// Candidates can be scored without overflow.
pub open spec fn candidates_fit<T>(cands: Seq<(T, Rect)>, from: Rect, dir: Direction) -> bool {
    forall|j: int|
        0 <= j < cands.len() ==> {
            &&& overlap_fits(from, (#[trigger] cands[j]).1)
            &&& overlap_allowed(from, cands[j].1) ==> edge_fits(from, cands[j].1, dir)
        }
}

/// Returns the nearest candidate from `from` in direction `dir`.
pub fn nearest_in_dir<T: Copy>(candidates: &[(T, Rect)], from: Rect, dir: Direction) -> (res:
    Option<T>)
    requires
        candidates_fit(candidates@, from, dir),
    ensures
        res == spec_nearest(candidates@, from, dir),
        res is None <==> forall|j: int|
            0 <= j < candidates@.len() ==> !eligible(from, (#[trigger] candidates@[j]).1, dir),
{
    let mut best: Option<(usize, i32, i32)> = None;
    let mut i: usize = 0;
    while i < candidates.len()
        invariant
            i <= candidates@.len(),
            candidates_fit(candidates@, from, dir),
            match best {
                None => forall|j: int| 0 <= j < i ==> !eligible(from, (#[trigger] candidates@[j]).1, dir),
                Some((bi, g, p)) => {
                    &&& bi < i
                    &&& eligible(from, candidates@[bi as int].1, dir)
                    &&& spec_edge_score(from, candidates@[bi as int].1, dir) == Some((g as int, p as int))
                    &&& forall|j: int|
                        0 <= j < i && eligible(from, (#[trigger] candidates@[j]).1, dir) ==> !score_lt(
                            spec_edge_score(from, candidates@[j].1, dir)->0,
                            (g as int, p as int),
                        )
                    &&& forall|j: int|
                        0 <= j < bi && eligible(from, (#[trigger] candidates@[j]).1, dir) ==> score_lt(
                            (g as int, p as int),
                            spec_edge_score(from, candidates@[j].1, dir)->0,
                        )
                },
            },
        decreases candidates@.len() - i,
    {
        let (_, r) = candidates[i];
        assert(overlap_fits(from, candidates@[i as int].1));
        if overlap_within_limit(from, r) {
            match edge_score(from, r, dir) {
                Some((g, p)) => {
                    let better = match best {
                        None => true,
                        Some((_, bg, bp)) => g < bg || (g == bg && p < bp),
                    };
                    if better {
                        best = Some((i, g, p));
                    }
                },
                None => {},
            }
        }
        i = i + 1;
    }
    match best {
        None => {
            assert forall|k: int| !is_nearest(candidates@, from, dir, k) by {
                if 0 <= k < candidates@.len() {
                    assert(!eligible(from, candidates@[k].1, dir));
                }
            }
            None
        },
        Some((bi, _, _)) => {
            assert(is_nearest(candidates@, from, dir, bi as int));
            proof { lemma_nearest_unique(candidates@, from, dir, bi as int); }
            Some(candidates[bi].0)
        },
    }
}

} // verus!

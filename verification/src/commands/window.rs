use vstd::prelude::*;

use crate::models::monitor::Rect;
use crate::models::system::{Hwnd, SysCall, WindowSystem};
use crate::state::monitor_state::{MonitorState, topmost_visible, zone_or_empty};
use crate::state::window_state::{Direction, WindowState, candidate_fits, nearest_in_dir, scorable, spec_nearest};
use crate::state::{StateMap, key_index};

verus! {

/// Whether monitor entry `e` takes part in navigation started on the monitor keyed
/// `mon_key`: that monitor always does, the others while they are not locked.
pub open spec fn reachable(e: (isize, MonitorState), mon_key: isize) -> bool {
    e.0 == mon_key || !e.1.monitor_locked
}

/// The zone rects of the active layout of `ms`.
pub open spec fn active_rects(ms: MonitorState) -> Seq<Rect> {
    match ms.layout_of(ms.active_ws as int) {
        Some(l) => l.zones@,
        None => Seq::empty(),
    }
}

/// Each rect of `rs` tagged with monitor key `k` and its position in `rs`.
pub open spec fn tagged(k: isize, rs: Seq<Rect>) -> Seq<((isize, usize), Rect)> {
    Seq::new(rs.len(), |i: int| ((k, i as usize), rs[i]))
}

/// Every zone of the reachable monitors of `es`, in order, tagged with the key of its
/// monitor and its position in that monitor's active layout.
pub open spec fn zone_entries(es: Seq<(isize, MonitorState)>, mon_key: isize) -> Seq<((isize, usize), Rect)>
    decreases es.len(),
{
    if es.len() == 0 {
        Seq::empty()
    } else {
        zone_entries(es.drop_last(), mon_key) + if reachable(es.last(), mon_key) {
            tagged(es.last().0, active_rects(es.last().1))
        } else {
            Seq::empty()
        }
    }
}

/// The candidates of `cs`, in order, that can be scored from `from` toward `dir`.
pub open spec fn scorable_only<T>(cs: Seq<(T, Rect)>, from: Rect, dir: Direction) -> Seq<(T, Rect)>
    decreases cs.len(),
{
    if cs.len() == 0 {
        Seq::empty()
    } else {
        scorable_only(cs.drop_last(), from, dir) + if candidate_fits(from, cs.last().1, dir) {
            seq![cs.last()]
        } else {
            Seq::empty()
        }
    }
}

/// The zone, as monitor key and zone position, that a window at `from` moves into toward
/// `dir`: the nearest zone of a reachable monitor.
pub open spec fn move_target(es: Seq<(isize, MonitorState)>, mon_key: isize, from: Rect, dir: Direction) -> Option<(isize, usize)> {
    spec_nearest(scorable_only(zone_entries(es, mon_key), from, dir), from, dir)
}

proof fn lemma_scorable_only_fit<T>(cs: Seq<(T, Rect)>, from: Rect, dir: Direction)
    ensures
        forall|j: int| 0 <= j < scorable_only(cs, from, dir).len() ==> candidate_fits(from, (#[trigger] scorable_only(cs, from, dir)[j]).1, dir),
    decreases cs.len(),
{
    if cs.len() > 0 {
        let prev = scorable_only(cs.drop_last(), from, dir);
        lemma_scorable_only_fit(cs.drop_last(), from, dir);
        assert forall|j: int| 0 <= j < scorable_only(cs, from, dir).len() implies candidate_fits(from, (#[trigger] scorable_only(cs, from, dir)[j]).1, dir) by {
            if j < prev.len() {
                assert(scorable_only(cs, from, dir)[j] == prev[j]);
            }
        }
    }
}

/// The zones of the reachable monitors that can be scored from `from` toward `dir`.
fn collect_zone_entries(states: &StateMap, mon_key: isize, from: Rect, dir: Direction) -> (r: Vec<((isize, usize), Rect)>)
    requires
        states.wf(),
    ensures
        r@ == scorable_only(zone_entries(states.entries@, mon_key), from, dir),
{
    let mut out: Vec<((isize, usize), Rect)> = Vec::new();
    let ghost es = states.entries@;
    let mut i: usize = 0;
    while i < states.entries.len()
        invariant
            i <= es.len(),
            es == states.entries@,
            states.wf(),
            out@ == scorable_only(zone_entries(es.take(i as int), mon_key), from, dir),
        decreases es.len() - i,
    {
        let k = states.entries[i].0;
        let ghost before = zone_entries(es.take(i as int), mon_key);
        assert(es.take(i as int + 1).drop_last() =~= es.take(i as int));
        assert(es.take(i as int + 1).last() == es[i as int]);
        if k == mon_key || !states.entries[i].1.monitor_locked {
            let rects = states.entries[i].1.active_zone_rects();
            let ghost tg = tagged(k, rects@);
            let mut j: usize = 0;
            while j < rects.len()
                invariant
                    j <= rects@.len(),
                    tg == tagged(k, rects@),
                    out@ == scorable_only(before + tg.take(j as int), from, dir),
                decreases rects@.len() - j,
            {
                let e = ((k, j), rects[j]);
                assert((before + tg.take(j as int + 1)).drop_last() =~= before + tg.take(j as int));
                assert((before + tg.take(j as int + 1)).last() == e);
                if scorable(from, rects[j], dir) {
                    out.push(e);
                }
                assert(out@ =~= scorable_only(before + tg.take(j as int + 1), from, dir));
                j = j + 1;
            }
            assert(tg.take(j as int) =~= tg);
            assert(zone_entries(es.take(i as int + 1), mon_key) == before + tg);
        } else {
            assert(zone_entries(es.take(i as int + 1), mon_key) =~= before);
        }
        i = i + 1;
    }
    assert(es.take(i as int) =~= es);
    out
}

/// Monitor entry `e` became `n` when `h` moved into zone `dst_zone` of the monitor keyed
/// `dst_key`, leaving the monitor keyed `mon_key`.
pub open spec fn entry_moved(e: (isize, MonitorState), n: MonitorState, h: Hwnd, mon_key: isize, dst_key: isize, dst_zone: usize) -> bool {
    if e.0 == dst_key {
        e.1.moved_to_zone(h, dst_zone, n)
    } else if e.0 == mon_key {
        e.1.window_detached(h, n)
    } else {
        n == e.1
    }
}

/// `new` is `old` after `h` moved from the monitor keyed `mon_key` into zone `dst_zone`
/// of the monitor keyed `dst_key`.
pub open spec fn moved_across(old: Seq<(isize, MonitorState)>, new: Seq<(isize, MonitorState)>, h: Hwnd, mon_key: isize, dst_key: isize, dst_zone: usize) -> bool {
    &&& new.len() == old.len()
    &&& forall|i: int| 0 <= i < old.len() ==> (#[trigger] new[i]).0 == old[i].0 && entry_moved(old[i], new[i].1, h, mon_key, dst_key, dst_zone)
}

/// Moves the focused window, whose visible rect is `focused_rect`, into the nearest zone
/// toward `dir` on its own monitor or on an unlocked one, leaving its monitor when the
/// zone is elsewhere.
pub fn handle_window_move<S: WindowSystem>(focused: Hwnd, focused_rect: Rect, mon_key: isize, dir: Direction, states: &mut StateMap, sys: &S)
    requires
        old(states).wf(),
    ensures
        final(states).wf(),
        match move_target(old(states).entries@, mon_key, focused_rect, dir) {
            None => *final(states) == *old(states),
            Some((dk, dz)) => moved_across(old(states).entries@, final(states).entries@, focused, mon_key, dk, dz),
        },
{
    let entries = collect_zone_entries(states, mon_key, focused_rect, dir);
    proof { lemma_scorable_only_fit(zone_entries(states.entries@, mon_key), focused_rect, dir); }
    let target = nearest_in_dir(entries.as_slice(), focused_rect, dir);
    let (dst_key, dst_zone) = match target {
        Some(t) => t,
        None => return,
    };
    let ghost o = states.entries@;
    if dst_key != mon_key {
        match states.find(mon_key) {
            Some(si) => {
                states.entries[si].1.detach_window(focused);
            },
            None => {},
        }
    }
    let ghost mid = states.entries@;
    match states.find(dst_key) {
        Some(di) => {
            states.entries[di].1.move_window_to_zone_idx(focused, dst_zone, sys);
        },
        None => {},
    }
    assert forall|i: int| 0 <= i < o.len() implies (#[trigger] states.entries@[i]).0 == o[i].0
        && entry_moved(o[i], states.entries@[i].1, focused, mon_key, dst_key, dst_zone) by {
        assert(o[i].0 == dst_key ==> mid[i] == o[i]);
    }
}

/// Zone `dst_zone` of the active workspace of `ms` shows `p` on top, for some answers of
/// the window system about which of its windows are minimised.
pub open spec fn partner_of(ms: MonitorState, dst_zone: usize, p: Option<Hwnd>) -> bool {
    exists|mins: Seq<bool>|
        mins.len() == zone_or_empty(ms.active().zones(), dst_zone as int).len() && p
            == #[trigger] topmost_visible(zone_or_empty(ms.active().zones(), dst_zone as int), mins)
}

/// Monitor entry `e` became `n` when `h`, from zone `src_zone` of the monitor keyed
/// `mon_key`, swapped places with `p`, the top window of zone `dst_zone` of the monitor
/// keyed `dst_key`, which is raised once it is in `h`'s old zone (or `h` simply moved there
/// when that zone showed none).
pub open spec fn entry_swapped(
    e: (isize, MonitorState),
    n: MonitorState,
    h: Hwnd,
    p: Option<Hwnd>,
    mon_key: isize,
    src_zone: usize,
    dst_key: isize,
    dst_zone: usize,
) -> bool {
    if e.0 == dst_key && e.0 == mon_key {
        match p {
            None => e.1.moved_to_zone(h, dst_zone, n),
            Some(q) => exists|mid: MonitorState, up: MonitorState|
                #![trigger e.1.moved_to_zone(q, src_zone, mid), mid.queued(SysCall::BringToFront(q), up)]
                e.1.moved_to_zone(q, src_zone, mid) && mid.queued(SysCall::BringToFront(q), up) && up.moved_to_zone(h, dst_zone, n),
        }
    } else if e.0 == dst_key {
        match p {
            None => e.1.moved_to_zone(h, dst_zone, n),
            Some(q) => exists|mid: MonitorState| #[trigger] e.1.window_detached(q, mid) && mid.moved_to_zone(h, dst_zone, n),
        }
    } else if e.0 == mon_key {
        match p {
            None => e.1.window_detached(h, n),
            Some(q) => exists|mid: MonitorState, up: MonitorState|
                #![trigger e.1.moved_to_zone(q, src_zone, mid), mid.queued(SysCall::BringToFront(q), up)]
                e.1.moved_to_zone(q, src_zone, mid) && mid.queued(SysCall::BringToFront(q), up) && up.window_detached(h, n),
        }
    } else {
        n == e.1
    }
}

/// `new` is `old` after the swap that `entry_swapped` describes, entry by entry.
pub open spec fn swapped_across(
    old: Seq<(isize, MonitorState)>,
    new: Seq<(isize, MonitorState)>,
    h: Hwnd,
    p: Option<Hwnd>,
    mon_key: isize,
    src_zone: usize,
    dst_key: isize,
    dst_zone: usize,
) -> bool {
    &&& new.len() == old.len()
    &&& forall|i: int| 0 <= i < old.len() ==> (#[trigger] new[i]).0 == old[i].0
            && entry_swapped(old[i], new[i].1, h, p, mon_key, src_zone, dst_key, dst_zone)
}

/// `p` is the window that the top of zone `dst_zone` of the monitor keyed `dst_key` shows.
pub open spec fn partner_in(es: Seq<(isize, MonitorState)>, dst_key: isize, dst_zone: usize, p: Option<Hwnd>) -> bool {
    match key_index(es, dst_key) {
        Some(di) => partner_of(es[di].1, dst_zone, p),
        None => p is None,
    }
}

/// What swapping the focused window toward `dir` does to the monitor entries `old`.
pub open spec fn swap_result(
    old: Seq<(isize, MonitorState)>,
    new: Seq<(isize, MonitorState)>,
    focused: Hwnd,
    focused_rect: Rect,
    mon_key: isize,
    dir: Direction,
) -> bool {
    match key_index(old, mon_key) {
        None => new == old,
        Some(si) => match old[si].1.spec_window_state(focused) {
            WindowState::Zoned(src_zone) => match move_target(old, mon_key, focused_rect, dir) {
                None => new == old,
                Some((dk, dz)) => exists|p: Option<Hwnd>|
                    #[trigger] partner_in(old, dk, dz, p) && swapped_across(old, new, focused, p, mon_key, src_zone, dk, dz),
            },
            _ => new == old,
        },
    }
}

/// Swaps the focused zoned window, whose visible rect is `focused_rect`, with the top
/// window of the nearest zone toward `dir` on its own monitor or an unlocked one; the
/// focused window just moves there when that zone shows no window. A window that is
/// not zoned on its monitor stays where it is.
pub fn handle_window_swap<S: WindowSystem>(focused: Hwnd, focused_rect: Rect, mon_key: isize, dir: Direction, states: &mut StateMap, sys: &S)
    requires
        old(states).wf(),
    ensures
        final(states).wf(),
        swap_result(old(states).entries@, final(states).entries@, focused, focused_rect, mon_key, dir),
{
    let src_zone = match states.get(mon_key) {
        Some(ms) => match ms.window_state(focused) {
            WindowState::Zoned(z) => z,
            _ => return,
        },
        None => return,
    };
    let entries = collect_zone_entries(states, mon_key, focused_rect, dir);
    proof { lemma_scorable_only_fit(zone_entries(states.entries@, mon_key), focused_rect, dir); }
    let target = nearest_in_dir(entries.as_slice(), focused_rect, dir);
    let (dst_key, dst_zone) = match target {
        Some(t) => t,
        None => return,
    };
    let partner = match states.get(dst_key) {
        Some(ms) => ms.topmost_in_zone(dst_zone, sys),
        None => None,
    };
    let ghost o = states.entries@;
    assert(partner_in(o, dst_key, dst_zone, partner));
    if dst_key == mon_key {
        match states.find(mon_key) {
            Some(i) => {
                let ghost e0 = states.entries@[i as int].1;
                let ghost mut e1 = e0;
                match partner {
                    Some(p) => {
                        states.entries[i].1.move_window_to_zone_idx(p, src_zone, sys);
                        proof { e1 = states.entries@[i as int].1; }
                        states.entries[i].1.push_command(SysCall::BringToFront(p));
                    },
                    None => {},
                }
                let ghost e2 = states.entries@[i as int].1;
                states.entries[i].1.move_window_to_zone_idx(focused, dst_zone, sys);
                assert(entry_swapped(o[i as int], states.entries@[i as int].1, focused, partner, mon_key, src_zone, dst_key, dst_zone)) by {
                    if partner is Some {
                        assert(e0.moved_to_zone(partner->0, src_zone, e1));
                        assert(e1.queued(SysCall::BringToFront(partner->0), e2));
                    }
                }
            },
            None => {},
        }
    } else {
        let ghost mut moved = states.entries@;
        match partner {
            Some(p) => {
                match states.find(dst_key) {
                    Some(di) => {
                        states.entries[di].1.detach_window(p);
                    },
                    None => {},
                }
                match states.find(mon_key) {
                    Some(si) => {
                        states.entries[si].1.move_window_to_zone_idx(p, src_zone, sys);
                        proof { moved = states.entries@; }
                        states.entries[si].1.push_command(SysCall::BringToFront(p));
                    },
                    None => {},
                }
            },
            None => {},
        }
        let ghost mid = states.entries@;
        match states.find(mon_key) {
            Some(si) => {
                states.entries[si].1.detach_window(focused);
            },
            None => {},
        }
        match states.find(dst_key) {
            Some(di) => {
                states.entries[di].1.move_window_to_zone_idx(focused, dst_zone, sys);
            },
            None => {},
        }
        assert forall|i: int| 0 <= i < o.len() implies (#[trigger] states.entries@[i]).0 == o[i].0
            && entry_swapped(o[i], states.entries@[i].1, focused, partner, mon_key, src_zone, dst_key, dst_zone) by {
            if partner is Some {
                if o[i].0 == dst_key {
                    assert(o[i].1.window_detached(partner->0, mid[i].1));
                } else if o[i].0 == mon_key {
                    assert(o[i].1.moved_to_zone(partner->0, src_zone, moved[i].1));
                    assert(moved[i].1.queued(SysCall::BringToFront(partner->0), mid[i].1));
                }
            }
        }
    }
    assert(swapped_across(o, states.entries@, focused, partner, mon_key, src_zone, dst_key, dst_zone));
}

/// Cycles the zone that holds the focused window on the monitor keyed `mon_key` and
/// returns the window brought up, which the caller then focuses.
pub fn handle_cycle<S: WindowSystem>(focused: Hwnd, mon_key: isize, forward: bool, states: &mut StateMap, sys: &S) -> (r: Option<Hwnd>)
    requires
        old(states).wf(),
    ensures
        final(states).wf(),
        match key_index(old(states).entries@, mon_key) {
            None => r is None && *final(states) == *old(states),
            Some(i) => {
                &&& final(states).entries@.len() == old(states).entries@.len()
                &&& forall|j: int| 0 <= j < old(states).entries@.len() && j != i ==> #[trigger] final(states).entries@[j] == old(states).entries@[j]
                &&& final(states).entries@[i].0 == mon_key
                &&& old(states).entries@[i].1.cycled(focused, forward, final(states).entries@[i].1, r)
            },
        },
{
    match states.find(mon_key) {
        Some(i) => states.entries[i].1.cycle_window_in_zone(focused, forward, sys),
        None => None,
    }
}

/// What the focus candidates of `ms` are for some answers of the window system: one per
/// zone of the active layout that shows a window that is not minimised, then the visible
/// floating windows, then the windows on the monitor that no workspace knows.
pub open spec fn focus_cands_of(ms: MonitorState, c: Seq<(Hwnd, Rect)>) -> bool {
    exists|a: Seq<(Hwnd, Rect)>, b: Seq<(Hwnd, Rect)>|
        #[trigger] ms.zoned_cands_ok(a) && #[trigger] ms.floating_cands_ok(b) && c == a + b
}

/// `parts` holds, for each monitor entry of `es`, its focus candidates when it is
/// reachable from the monitor keyed `mon_key`, and nothing otherwise.
pub open spec fn focus_listing(es: Seq<(isize, MonitorState)>, mon_key: isize, parts: Seq<Seq<(Hwnd, Rect)>>) -> bool {
    &&& parts.len() == es.len()
    &&& forall|i: int|
        0 <= i < es.len() ==> if reachable(es[i], mon_key) {
            focus_cands_of(es[i].1, #[trigger] parts[i])
        } else {
            parts[i].len() == 0
        }
}

/// The sequences of `parts` one after the other.
pub open spec fn joined<T>(parts: Seq<Seq<T>>) -> Seq<T>
    decreases parts.len(),
{
    if parts.len() == 0 {
        Seq::empty()
    } else {
        joined(parts.drop_last()) + parts.last()
    }
}

/// The candidates of `cs`, in order, other than `focused` that can be scored from `from`
/// toward `dir`.
pub open spec fn others_scorable(cs: Seq<(Hwnd, Rect)>, focused: Hwnd, from: Rect, dir: Direction) -> Seq<(Hwnd, Rect)>
    decreases cs.len(),
{
    if cs.len() == 0 {
        Seq::empty()
    } else {
        others_scorable(cs.drop_last(), focused, from, dir) + if cs.last().0 != focused && candidate_fits(from, cs.last().1, dir) {
            seq![cs.last()]
        } else {
            Seq::empty()
        }
    }
}

proof fn lemma_others_scorable_fit(cs: Seq<(Hwnd, Rect)>, focused: Hwnd, from: Rect, dir: Direction)
    ensures
        forall|j: int| 0 <= j < others_scorable(cs, focused, from, dir).len()
            ==> candidate_fits(from, (#[trigger] others_scorable(cs, focused, from, dir)[j]).1, dir),
    decreases cs.len(),
{
    if cs.len() > 0 {
        let prev = others_scorable(cs.drop_last(), focused, from, dir);
        lemma_others_scorable_fit(cs.drop_last(), focused, from, dir);
        assert forall|j: int| 0 <= j < others_scorable(cs, focused, from, dir).len()
            implies candidate_fits(from, (#[trigger] others_scorable(cs, focused, from, dir)[j]).1, dir) by {
            if j < prev.len() {
                assert(others_scorable(cs, focused, from, dir)[j] == prev[j]);
            }
        }
    }
}

/// Appends to `out` the candidates of `src` other than `focused` that can be scored.
fn keep_others(out: &mut Vec<(Hwnd, Rect)>, src: &Vec<(Hwnd, Rect)>, focused: Hwnd, from: Rect, dir: Direction, Ghost(prefix): Ghost<Seq<(Hwnd, Rect)>>)
    requires
        old(out)@ == others_scorable(prefix, focused, from, dir),
    ensures
        final(out)@ == others_scorable(prefix + src@, focused, from, dir),
{
    let mut j: usize = 0;
    while j < src.len()
        invariant
            j <= src@.len(),
            out@ == others_scorable(prefix + src@.take(j as int), focused, from, dir),
        decreases src@.len() - j,
    {
        let c = src[j];
        assert((prefix + src@.take(j as int + 1)).drop_last() =~= prefix + src@.take(j as int));
        assert((prefix + src@.take(j as int + 1)).last() == c);
        if c.0 != focused && scorable(from, c.1, dir) {
            out.push(c);
        }
        assert(out@ =~= others_scorable(prefix + src@.take(j as int + 1), focused, from, dir));
        j = j + 1;
    }
    assert(src@.take(j as int) =~= src@);
}

/// The window that focus moves to from the focused window, whose visible rect is
/// `focused_rect`, toward `dir`: the nearest focus candidate, other than the focused
/// window, of its own monitor and the unlocked ones. The caller brings it to the
/// foreground.
pub fn handle_focus_move<S: WindowSystem>(focused: Hwnd, focused_rect: Rect, mon_key: isize, dir: Direction, states: &StateMap, sys: &S) -> (r: Option<Hwnd>)
    requires
        states.wf(),
    ensures
        exists|parts: Seq<Seq<(Hwnd, Rect)>>|
            #[trigger] focus_listing(states.entries@, mon_key, parts)
                && r == spec_nearest(others_scorable(joined(parts), focused, focused_rect, dir), focused_rect, dir),
{
    let ghost es = states.entries@;
    let ghost mut parts: Seq<Seq<(Hwnd, Rect)>> = Seq::empty();
    let mut out: Vec<(Hwnd, Rect)> = Vec::new();
    let mut i: usize = 0;
    while i < states.entries.len()
        invariant
            i <= es.len(),
            es == states.entries@,
            states.wf(),
            parts.len() == i,
            forall|k: int|
                0 <= k < i ==> if reachable(es[k], mon_key) {
                    focus_cands_of(es[k].1, #[trigger] parts[k])
                } else {
                    parts[k].len() == 0
                },
            out@ == others_scorable(joined(parts), focused, focused_rect, dir),
        decreases es.len() - i,
    {
        let ghost before = parts;
        if states.entries[i].0 == mon_key || !states.entries[i].1.monitor_locked {
            let ms = &states.entries[i].1;
            let a = ms.zoned_focus_candidates(sys);
            let b = ms.floating_focus_candidates(sys);
            keep_others(&mut out, &a, focused, focused_rect, dir, Ghost(joined(before)));
            keep_others(&mut out, &b, focused, focused_rect, dir, Ghost(joined(before) + a@));
            proof {
                parts = before.push(a@ + b@);
                assert(parts.drop_last() =~= before);
                assert(joined(before) + a@ + b@ =~= joined(before) + (a@ + b@));
                assert(focus_cands_of(es[i as int].1, parts[i as int]));
            }
        } else {
            proof {
                parts = before.push(Seq::empty());
                assert(parts.drop_last() =~= before);
                assert(joined(parts) =~= joined(before));
            }
        }
        assert forall|k: int| 0 <= k < i + 1 implies if reachable(es[k], mon_key) {
            focus_cands_of(es[k].1, #[trigger] parts[k])
        } else {
            parts[k].len() == 0
        } by {
            if k < i {
                assert(parts[k] == before[k]);
            }
        }
        i = i + 1;
    }
    proof { lemma_others_scorable_fit(joined(parts), focused, focused_rect, dir); }
    let r = nearest_in_dir(out.as_slice(), focused_rect, dir);
    assert(focus_listing(es, mon_key, parts));
    r
}

} // verus!

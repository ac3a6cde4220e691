//! What the keyboard and window-event hooks decide: which hotkey a key press posts, what
//! a dragged window does with the zone overlay, and how the monitor states follow focus,
//! minimise, show and destroy events.
use vstd::prelude::*;

use crate::actions::Action;
use crate::actions::keymap::{Keymap, KeymapRegistry};
use crate::config::keymap::{MOD_ALT, MOD_CONTROL, MOD_SHIFT, MOD_WIN};
use crate::models::monitor::Rect;
use crate::models::system::{Hwnd, SysCall, WindowSystem};
use crate::state::monitor_state::MonitorState;
use crate::state::window_state::{Direction, WindowState};
use crate::state::{StateMap, key_index};

verus! {

/// The modifier bits of the keys held down.
pub open spec fn spec_modifier_bits(ctrl: bool, alt: bool, shift: bool, win: bool) -> u32 {
    (if ctrl { MOD_CONTROL } else { 0u32 }) | (if alt { MOD_ALT } else { 0u32 }) | (if shift { MOD_SHIFT } else { 0u32 }) | (
    if win { MOD_WIN } else { 0u32 })
}

/// The modifier bits of the keys held down.
pub fn modifier_bits(ctrl: bool, alt: bool, shift: bool, win: bool) -> (m: u32)
    ensures
        m == spec_modifier_bits(ctrl, alt, shift, win),
{
    (if ctrl { MOD_CONTROL } else { 0u32 }) | (if alt { MOD_ALT } else { 0u32 }) | (if shift { MOD_SHIFT } else { 0u32 }) | (
    if win { MOD_WIN } else { 0u32 })
}

/// The hotkey id that pressing key `vk` with the given modifiers held posts: the id that
/// `reg` files for that combo, if any.
pub fn hotkey_for_key(reg: &KeymapRegistry, ctrl: bool, alt: bool, shift: bool, win: bool, vk: u32) -> (id: Option<i32>)
    ensures
        id == reg.spec_id(Keymap { mods: spec_modifier_bits(ctrl, alt, shift, win), vk }),
{
    let mods = modifier_bits(ctrl, alt, shift, win);
    reg.get_id_from_keymap(Keymap { mods, vk })
}

/// First hotkey id of the built-in bindings that switch layouts (one per layout slot).
pub const LAYOUT_HOT_BASE: i32 = 1;
/// First hotkey id of the built-in bindings that switch workspaces.
pub const WORKSPACE_HOT_BASE: i32 = 11;
/// First hotkey id of the built-in bindings that move a window to a workspace.
pub const MOVE_HOT_BASE: i32 = 21;
/// Hotkey id of the built-in binding that floats the focused window.
pub const FLOAT_HOT_ID: i32 = 31;
/// Hotkey id of the built-in binding that toggles the monitor lock.
pub const MONITOR_LOCK_HOT_ID: i32 = 32;
/// First hotkey id of the built-in focus bindings, one per direction in `hjkl` order.
pub const FOCUS_HOT_BASE: i32 = 33;
/// First hotkey id of the built-in window-move bindings.
pub const WIN_MOVE_HOT_BASE: i32 = 37;
/// First hotkey id of the built-in window-swap bindings.
pub const WIN_SWAP_HOT_BASE: i32 = 41;
/// Hotkey id of the built-in binding that cycles a zone forward.
pub const WIN_CYCLE_NEXT_HOT_ID: i32 = 45;
/// Hotkey id of the built-in binding that cycles a zone backward.
pub const WIN_CYCLE_PREV_HOT_ID: i32 = 46;

/// The direction that key `vk` stands for among H, J, K, L: 0 left, 1 down, 2 up, 3 right.
pub open spec fn spec_hjkl_dir(vk: u32) -> Option<usize> {
    if vk == 0x48 {
        Some(0usize)
    } else if vk == 0x4A {
        Some(1usize)
    } else if vk == 0x4B {
        Some(2usize)
    } else if vk == 0x4C {
        Some(3usize)
    } else {
        None
    }
}

/// The direction that key `vk` stands for among H, J, K, L: 0 left, 1 down, 2 up, 3 right.
pub fn hjkl_dir(vk: u32) -> (d: Option<usize>)
    ensures
        d == spec_hjkl_dir(vk),
{
    match vk {
        0x48 => Some(0),
        0x4A => Some(1),
        0x4B => Some(2),
        0x4C => Some(3),
        _ => None,
    }
}

/// The hotkey id that the built-in bindings post for key `vk` with Ctrl, Alt and Shift held
/// as given: Ctrl+Alt+digit a layout, Alt+digit a workspace, Alt+Shift+digit a move to a
/// workspace, Alt+Shift+F float, Alt+G the monitor lock, Alt/Alt+Shift/Ctrl+Alt with H, J,
/// K, L focus, move and swap, Alt+N and Alt+P cycling.
pub open spec fn spec_builtin_hotkey_id(vk: u32, ctrl: bool, alt: bool, shift: bool) -> Option<i32> {
    if 0x31 <= vk <= 0x39 && ((ctrl && !shift && alt) || (alt && !ctrl && !shift) || (!ctrl && alt && shift)) {
        let digit = vk - 0x30;
        if ctrl && !shift && alt {
            Some((LAYOUT_HOT_BASE + digit - 1) as i32)
        } else if alt && !ctrl && !shift {
            Some((WORKSPACE_HOT_BASE + digit - 1) as i32)
        } else {
            Some((MOVE_HOT_BASE + digit - 1) as i32)
        }
    } else if vk == 0x46 && alt && shift && !ctrl {
        Some(FLOAT_HOT_ID)
    } else if vk == 0x47 && alt && !shift && !ctrl {
        Some(MONITOR_LOCK_HOT_ID)
    } else if spec_hjkl_dir(vk) is Some && ((alt && !ctrl && !shift) || (alt && shift && !ctrl) || (ctrl && alt && !shift)) {
        let dir = spec_hjkl_dir(vk)->0;
        if alt && !ctrl && !shift {
            Some((FOCUS_HOT_BASE + dir) as i32)
        } else if alt && shift && !ctrl {
            Some((WIN_MOVE_HOT_BASE + dir) as i32)
        } else {
            Some((WIN_SWAP_HOT_BASE + dir) as i32)
        }
    } else if alt && !ctrl && !shift && vk == 0x4E {
        Some(WIN_CYCLE_NEXT_HOT_ID)
    } else if alt && !ctrl && !shift && vk == 0x50 {
        Some(WIN_CYCLE_PREV_HOT_ID)
    } else {
        None
    }
}

/// The hotkey id that the built-in bindings post for key `vk` with Ctrl, Alt and Shift held
/// as given; the key press is swallowed exactly when there is one.
pub fn builtin_hotkey_id(vk: u32, ctrl: bool, alt: bool, shift: bool) -> (id: Option<i32>)
    ensures
        id == spec_builtin_hotkey_id(vk, ctrl, alt, shift),
{
    if 0x31 <= vk && vk <= 0x39 {
        let digit = (vk - 0x30) as i32;
        let id = if ctrl && !shift && alt {
            Some(LAYOUT_HOT_BASE + (digit - 1))
        } else if alt && !ctrl && !shift {
            Some(WORKSPACE_HOT_BASE + (digit - 1))
        } else if !ctrl && alt && shift {
            Some(MOVE_HOT_BASE + (digit - 1))
        } else {
            None
        };
        if id.is_some() {
            return id;
        }
    }
    if vk == 0x46 && alt && shift && !ctrl {
        return Some(FLOAT_HOT_ID);
    }
    if vk == 0x47 && alt && !shift && !ctrl {
        return Some(MONITOR_LOCK_HOT_ID);
    }
    match hjkl_dir(vk) {
        Some(dir) => {
            let id = if alt && !ctrl && !shift {
                Some(FOCUS_HOT_BASE + dir as i32)
            } else if alt && shift && !ctrl {
                Some(WIN_MOVE_HOT_BASE + dir as i32)
            } else if ctrl && alt && !shift {
                Some(WIN_SWAP_HOT_BASE + dir as i32)
            } else {
                None
            };
            if id.is_some() {
                return id;
            }
        },
        None => {},
    }
    if alt && !ctrl && !shift {
        if vk == 0x4E {
            return Some(WIN_CYCLE_NEXT_HOT_ID);
        }
        if vk == 0x50 {
            return Some(WIN_CYCLE_PREV_HOT_ID);
        }
    }
    None
}

/// The action that built-in hotkey id `id` triggers.
pub open spec fn spec_builtin_hotkey_action(id: i32) -> Option<Action> {
    if LAYOUT_HOT_BASE <= id < LAYOUT_HOT_BASE + 9 {
        Some(Action::SetLayout((id - LAYOUT_HOT_BASE) as usize))
    } else if WORKSPACE_HOT_BASE <= id < WORKSPACE_HOT_BASE + 9 {
        Some(Action::SetWorkspace((id - WORKSPACE_HOT_BASE) as usize))
    } else if MOVE_HOT_BASE <= id < MOVE_HOT_BASE + 9 {
        Some(Action::WinMoveWS((id - MOVE_HOT_BASE) as usize))
    } else if id == FLOAT_HOT_ID {
        Some(Action::ToggleFloat)
    } else if id == MONITOR_LOCK_HOT_ID {
        Some(Action::ToggleMonLock)
    } else if FOCUS_HOT_BASE <= id < FOCUS_HOT_BASE + 4 {
        Some(Action::WinFocus(Direction::spec_from_idx((id - FOCUS_HOT_BASE) as usize)->0))
    } else if WIN_MOVE_HOT_BASE <= id < WIN_MOVE_HOT_BASE + 4 {
        Some(Action::WinMove(Direction::spec_from_idx((id - WIN_MOVE_HOT_BASE) as usize)->0))
    } else if WIN_SWAP_HOT_BASE <= id < WIN_SWAP_HOT_BASE + 4 {
        Some(Action::WinSwap(Direction::spec_from_idx((id - WIN_SWAP_HOT_BASE) as usize)->0))
    } else if id == WIN_CYCLE_NEXT_HOT_ID {
        Some(Action::WinCycle(true))
    } else if id == WIN_CYCLE_PREV_HOT_ID {
        Some(Action::WinCycle(false))
    } else {
        None
    }
}

/// The action that built-in hotkey id `id` triggers, if any.
pub fn builtin_hotkey_action(id: i32) -> (a: Option<Action>)
    ensures
        a == spec_builtin_hotkey_action(id),
{
    let hot_count: i32 = 9;
    if LAYOUT_HOT_BASE <= id && id < LAYOUT_HOT_BASE + hot_count {
        Some(Action::SetLayout((id - LAYOUT_HOT_BASE) as usize))
    } else if WORKSPACE_HOT_BASE <= id && id < WORKSPACE_HOT_BASE + hot_count {
        Some(Action::SetWorkspace((id - WORKSPACE_HOT_BASE) as usize))
    } else if MOVE_HOT_BASE <= id && id < MOVE_HOT_BASE + hot_count {
        Some(Action::WinMoveWS((id - MOVE_HOT_BASE) as usize))
    } else if id == FLOAT_HOT_ID {
        Some(Action::ToggleFloat)
    } else if id == MONITOR_LOCK_HOT_ID {
        Some(Action::ToggleMonLock)
    } else if FOCUS_HOT_BASE <= id && id < FOCUS_HOT_BASE + 4 {
        match Direction::from_idx((id - FOCUS_HOT_BASE) as usize) {
            Some(dir) => Some(Action::WinFocus(dir)),
            None => None,
        }
    } else if WIN_MOVE_HOT_BASE <= id && id < WIN_MOVE_HOT_BASE + 4 {
        match Direction::from_idx((id - WIN_MOVE_HOT_BASE) as usize) {
            Some(dir) => Some(Action::WinMove(dir)),
            None => None,
        }
    } else if WIN_SWAP_HOT_BASE <= id && id < WIN_SWAP_HOT_BASE + 4 {
        match Direction::from_idx((id - WIN_SWAP_HOT_BASE) as usize) {
            Some(dir) => Some(Action::WinSwap(dir)),
            None => None,
        }
    } else if id == WIN_CYCLE_NEXT_HOT_ID {
        Some(Action::WinCycle(true))
    } else if id == WIN_CYCLE_PREV_HOT_ID {
        Some(Action::WinCycle(false))
    } else {
        None
    }
}

/// The action that the built-in bindings trigger for key `vk` with the given modifiers.
pub open spec fn builtin_action_for_key(vk: u32, ctrl: bool, alt: bool, shift: bool) -> Option<Action> {
    match spec_builtin_hotkey_id(vk, ctrl, alt, shift) {
        Some(id) => spec_builtin_hotkey_action(id),
        None => None,
    }
}

/// Every key press that the built-in bindings turn into a hotkey triggers an action:
/// Ctrl+Alt+digit `d` the layout of slot `d`, Alt+digit the workspace, Alt+Shift+digit the
/// move to that workspace (slots counted from 0), and H, J, K, L the directions left,
/// down, up, right.
pub proof fn lemma_builtin_hotkeys_have_actions(vk: u32, ctrl: bool, alt: bool, shift: bool)
    ensures
        spec_builtin_hotkey_id(vk, ctrl, alt, shift) matches Some(id) ==> spec_builtin_hotkey_action(id) is Some,
        0x31 <= vk <= 0x39 && ctrl && alt && !shift ==> builtin_action_for_key(vk, ctrl, alt, shift) == Some(Action::SetLayout((vk - 0x31) as usize)),
        0x31 <= vk <= 0x39 && alt && !ctrl && !shift ==> builtin_action_for_key(vk, ctrl, alt, shift) == Some(Action::SetWorkspace((vk - 0x31) as usize)),
        0x31 <= vk <= 0x39 && alt && shift && !ctrl ==> builtin_action_for_key(vk, ctrl, alt, shift) == Some(Action::WinMoveWS((vk - 0x31) as usize)),
        spec_hjkl_dir(vk) is Some && alt && !ctrl && !shift ==> builtin_action_for_key(vk, ctrl, alt, shift) == Some(Action::WinFocus(Direction::spec_from_idx(spec_hjkl_dir(vk)->0)->0)),
{
}

/// Alt with H, J, K, L moves the focus the four ways, as in vi: H left, J down, K up, L
/// right. Exactly these four keys stand for a direction, no two of them for the same one,
/// and two keys that move the focus with Alt move it the same way only if they are the
/// same key.
pub proof fn lemma_hjkl_focus_directions(vk1: u32, vk2: u32)
    ensures
        builtin_action_for_key(0x48, false, true, false) == Some(Action::WinFocus(Direction::Left)),
        builtin_action_for_key(0x4A, false, true, false) == Some(Action::WinFocus(Direction::Down)),
        builtin_action_for_key(0x4B, false, true, false) == Some(Action::WinFocus(Direction::Up)),
        builtin_action_for_key(0x4C, false, true, false) == Some(Action::WinFocus(Direction::Right)),
        spec_hjkl_dir(vk1) is Some <==> (vk1 == 0x48 || vk1 == 0x4A || vk1 == 0x4B || vk1 == 0x4C),
        spec_hjkl_dir(vk1) is Some && spec_hjkl_dir(vk1) == spec_hjkl_dir(vk2) ==> vk1 == vk2,
        (builtin_action_for_key(vk1, false, true, false) matches Some(Action::WinFocus(d1))
            && builtin_action_for_key(vk2, false, true, false) == Some(Action::WinFocus(d1))) ==> vk1 == vk2,
{
}

/// Whether point (`x`, `y`) lies in `r` (right and bottom edges excluded).
pub open spec fn contains_point(r: Rect, x: i32, y: i32) -> bool {
    r.left <= x < r.right && r.top <= y < r.bottom
}

/// The first zone of `zones` that holds point (`x`, `y`).
pub open spec fn spec_zone_at(zones: Seq<Rect>, x: i32, y: i32) -> Option<usize> {
    if exists|i: int| 0 <= i < zones.len() && contains_point(zones[i], x, y) {
        Some(
            (choose|i: int|
                0 <= i < zones.len() && contains_point(zones[i], x, y) && forall|k: int|
                    0 <= k < i ==> !contains_point(#[trigger] zones[k], x, y)) as usize,
        )
    } else {
        None
    }
}

/// The first zone of `zones` that holds point (`x`, `y`).
pub fn zone_at(zones: &Vec<Rect>, x: i32, y: i32) -> (r: Option<usize>)
    ensures
        r == spec_zone_at(zones@, x, y),
        r matches Some(i) ==> i < zones@.len(),
{
    let mut i: usize = 0;
    while i < zones.len()
        invariant
            i <= zones@.len(),
            forall|k: int| 0 <= k < i ==> !contains_point(#[trigger] zones@[k], x, y),
        decreases zones@.len() - i,
    {
        let z = zones[i];
        if z.left <= x && x < z.right && z.top <= y && y < z.bottom {
            proof {
                let c = choose|c: int|
                    0 <= c < zones@.len() && contains_point(zones@[c], x, y) && forall|k: int|
                        0 <= k < c ==> !contains_point(#[trigger] zones@[k], x, y);
                assert(0 <= i < zones@.len() && contains_point(zones@[i as int], x, y) && forall|k: int|
                    0 <= k < i ==> !contains_point(#[trigger] zones@[k], x, y));
                if c < i {
                    assert(!contains_point(zones@[c], x, y));
                } else if c > i {
                    assert(!contains_point(zones@[i as int], x, y));
                }
            }
            return Some(i);
        }
        i = i + 1;
    }
    None
}

/// A window being dragged: its rect when the drag began, and the zone overlay shown for
/// it, with the zones it shows, the monitor it is on and the zone highlighted.
pub struct DragState {
    pub dragged: Hwnd,
    pub pre_drag_rect: Rect,
    pub overlay: Option<Hwnd>,
    pub zones: Vec<Rect>,
    pub monitor_key: isize,
    pub highlighted: Option<usize>,
}

impl DragState {
    /// A highlighted zone is one of the overlay's zones, and nothing is highlighted
    /// without an overlay.
    pub open spec fn wf(self) -> bool {
        &&& self.highlighted matches Some(i) ==> i < self.zones@.len()
        &&& self.overlay is None ==> self.highlighted is None
    }

    /// The drag of `dragged`, which had rect `pre_drag_rect`, as it begins: no overlay yet.
    pub fn new(dragged: Hwnd, pre_drag_rect: Rect) -> (d: Self)
        ensures
            d.wf(),
            d.dragged == dragged,
            d.pre_drag_rect == pre_drag_rect,
            d.overlay is None,
            d.zones@.len() == 0,
            d.monitor_key == 0,
            d.highlighted is None,
    {
        DragState { dragged, pre_drag_rect, overlay: None, zones: Vec::new(), monitor_key: 0, highlighted: None }
    }

    /// Takes down the overlay, if one is shown, and forgets the highlight; returns the
    /// overlay to close.
    pub fn hide_overlay(&mut self) -> (closed: Option<Hwnd>)
        requires
            old(self).wf(),
        ensures
            final(self).wf(),
            closed == old(self).overlay,
            final(self).overlay is None,
            closed is Some ==> final(self).highlighted is None,
            final(self).highlighted == if closed is Some { None } else { old(self).highlighted },
            final(self).zones == old(self).zones,
            final(self).dragged == old(self).dragged,
            final(self).pre_drag_rect == old(self).pre_drag_rect,
            final(self).monitor_key == old(self).monitor_key,
    {
        let closed = self.overlay;
        if closed.is_some() {
            self.overlay = None;
            self.highlighted = None;
        }
        closed
    }

    /// When the cursor is on another monitor (keyed `key`) than the overlay, takes the
    /// overlay down as `hide_overlay` does and returns it to close.
    pub fn leave_monitor(&mut self, key: isize) -> (closed: Option<Hwnd>)
        requires
            old(self).wf(),
        ensures
            final(self).wf(),
            (old(self).overlay is Some && old(self).monitor_key != key) ==> {
                &&& closed == old(self).overlay
                &&& final(self).overlay is None
                &&& final(self).highlighted is None
                &&& final(self).zones == old(self).zones
                &&& final(self).dragged == old(self).dragged
                &&& final(self).pre_drag_rect == old(self).pre_drag_rect
                &&& final(self).monitor_key == old(self).monitor_key
            },
            !(old(self).overlay is Some && old(self).monitor_key != key) ==> closed is None && *final(self) == *old(self),
    {
        if self.overlay.is_some() && self.monitor_key != key {
            self.hide_overlay()
        } else {
            None
        }
    }

    /// When no overlay is shown and the monitor keyed `key` has a layout, the work area and
    /// zones an overlay there must show.
    pub open spec fn spec_overlay_request(self, states: StateMap, key: isize) -> Option<(Rect, Seq<Rect>)> {
        if self.overlay is None {
            match key_index(states.entries@, key) {
                Some(i) => match states.entries@[i].1.layout_of(states.entries@[i].1.active_ws as int) {
                    Some(l) => Some((states.entries@[i].1.monitor.work_area, l.zones@)),
                    None => None,
                },
                None => None,
            }
        } else {
            None
        }
    }

    /// When no overlay is shown and the monitor keyed `key` has a layout, the work area and
    /// zones an overlay there must show.
    pub fn overlay_request(&self, states: &StateMap, key: isize) -> (req: Option<(Rect, Vec<Rect>)>)
        requires
            states.wf(),
        ensures
            match req {
                Some((wa, zs)) => self.spec_overlay_request(*states, key) == Some((wa, zs@)),
                None => self.spec_overlay_request(*states, key) is None,
            },
    {
        if self.overlay.is_some() {
            return None;
        }
        match states.get(key) {
            Some(ms) => match ms.active_layout() {
                Some(l) => Some((ms.monitor.work_area, l.zones.clone())),
                None => None,
            },
            None => None,
        }
    }

    /// Records the overlay `ov` now shown on the monitor keyed `key`, with `zones`.
    pub fn attach_overlay(&mut self, ov: Hwnd, zones: Vec<Rect>, key: isize)
        requires
            old(self).wf(),
            old(self).overlay is None,
        ensures
            final(self).wf(),
            final(self).overlay == Some(ov),
            final(self).zones == zones,
            final(self).monitor_key == key,
            final(self).highlighted is None,
            final(self).dragged == old(self).dragged,
            final(self).pre_drag_rect == old(self).pre_drag_rect,
    {
        self.overlay = Some(ov);
        self.zones = zones;
        self.monitor_key = key;
    }

    /// With an overlay shown, highlights the zone under the cursor at (`x`, `y`); when that
    /// changes the highlight, returns the overlay and the new highlight to draw.
    pub fn highlight_at(&mut self, x: i32, y: i32) -> (change: Option<(Hwnd, Option<usize>)>)
        requires
            old(self).wf(),
        ensures
            final(self).wf(),
            final(self).overlay == old(self).overlay,
            final(self).zones == old(self).zones,
            final(self).monitor_key == old(self).monitor_key,
            final(self).dragged == old(self).dragged,
            final(self).pre_drag_rect == old(self).pre_drag_rect,
            match old(self).overlay {
                Some(ov) => {
                    &&& final(self).highlighted == spec_zone_at(old(self).zones@, x, y)
                    &&& change == if spec_zone_at(old(self).zones@, x, y) != old(self).highlighted {
                        Some((ov, spec_zone_at(old(self).zones@, x, y)))
                    } else {
                        None
                    }
                },
                None => change is None && final(self).highlighted == old(self).highlighted,
            },
    {
        match self.overlay {
            Some(ov) => {
                let hl = zone_at(&self.zones, x, y);
                if hl != self.highlighted {
                    self.highlighted = hl;
                    Some((ov, hl))
                } else {
                    None
                }
            },
            None => None,
        }
    }
}

/// Index of the first entry of `es` for which `p` holds.
pub open spec fn first_where(es: Seq<(isize, MonitorState)>, p: spec_fn((isize, MonitorState)) -> bool) -> Option<int> {
    if exists|i: int| 0 <= i < es.len() && p(es[i]) {
        Some(choose|i: int| 0 <= i < es.len() && p(es[i]) && forall|k: int| 0 <= k < i ==> !p(#[trigger] es[k]))
    } else {
        None
    }
}

proof fn lemma_first_where(es: Seq<(isize, MonitorState)>, p: spec_fn((isize, MonitorState)) -> bool, i: int)
    requires
        0 <= i < es.len(),
        p(es[i]),
        forall|k: int| 0 <= k < i ==> !p(#[trigger] es[k]),
    ensures
        first_where(es, p) == Some(i),
{
    let c = choose|c: int| 0 <= c < es.len() && p(es[c]) && forall|k: int| 0 <= k < c ==> !p(#[trigger] es[k]);
    assert(0 <= c < es.len() && p(es[c]) && forall|k: int| 0 <= k < c ==> !p(#[trigger] es[k]));
    if c < i {
        assert(!p(es[c]));
    } else if c > i {
        assert(!p(es[i]));
    }
}

/// Whether monitor entry `e` tracks window `h`.
pub open spec fn tracks(h: Hwnd) -> spec_fn((isize, MonitorState)) -> bool {
    |e: (isize, MonitorState)| e.1.ws_of(h) is Some
}

/// Whether monitor entry `e`, other than the one keyed `k`, tracks window `h`.
pub open spec fn tracks_elsewhere(h: Hwnd, k: isize) -> spec_fn((isize, MonitorState)) -> bool {
    |e: (isize, MonitorState)| e.0 != k && e.1.ws_of(h) is Some
}

/// Whether monitor entry `e` holds window `h` in a zone.
pub open spec fn zones(h: Hwnd) -> spec_fn((isize, MonitorState)) -> bool {
    |e: (isize, MonitorState)| e.1.spec_window_state(h) is Zoned
}

/// `new` is `old` with at most entry `i` changed, and that one under the same key.
pub open spec fn same_except(old: Seq<(isize, MonitorState)>, new: Seq<(isize, MonitorState)>, i: int) -> bool {
    &&& new.len() == old.len()
    &&& new[i].0 == old[i].0
    &&& forall|j: int| 0 <= j < old.len() && j != i ==> #[trigger] new[j] == old[j]
}

/// When window `hwnd` gets the focus, the first monitor that tracks it shows its workspace.
pub fn on_foreground<S: WindowSystem>(states: &mut StateMap, hwnd: Hwnd, sys: &S)
    requires
        old(states).wf(),
    ensures
        final(states).wf(),
        match first_where(old(states).entries@, tracks(hwnd)) {
            None => *final(states) == *old(states),
            Some(i) => same_except(old(states).entries@, final(states).entries@, i)
                && old(states).entries@[i].1.switched_workspace(old(states).entries@[i].1.ws_of(hwnd)->0, final(states).entries@[i].1),
        },
{
    let mut i: usize = 0;
    while i < states.entries.len()
        invariant
            i <= states.entries@.len(),
            states.wf(),
            *states == *old(states),
            forall|k: int| 0 <= k < i ==> !tracks(hwnd)(#[trigger] states.entries@[k]),
        decreases states.entries@.len() - i,
    {
        match states.entries[i].1.find_workspace(hwnd) {
            Some(ws_idx) => {
                proof { lemma_first_where(old(states).entries@, tracks(hwnd), i as int); }
                let ghost o = states.entries@[i as int].1;
                states.entries[i].1.switch_workspace(ws_idx, sys);
                assert(o.switched_workspace(o.ws_of(hwnd)->0, states.entries@[i as int].1));
                return;
            },
            None => {},
        }
        i = i + 1;
    }
    assert(first_where(old(states).entries@, tracks(hwnd)) is None);
}

/// When window `hwnd` comes back from being minimised, every monitor state follows.
pub fn on_minimize_end(states: &mut StateMap, hwnd: Hwnd)
    requires
        old(states).wf(),
    ensures
        final(states).wf(),
        final(states).entries@.len() == old(states).entries@.len(),
        forall|i: int| 0 <= i < old(states).entries@.len() ==> (#[trigger] final(states).entries@[i]).0
            == old(states).entries@[i].0 && old(states).entries@[i].1.restored(hwnd, final(states).entries@[i].1),
{
    let mut i: usize = 0;
    while i < states.entries.len()
        invariant
            i <= states.entries@.len(),
            states.wf(),
            states.entries@.len() == old(states).entries@.len(),
            forall|k: int| 0 <= k < i ==> (#[trigger] states.entries@[k]).0 == old(states).entries@[k].0
                && old(states).entries@[k].1.restored(hwnd, states.entries@[k].1),
            forall|k: int| i <= k < states.entries@.len() ==> #[trigger] states.entries@[k] == old(states).entries@[k],
        decreases states.entries@.len() - i,
    {
        states.entries[i].1.on_window_restored(hwnd);
        i = i + 1;
    }
}

/// Whether a show or destroy event concerns a window itself (not a part of one).
pub fn is_window_object(id_object: i32, id_child: i32) -> (b: bool)
    ensures
        b == (id_object == 0 && id_child == 0),
{
    id_object == 0 && id_child == 0
}

/// When a window appears on the monitor keyed `mon_key`, that monitor captures the windows
/// it does not know yet.
pub fn on_window_shown<S: WindowSystem>(states: &mut StateMap, mon_key: isize, sys: &S)
    requires
        old(states).wf(),
        key_index(old(states).entries@, mon_key) matches Some(i) ==> old(states).entries@[i].1.active().layout_idx
            < old(states).entries@[i].1.layouts@.len(),
    ensures
        final(states).wf(),
        match key_index(old(states).entries@, mon_key) {
            None => *final(states) == *old(states),
            Some(i) => same_except(old(states).entries@, final(states).entries@, i)
                && old(states).entries@[i].1.captured(final(states).entries@[i].1),
        },
{
    match states.find(mon_key) {
        Some(i) => {
            states.entries[i].1.capture_all_windows(sys);
        },
        None => {},
    }
}

/// What destroying window `hwnd` does to the monitor that tracks it: it forgets the
/// window and, when the window sat in a zone of the active workspace, reflows.
pub open spec fn forgot_destroyed(o: MonitorState, hwnd: Hwnd, n: MonitorState) -> bool {
    if o.spec_window_state(hwnd) is Zoned && o.ws_of(hwnd) == Some(o.active_ws) {
        exists|mid: MonitorState| #[trigger] o.window_detached(hwnd, mid) && mid.reflowed_to(n)
    } else {
        o.window_detached(hwnd, n)
    }
}

/// When window `hwnd` is destroyed, the first monitor that tracks it forgets it.
pub fn on_window_destroyed(states: &mut StateMap, hwnd: Hwnd)
    requires
        old(states).wf(),
    ensures
        final(states).wf(),
        match first_where(old(states).entries@, tracks(hwnd)) {
            None => *final(states) == *old(states),
            Some(i) => same_except(old(states).entries@, final(states).entries@, i)
                && forgot_destroyed(old(states).entries@[i].1, hwnd, final(states).entries@[i].1),
        },
{
    let mut i: usize = 0;
    while i < states.entries.len()
        invariant
            i <= states.entries@.len(),
            states.wf(),
            *states == *old(states),
            forall|k: int| 0 <= k < i ==> !tracks(hwnd)(#[trigger] states.entries@[k]),
        decreases states.entries@.len() - i,
    {
        match states.entries[i].1.find_workspace(hwnd) {
            Some(ws_idx) => {
                proof { lemma_first_where(old(states).entries@, tracks(hwnd), i as int); }
                let ghost o = states.entries@[i as int].1;
                let was_zoned = match states.entries[i].1.window_state(hwnd) {
                    WindowState::Zoned(_) => true,
                    _ => false,
                };
                states.entries[i].1.detach_window(hwnd);
                let ghost mid = states.entries@[i as int].1;
                if was_zoned && ws_idx == states.entries[i].1.active_ws {
                    states.entries[i].1.reflow();
                    assert(o.window_detached(hwnd, mid));
                }
                return;
            },
            None => {},
        }
        i = i + 1;
    }
    assert(first_where(old(states).entries@, tracks(hwnd)) is None);
}

/// What dropping window `dragged` (whose rect was `pre_rect` when the drag began) on the
/// monitor keyed `key` does to the monitor entries `old`: with zone `idx` highlighted, the
/// first other monitor that tracks the window forgets it and the monitor keyed `key` takes
/// it into that zone; with none highlighted, the first monitor that holds it in a zone
/// makes it float.
/// Whether a window whose rect was `pre` when its drag began, and is `cur` (as far as the
/// system can tell; all zero otherwise) when it ends, changed size during the drag.
pub open spec fn resized_in_drag(cur: Option<Rect>, pre: Rect) -> bool {
    let c = match cur {
        Some(r) => r,
        None => Rect { left: 0, top: 0, right: 0, bottom: 0 },
    };
    c.spec_width() != pre.spec_width() || c.spec_height() != pre.spec_height()
}

/// `new` is `old` after `dragged`, whose rect was `pre` when its drag began and is `cur`
/// (as the system reports it) now, is dropped outside every zone: the first monitor that
/// holds it in a zone makes it float, and puts it back at its pre-snap rect unless the drag
/// resized it; nothing changes when no monitor holds it in a zone.
pub open spec fn dropped_outside(
    old: Seq<(isize, MonitorState)>,
    new: Seq<(isize, MonitorState)>,
    dragged: Hwnd,
    pre: Rect,
    cur: Option<Rect>,
) -> bool {
    match first_where(old, zones(dragged)) {
        None => new == old,
        Some(i) => same_except(old, new, i) && if resized_in_drag(cur, pre) {
            old[i].1.detached(new[i].1, dragged)
        } else {
            old[i].1.floated(new[i].1, dragged)
        },
    }
}

pub open spec fn dropped(
    old: Seq<(isize, MonitorState)>,
    new: Seq<(isize, MonitorState)>,
    dragged: Hwnd,
    pre_rect: Rect,
    key: isize,
    highlighted: Option<usize>,
) -> bool {
    match highlighted {
        Some(idx) => {
            &&& new.len() == old.len()
            &&& forall|i: int|
                0 <= i < old.len() ==> (#[trigger] new[i]).0 == old[i].0 && if old[i].0 == key {
                    old[i].1.assigned_to_zone(idx, dragged, pre_rect, new[i].1)
                } else if first_where(old, tracks_elsewhere(dragged, key)) == Some(i) {
                    old[i].1.window_detached(dragged, new[i].1)
                } else {
                    new[i] == old[i]
                }
        },
        None => exists|cur: Option<Rect>| #[trigger] dropped_outside(old, new, dragged, pre_rect, cur),
    }
}

/// A window dropped into a zone of the monitor keyed `key`, which at most one other
/// monitor tracked before, is tracked by no other monitor afterwards: no entry for it is
/// left behind on the monitor it came from.
pub proof fn lemma_zone_drop_leaves_no_stale_entry(
    old: Seq<(isize, MonitorState)>,
    new: Seq<(isize, MonitorState)>,
    dragged: Hwnd,
    pre: Rect,
    key: isize,
    idx: usize,
)
    requires
        dropped(old, new, dragged, pre, key, Some(idx)),
        forall|i: int, j: int|
            0 <= i < old.len() && 0 <= j < old.len() && #[trigger] tracks_elsewhere(dragged, key)(old[i])
                && #[trigger] tracks_elsewhere(dragged, key)(old[j]) ==> i == j,
    ensures
        forall|i: int| 0 <= i < new.len() && new[i].0 != key ==> (#[trigger] new[i]).1.ws_of(dragged) is None,
{
    assert forall|i: int| 0 <= i < new.len() && new[i].0 != key implies (#[trigger] new[i]).1.ws_of(dragged) is None by {
        if first_where(old, tracks_elsewhere(dragged, key)) == Some(i) {
            assert(old[i].1.window_detached(dragged, new[i].1));
            assert(new[i].1.owners() == old[i].1.owners().remove(dragged.0));
        } else {
            assert(new[i] == old[i]);
            if old[i].1.ws_of(dragged) is Some {
                assert(tracks_elsewhere(dragged, key)(old[i]));
                assert forall|k: int| 0 <= k < i implies !tracks_elsewhere(dragged, key)(#[trigger] old[k]) by {
                    if tracks_elsewhere(dragged, key)(old[k]) {
                        assert(k == i);
                    }
                }
                lemma_first_where(old, tracks_elsewhere(dragged, key), i);
            }
        }
    }
}

/// Ends the drag `ds` (its overlay already closed): the window goes into the highlighted
/// zone, and the snap to that zone's rect is returned, to be made before the queued calls;
/// or, dropped outside every zone, it floats, put back to its size from before it was
/// zoned unless the drag resized it.
pub fn on_drag_end<S: WindowSystem>(states: &mut StateMap, ds: &DragState, sys: &S) -> (snap: Option<SysCall>)
    requires
        old(states).wf(),
        ds.wf(),
    ensures
        final(states).wf(),
        dropped(old(states).entries@, final(states).entries@, ds.dragged, ds.pre_drag_rect, ds.monitor_key, ds.highlighted),
        snap == match ds.highlighted {
            Some(idx) => Some(SysCall::Snap(ds.dragged, ds.zones@[idx as int])),
            None => None,
        },
{
    match ds.highlighted {
        Some(idx) => {
            let snap = SysCall::Snap(ds.dragged, ds.zones[idx]);
            drop_into_zone(states, ds.dragged, ds.pre_drag_rect, ds.monitor_key, idx);
            Some(snap)
        },
        None => {
            let cur = if first_zoning(states, ds.dragged).is_some() {
                sys.window_rect(ds.dragged)
            } else {
                None
            };
            drop_outside_with(states, ds.dragged, ds.pre_drag_rect, cur);
            assert(dropped_outside(old(states).entries@, states.entries@, ds.dragged, ds.pre_drag_rect, cur));
            None
        },
    }
}

fn drop_into_zone(states: &mut StateMap, dragged: Hwnd, pre_rect: Rect, key: isize, idx: usize)
    requires
        old(states).wf(),
    ensures
        final(states).wf(),
        dropped(old(states).entries@, final(states).entries@, dragged, pre_rect, key, Some(idx)),
{
    let ghost o = states.entries@;
    let src = first_tracking_elsewhere(states, dragged, key);
    match src {
        Some(i) => {
            states.entries[i].1.detach_window(dragged);
        },
        None => {},
    }
    let ghost mid = states.entries@;
    match states.find(key) {
        Some(j) => {
            states.entries[j].1.assign_to_zone(idx, dragged, pre_rect);
        },
        None => {},
    }
    assert forall|k: int| 0 <= k < o.len() implies (#[trigger] states.entries@[k]).0 == o[k].0 && if o[k].0 == key {
        o[k].1.assigned_to_zone(idx, dragged, pre_rect, states.entries@[k].1)
    } else if first_where(o, tracks_elsewhere(dragged, key)) == Some(k) {
        o[k].1.window_detached(dragged, states.entries@[k].1)
    } else {
        states.entries@[k] == o[k]
    } by {
        if o[k].0 == key {
            assert(mid[k] == o[k]);
        }
    }
}

/// Drops `dragged`, whose rect was `pre` when its drag began and is `sys_cur` (as the
/// system reports it) now, outside every zone: the first monitor that holds it in a zone
/// makes it float, and puts it back at its pre-snap rect unless the drag resized it.
pub fn drop_outside_with(states: &mut StateMap, dragged: Hwnd, pre: Rect, sys_cur: Option<Rect>)
    requires
        old(states).wf(),
    ensures
        final(states).wf(),
        dropped_outside(old(states).entries@, final(states).entries@, dragged, pre, sys_cur),
{
    let ghost o = states.entries@;
    match first_zoning(states, dragged) {
        Some(i) => {
            let ghost e = o[i as int].1;
            let cur = match sys_cur {
                Some(r) => r,
                None => Rect { left: 0, top: 0, right: 0, bottom: 0 },
            };
            let resized = (cur.right as i64 - cur.left as i64) != (pre.right as i64 - pre.left as i64)
                || (cur.bottom as i64 - cur.top as i64) != (pre.bottom as i64 - pre.top as i64);
            let ghost c = match sys_cur {
                Some(r) => r,
                None => Rect { left: 0, top: 0, right: 0, bottom: 0 },
            };
            assert(c == cur);
            if resized {
                states.entries[i].1.set_floating_in_place(dragged);
            } else {
                states.entries[i].1.set_floating(dragged);
            }
            assert(resized == resized_in_drag(sys_cur, pre));
            assert(if resized_in_drag(sys_cur, pre) {
                e.detached(states.entries@[i as int].1, dragged)
            } else {
                e.floated(states.entries@[i as int].1, dragged)
            });
            assert(same_except(o, states.entries@, i as int));
        },
        None => {},
    }
}

/// Index of the first monitor entry, other than the one keyed `key`, that tracks `h`.
fn first_tracking_elsewhere(states: &StateMap, h: Hwnd, key: isize) -> (r: Option<usize>)
    requires
        states.wf(),
    ensures
        match r {
            Some(i) => first_where(states.entries@, tracks_elsewhere(h, key)) == Some(i as int) && i < states.entries@.len()
                && states.entries@[i as int].0 != key,
            None => first_where(states.entries@, tracks_elsewhere(h, key)) is None,
        },
{
    let mut i: usize = 0;
    while i < states.entries.len()
        invariant
            i <= states.entries@.len(),
            states.wf(),
            forall|k: int| 0 <= k < i ==> !tracks_elsewhere(h, key)(#[trigger] states.entries@[k]),
        decreases states.entries@.len() - i,
    {
        if states.entries[i].0 != key && states.entries[i].1.find_workspace(h).is_some() {
            proof { lemma_first_where(states.entries@, tracks_elsewhere(h, key), i as int); }
            return Some(i);
        }
        i = i + 1;
    }
    None
}

/// Index of the first monitor entry that holds `h` in a zone.
fn first_zoning(states: &StateMap, h: Hwnd) -> (r: Option<usize>)
    requires
        states.wf(),
    ensures
        match r {
            Some(i) => first_where(states.entries@, zones(h)) == Some(i as int) && i < states.entries@.len()
                && states.entries@[i as int].1.is_zoned_here(h),
            None => first_where(states.entries@, zones(h)) is None,
        },
{
    let mut i: usize = 0;
    while i < states.entries.len()
        invariant
            i <= states.entries@.len(),
            states.wf(),
            forall|k: int| 0 <= k < i ==> !zones(h)(#[trigger] states.entries@[k]),
        decreases states.entries@.len() - i,
    {
        let zoned = match states.entries[i].1.window_state(h) {
            WindowState::Zoned(_) => true,
            _ => false,
        };
        if zoned {
            proof { lemma_first_where(states.entries@, zones(h), i as int); }
            return Some(i);
        }
        i = i + 1;
    }
    None
}

} // verus!

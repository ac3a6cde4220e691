//! The actions a key combo can trigger, and their names in the configuration.
pub mod hooks;
pub mod keymap;

use vstd::prelude::*;
use vstd::string::*;

use crate::actions::hooks::same_except;
use crate::commands::window::{
    focus_listing, handle_cycle, handle_focus_move, handle_window_move, handle_window_swap, joined, move_target,
    moved_across, others_scorable, swap_result,
};
use crate::models::monitor::Rect;
use crate::models::system::{Hwnd, WindowSystem};
use crate::state::monitor_state::MonitorState;
use crate::state::window_state::{Direction, WindowState, lemma_direction_name_round_trip, spec_nearest};
use crate::state::{StateMap, key_index, locks_toggled};
use crate::text::{
    append_decimal, decimal, lemma_not_prefix, lemma_parse_decimal_of_decimal, lemma_strip_prefix_of_concat, parse_decimal,
    spec_parse_decimal, spec_strip_prefix, str_eq, strip_prefix,
};

verus! {

/// Something the user asks the window manager to do.
#[derive(PartialEq, Eq, Clone, Copy, Debug, Structural)]
pub enum Action {
    SetLayout(usize),
    SetWorkspace(usize),
    WinMoveWS(usize),
    ToggleFloat,
    ToggleMonLock,
    WinCycle(bool),
    WinFocus(Direction),
    WinMove(Direction),
    WinSwap(Direction),
    WinStretch(Direction),
    WinShrink(Direction),
    WinFullscreen,
    WinMinimize,
}

/// The index that follows in `rest`, counted from 1, as a position counted from 0.
pub open spec fn index_from_one(rest: Seq<char>) -> Option<usize> {
    match spec_parse_decimal(rest, usize::MAX as nat) {
        Some(v) => Some((v - 1) as usize),
        None => None,
    }
}

impl Action {
    /// The name `to_string` gives the action.
    pub open spec fn name(self) -> Seq<char> {
        match self {
            Action::SetLayout(i) => "set_layout_"@ + decimal(i as nat),
            Action::SetWorkspace(i) => "set_workspace_"@ + decimal(i as nat),
            Action::WinMoveWS(i) => "move_to_workspace_"@ + decimal(i as nat),
            Action::ToggleFloat => "toggle_float"@,
            Action::ToggleMonLock => "toggle_monitor_lock"@,
            Action::WinCycle(fw) => "cycle_window_"@ + if fw { "next"@ } else { "prev"@ },
            Action::WinFocus(d) => "move_focus_"@ + d.name(),
            Action::WinMove(d) => "move_window_"@ + d.name(),
            Action::WinSwap(d) => "swap_window_"@ + d.name(),
            Action::WinStretch(d) => "stretch_window_"@ + d.name(),
            Action::WinShrink(d) => "shrink_window_"@ + d.name(),
            Action::WinFullscreen => "set_fullscreen"@,
            Action::WinMinimize => "set_minimized"@,
        }
    }

    /// The action that `from_string` reads from `s`. An index in a name counts from 1.
    pub open spec fn spec_from_name(s: Seq<char>) -> Option<Action> {
        if s == "toggle_float"@ {
            Some(Action::ToggleFloat)
        } else if s == "toggle_monitor_lock"@ {
            Some(Action::ToggleMonLock)
        } else if s == "set_fullscreen"@ {
            Some(Action::WinFullscreen)
        } else if s == "set_minimized"@ {
            Some(Action::WinMinimize)
        } else if let Some(rest) = spec_strip_prefix(s, "set_layout_"@) {
            match index_from_one(rest) {
                Some(i) => Some(Action::SetLayout(i)),
                None => None,
            }
        } else if let Some(rest) = spec_strip_prefix(s, "set_workspace_"@) {
            match index_from_one(rest) {
                Some(i) => Some(Action::SetWorkspace(i)),
                None => None,
            }
        } else if let Some(rest) = spec_strip_prefix(s, "move_to_workspace_"@) {
            match index_from_one(rest) {
                Some(i) => Some(Action::WinMoveWS(i)),
                None => None,
            }
        } else if let Some(rest) = spec_strip_prefix(s, "cycle_window_"@) {
            if rest == "next"@ {
                Some(Action::WinCycle(true))
            } else if rest == "prev"@ {
                Some(Action::WinCycle(false))
            } else {
                None
            }
        } else if let Some(rest) = spec_strip_prefix(s, "move_focus_"@) {
            match Direction::spec_from_name(rest) {
                Some(d) => Some(Action::WinFocus(d)),
                None => None,
            }
        } else if let Some(rest) = spec_strip_prefix(s, "move_window_"@) {
            match Direction::spec_from_name(rest) {
                Some(d) => Some(Action::WinMove(d)),
                None => None,
            }
        } else if let Some(rest) = spec_strip_prefix(s, "swap_window_"@) {
            match Direction::spec_from_name(rest) {
                Some(d) => Some(Action::WinSwap(d)),
                None => None,
            }
        } else if let Some(rest) = spec_strip_prefix(s, "stretch_window_"@) {
            match Direction::spec_from_name(rest) {
                Some(d) => Some(Action::WinStretch(d)),
                None => None,
            }
        } else if let Some(rest) = spec_strip_prefix(s, "shrink_window_"@) {
            match Direction::spec_from_name(rest) {
                Some(d) => Some(Action::WinShrink(d)),
                None => None,
            }
        } else {
            None
        }
    }

    /// Whether `s` names a layout or workspace action with index 0, which names count from
    /// 1 and which `from_string` cannot turn into a position.
    pub open spec fn spec_has_zero_index(s: Seq<char>) -> bool {
        if s == "toggle_float"@ || s == "toggle_monitor_lock"@ || s == "set_fullscreen"@ || s == "set_minimized"@ {
            false
        } else if let Some(rest) = spec_strip_prefix(s, "set_layout_"@) {
            spec_parse_decimal(rest, usize::MAX as nat) == Some(0nat)
        } else if let Some(rest) = spec_strip_prefix(s, "set_workspace_"@) {
            spec_parse_decimal(rest, usize::MAX as nat) == Some(0nat)
        } else if let Some(rest) = spec_strip_prefix(s, "move_to_workspace_"@) {
            spec_parse_decimal(rest, usize::MAX as nat) == Some(0nat)
        } else {
            false
        }
    }

    /// The action's name, such as `set_layout_0` or `move_focus_left`; an index is
    /// written as the action holds it, counted from 0.
    pub fn to_string(&self) -> (s: String)
        ensures
            s@ == self.name(),
    {
        match self {
            Action::SetLayout(idx) => {
                let mut s = String::from_str("set_layout_");
                append_decimal(&mut s, *idx as u64);
                s
            },
            Action::SetWorkspace(idx) => {
                let mut s = String::from_str("set_workspace_");
                append_decimal(&mut s, *idx as u64);
                s
            },
            Action::WinMoveWS(idx) => {
                let mut s = String::from_str("move_to_workspace_");
                append_decimal(&mut s, *idx as u64);
                s
            },
            Action::ToggleFloat => String::from_str("toggle_float"),
            Action::ToggleMonLock => String::from_str("toggle_monitor_lock"),
            Action::WinCycle(fw) => {
                let mut s = String::from_str("cycle_window_");
                if *fw {
                    s.append("next");
                } else {
                    s.append("prev");
                }
                s
            },
            Action::WinFocus(dir) => {
                let mut s = String::from_str("move_focus_");
                let d = dir.to_string();
                s.append(d.as_str());
                s
            },
            Action::WinMove(dir) => {
                let mut s = String::from_str("move_window_");
                let d = dir.to_string();
                s.append(d.as_str());
                s
            },
            Action::WinSwap(dir) => {
                let mut s = String::from_str("swap_window_");
                let d = dir.to_string();
                s.append(d.as_str());
                s
            },
            Action::WinStretch(dir) => {
                let mut s = String::from_str("stretch_window_");
                let d = dir.to_string();
                s.append(d.as_str());
                s
            },
            Action::WinShrink(dir) => {
                let mut s = String::from_str("shrink_window_");
                let d = dir.to_string();
                s.append(d.as_str());
                s
            },
            Action::WinFullscreen => String::from_str("set_fullscreen"),
            Action::WinMinimize => String::from_str("set_minimized"),
        }
    }

    /// Whether `s` names a layout or workspace action with index 0; `from_string` must not
    /// be asked to read such a name.
    pub fn has_zero_index(s: &str) -> (b: bool)
        ensures
            b == Action::spec_has_zero_index(s@),
    {
        if str_eq(s, "toggle_float") || str_eq(s, "toggle_monitor_lock") || str_eq(s, "set_fullscreen") || str_eq(s, "set_minimized") {
            false
        } else if let Some(rest) = strip_prefix(s, "set_layout_") {
            parse_decimal(rest, usize::MAX as u64) == Some(0u64)
        } else if let Some(rest) = strip_prefix(s, "set_workspace_") {
            parse_decimal(rest, usize::MAX as u64) == Some(0u64)
        } else if let Some(rest) = strip_prefix(s, "move_to_workspace_") {
            parse_decimal(rest, usize::MAX as u64) == Some(0u64)
        } else {
            false
        }
    }

    /// Reads the action that `s` names. Layout and workspace indices in names count from 1.
    pub fn from_string(s: &str) -> (a: Option<Action>)
        requires
            !Action::spec_has_zero_index(s@),
        ensures
            a == Action::spec_from_name(s@),
    {
        if str_eq(s, "toggle_float") {
            Some(Action::ToggleFloat)
        } else if str_eq(s, "toggle_monitor_lock") {
            Some(Action::ToggleMonLock)
        } else if str_eq(s, "set_fullscreen") {
            Some(Action::WinFullscreen)
        } else if str_eq(s, "set_minimized") {
            Some(Action::WinMinimize)
        } else if let Some(rest) = strip_prefix(s, "set_layout_") {
            match parse_decimal(rest, usize::MAX as u64) {
                Some(v) => Some(Action::SetLayout((v - 1) as usize)),
                None => None,
            }
        } else if let Some(rest) = strip_prefix(s, "set_workspace_") {
            match parse_decimal(rest, usize::MAX as u64) {
                Some(v) => Some(Action::SetWorkspace((v - 1) as usize)),
                None => None,
            }
        } else if let Some(rest) = strip_prefix(s, "move_to_workspace_") {
            match parse_decimal(rest, usize::MAX as u64) {
                Some(v) => Some(Action::WinMoveWS((v - 1) as usize)),
                None => None,
            }
        } else if let Some(rest) = strip_prefix(s, "cycle_window_") {
            if str_eq(rest, "next") {
                Some(Action::WinCycle(true))
            } else if str_eq(rest, "prev") {
                Some(Action::WinCycle(false))
            } else {
                None
            }
        } else if let Some(rest) = strip_prefix(s, "move_focus_") {
            match Direction::from_string(rest) {
                Some(d) => Some(Action::WinFocus(d)),
                None => None,
            }
        } else if let Some(rest) = strip_prefix(s, "move_window_") {
            match Direction::from_string(rest) {
                Some(d) => Some(Action::WinMove(d)),
                None => None,
            }
        } else if let Some(rest) = strip_prefix(s, "swap_window_") {
            match Direction::from_string(rest) {
                Some(d) => Some(Action::WinSwap(d)),
                None => None,
            }
        } else if let Some(rest) = strip_prefix(s, "stretch_window_") {
            match Direction::from_string(rest) {
                Some(d) => Some(Action::WinStretch(d)),
                None => None,
            }
        } else if let Some(rest) = strip_prefix(s, "shrink_window_") {
            match Direction::from_string(rest) {
                Some(d) => Some(Action::WinShrink(d)),
                None => None,
            }
        } else {
            None
        }
    }
}

/// Every action is read back from its name, except that an index, which names write
/// counting from 0 and which is read counting from 1, comes back one lower, and a name
/// with index 0 is not read at all.
pub proof fn lemma_action_name_round_trip(a: Action)
    ensures
        match a {
            Action::SetLayout(i) => if i >= 1 {
                Action::spec_from_name(a.name()) == Some(Action::SetLayout((i - 1) as usize))
                    && !Action::spec_has_zero_index(a.name())
            } else {
                Action::spec_has_zero_index(a.name())
            },
            Action::SetWorkspace(i) => if i >= 1 {
                Action::spec_from_name(a.name()) == Some(Action::SetWorkspace((i - 1) as usize))
                    && !Action::spec_has_zero_index(a.name())
            } else {
                Action::spec_has_zero_index(a.name())
            },
            Action::WinMoveWS(i) => if i >= 1 {
                Action::spec_from_name(a.name()) == Some(Action::WinMoveWS((i - 1) as usize))
                    && !Action::spec_has_zero_index(a.name())
            } else {
                Action::spec_has_zero_index(a.name())
            },
            _ => Action::spec_from_name(a.name()) == Some(a) && !Action::spec_has_zero_index(a.name()),
        },
{
    reveal_strlit("toggle_float");
    reveal_strlit("toggle_monitor_lock");
    reveal_strlit("set_fullscreen");
    reveal_strlit("set_minimized");
    reveal_strlit("set_layout_");
    reveal_strlit("set_workspace_");
    reveal_strlit("move_to_workspace_");
    reveal_strlit("cycle_window_");
    reveal_strlit("move_focus_");
    reveal_strlit("move_window_");
    reveal_strlit("swap_window_");
    reveal_strlit("stretch_window_");
    reveal_strlit("shrink_window_");
    reveal_strlit("next");
    reveal_strlit("prev");
    match a {
        Action::SetLayout(i) => {
            lemma_parse_decimal_of_decimal(i as nat, usize::MAX as nat);
            lemma_strip_prefix_of_concat("set_layout_"@, decimal(i as nat));
            let n = a.name();
            assert(n[0] == "set_layout_"@[0] && n[4] == "set_layout_"@[4]);
            assert(n[0] != "toggle_float"@[0] && n[0] != "toggle_monitor_lock"@[0]);
            assert(n[4] != "set_fullscreen"@[4] && n[4] != "set_minimized"@[4]);
        },
        Action::SetWorkspace(i) => {
            lemma_parse_decimal_of_decimal(i as nat, usize::MAX as nat);
            lemma_strip_prefix_of_concat("set_workspace_"@, decimal(i as nat));
            let n = a.name();
            assert(n[0] == "set_workspace_"@[0] && n[4] == "set_workspace_"@[4]);
            assert(n[0] != "toggle_float"@[0] && n[0] != "toggle_monitor_lock"@[0]);
            assert(n[4] != "set_fullscreen"@[4] && n[4] != "set_minimized"@[4]);
            lemma_not_prefix(n, "set_layout_"@, 4);
        },
        Action::WinMoveWS(i) => {
            lemma_parse_decimal_of_decimal(i as nat, usize::MAX as nat);
            lemma_strip_prefix_of_concat("move_to_workspace_"@, decimal(i as nat));
            let n = a.name();
            assert(n[0] == "move_to_workspace_"@[0]);
            assert(n[0] != "toggle_float"@[0] && n[0] != "toggle_monitor_lock"@[0]);
            assert(n[0] != "set_fullscreen"@[0] && n[0] != "set_minimized"@[0]);
            lemma_not_prefix(n, "set_layout_"@, 0);
            lemma_not_prefix(n, "set_workspace_"@, 0);
        },
        Action::WinCycle(fw) => {
            lemma_strip_prefix_of_concat("cycle_window_"@, if fw { "next"@ } else { "prev"@ });
            assert("prev"@[0] != "next"@[0]);
            let n = a.name();
            assert(n[0] == "cycle_window_"@[0]);
            assert(n[0] != "toggle_float"@[0]);
            assert(n[0] != "toggle_monitor_lock"@[0]);
            assert(n[0] != "set_fullscreen"@[0]);
            assert(n[0] != "set_minimized"@[0]);
            lemma_not_prefix(n, "set_layout_"@, 0);
            lemma_not_prefix(n, "set_workspace_"@, 0);
            lemma_not_prefix(n, "move_to_workspace_"@, 0);
        },
        Action::WinFocus(d) => {
            lemma_direction_name_round_trip(d);
            lemma_strip_prefix_of_concat("move_focus_"@, d.name());
            let n = a.name();
            assert(n[0] == "move_focus_"@[0]);
            assert(n[5] == "move_focus_"@[5]);
            assert(n[0] != "toggle_float"@[0]);
            assert(n[0] != "toggle_monitor_lock"@[0]);
            assert(n[0] != "set_fullscreen"@[0]);
            assert(n[0] != "set_minimized"@[0]);
            lemma_not_prefix(n, "set_layout_"@, 0);
            lemma_not_prefix(n, "set_workspace_"@, 0);
            lemma_not_prefix(n, "move_to_workspace_"@, 5);
            lemma_not_prefix(n, "cycle_window_"@, 0);
        },
        Action::WinMove(d) => {
            lemma_direction_name_round_trip(d);
            lemma_strip_prefix_of_concat("move_window_"@, d.name());
            let n = a.name();
            assert(n[0] == "move_window_"@[0]);
            assert(n[5] == "move_window_"@[5]);
            assert(n[0] != "toggle_float"@[0]);
            assert(n[0] != "toggle_monitor_lock"@[0]);
            assert(n[0] != "set_fullscreen"@[0]);
            assert(n[0] != "set_minimized"@[0]);
            lemma_not_prefix(n, "set_layout_"@, 0);
            lemma_not_prefix(n, "set_workspace_"@, 0);
            lemma_not_prefix(n, "move_to_workspace_"@, 5);
            lemma_not_prefix(n, "cycle_window_"@, 0);
            lemma_not_prefix(n, "move_focus_"@, 5);
        },
        Action::WinSwap(d) => {
            lemma_direction_name_round_trip(d);
            lemma_strip_prefix_of_concat("swap_window_"@, d.name());
            let n = a.name();
            assert(n[0] == "swap_window_"@[0]);
            assert(n[1] == "swap_window_"@[1]);
            assert(n[0] != "toggle_float"@[0]);
            assert(n[0] != "toggle_monitor_lock"@[0]);
            assert(n[1] != "set_fullscreen"@[1]);
            assert(n[1] != "set_minimized"@[1]);
            lemma_not_prefix(n, "set_layout_"@, 1);
            lemma_not_prefix(n, "set_workspace_"@, 1);
            lemma_not_prefix(n, "move_to_workspace_"@, 0);
            lemma_not_prefix(n, "cycle_window_"@, 0);
            lemma_not_prefix(n, "move_focus_"@, 0);
            lemma_not_prefix(n, "move_window_"@, 0);
        },
        Action::WinStretch(d) => {
            lemma_direction_name_round_trip(d);
            lemma_strip_prefix_of_concat("stretch_window_"@, d.name());
            let n = a.name();
            assert(n[0] == "stretch_window_"@[0]);
            assert(n[1] == "stretch_window_"@[1]);
            assert(n[0] != "toggle_float"@[0]);
            assert(n[0] != "toggle_monitor_lock"@[0]);
            assert(n[1] != "set_fullscreen"@[1]);
            assert(n[1] != "set_minimized"@[1]);
            lemma_not_prefix(n, "set_layout_"@, 1);
            lemma_not_prefix(n, "set_workspace_"@, 1);
            lemma_not_prefix(n, "move_to_workspace_"@, 0);
            lemma_not_prefix(n, "cycle_window_"@, 0);
            lemma_not_prefix(n, "move_focus_"@, 0);
            lemma_not_prefix(n, "move_window_"@, 0);
            lemma_not_prefix(n, "swap_window_"@, 1);
        },
        Action::WinShrink(d) => {
            lemma_direction_name_round_trip(d);
            lemma_strip_prefix_of_concat("shrink_window_"@, d.name());
            let n = a.name();
            assert(n[0] == "shrink_window_"@[0]);
            assert(n[1] == "shrink_window_"@[1]);
            assert(n[0] != "toggle_float"@[0]);
            assert(n[0] != "toggle_monitor_lock"@[0]);
            assert(n[1] != "set_fullscreen"@[1]);
            assert(n[1] != "set_minimized"@[1]);
            lemma_not_prefix(n, "set_layout_"@, 1);
            lemma_not_prefix(n, "set_workspace_"@, 1);
            lemma_not_prefix(n, "move_to_workspace_"@, 0);
            lemma_not_prefix(n, "cycle_window_"@, 0);
            lemma_not_prefix(n, "move_focus_"@, 0);
            lemma_not_prefix(n, "move_window_"@, 0);
            lemma_not_prefix(n, "swap_window_"@, 1);
            lemma_not_prefix(n, "stretch_window_"@, 1);
        },
        Action::ToggleMonLock => {
            assert("toggle_monitor_lock"@.len() != "toggle_float"@.len());
        },
        Action::WinFullscreen => {
            assert("set_fullscreen"@[0] != "toggle_float"@[0] && "set_fullscreen"@[0] != "toggle_monitor_lock"@[0]);
        },
        Action::WinMinimize => {
            assert("set_minimized"@[0] != "toggle_float"@[0] && "set_minimized"@[0] != "toggle_monitor_lock"@[0]);
            assert("set_minimized"@[4] != "set_fullscreen"@[4]);
        },
        Action::ToggleFloat => {},
    }
}

/// What the application must do once an action has run.
pub enum Effect {
    /// Nothing more.
    Nothing,
    /// Flash the zones `.1` over work area `.0`.
    ShowFlash(Rect, Vec<Rect>),
    /// Take the zone flash down.
    CancelFlash,
    /// Bring the window to the foreground.
    Foreground(Hwnd),
    /// Bring the window to the foreground and clear the focus border of the window that
    /// had the focus.
    MoveFocus(Hwnd),
    /// Minimise the focused window, then bring the window that `last_focused_on` names for
    /// its monitor to the foreground.
    Minimize,
    /// No rect is known for the focused window, so it could not be moved to another workspace.
    NoWindowRect,
}

/// What `set_layout` does: the focused monitor shows layout `idx` on its active workspace,
/// reflows, and the new layout's zones are flashed (or the flash taken down without one).
pub open spec fn layout_set(old: Seq<(isize, MonitorState)>, new: Seq<(isize, MonitorState)>, mon_key: isize, idx: usize, e: Effect) -> bool {
    match key_index(old, mon_key) {
        None => new == old && e is Nothing,
        Some(i) => {
            &&& same_except(old, new, i)
            &&& exists|mid: MonitorState| #[trigger] old[i].1.switched_layout(idx, mid) && mid.reflowed_to(new[i].1)
            &&& match new[i].1.layout_of(new[i].1.active_ws as int) {
                Some(l) => e matches Effect::ShowFlash(wa, zs) && wa == new[i].1.monitor.work_area && zs@ == l.zones@,
                None => e is CancelFlash,
            }
        },
    }
}

/// What `set_workspace` does: the focused monitor switches to workspace `idx` and the
/// window last focused there comes to the foreground.
pub open spec fn workspace_set(old: Seq<(isize, MonitorState)>, new: Seq<(isize, MonitorState)>, mon_key: isize, idx: usize, e: Effect) -> bool {
    match key_index(old, mon_key) {
        None => new == old && e is Nothing,
        Some(i) => {
            &&& same_except(old, new, i)
            &&& old[i].1.switched_workspace(idx, new[i].1)
            &&& exists|r: Option<Hwnd>| #[trigger] new[i].1.last_focused_choice(r) && e == match r {
                Some(h) => Effect::Foreground(h),
                None => Effect::Nothing,
            }
        },
    }
}

/// What `move_window_ws` does: the focused window moves to workspace `idx` of its monitor,
/// which then switches there; without a known rect for the window nothing changes.
pub open spec fn moved_to_ws(old: Seq<(isize, MonitorState)>, new: Seq<(isize, MonitorState)>, mon_key: isize, focused: Hwnd, idx: usize, e: Effect) -> bool {
    match key_index(old, mon_key) {
        None => new == old && e is Nothing,
        Some(i) => {
            &&& same_except(old, new, i)
            &&& exists|mid: MonitorState, done: bool| #[trigger] old[i].1.moved_to_workspace(focused, idx, done, mid) && if done {
                mid.switched_workspace(idx, new[i].1) && e is Nothing
            } else {
                new[i].1 == mid && e is NoWindowRect
            }
        },
    }
}

/// What `toggle_float` does: a focused window that is not floating is made to float; one
/// that floats stays as it is.
pub open spec fn float_toggled(old: Seq<(isize, MonitorState)>, new: Seq<(isize, MonitorState)>, mon_key: isize, focused: Hwnd) -> bool {
    match key_index(old, mon_key) {
        None => new == old,
        Some(i) => if old[i].1.spec_window_state(focused) is Floating || !old[i].1.is_zoned_here(focused) {
            new == old
        } else {
            same_except(old, new, i) && old[i].1.floated(new[i].1, focused)
        },
    }
}

/// What `cycle_window` does: the zone of the focused window cycles and the window brought
/// up takes the focus.
pub open spec fn zone_cycled(old: Seq<(isize, MonitorState)>, new: Seq<(isize, MonitorState)>, mon_key: isize, focused: Hwnd, forward: bool, e: Effect) -> bool {
    match key_index(old, mon_key) {
        None => new == old && e is Nothing,
        Some(i) => {
            &&& same_except(old, new, i)
            &&& exists|r: Option<Hwnd>| #[trigger] old[i].1.cycled(focused, forward, new[i].1, r) && e == match r {
                Some(t) => Effect::MoveFocus(t),
                None => Effect::Nothing,
            }
        },
    }
}

/// What `focus_window` does: the focus moves to the nearest focus candidate toward `dir`.
pub open spec fn focus_moved(old: Seq<(isize, MonitorState)>, mon_key: isize, focused: Hwnd, rect: Rect, dir: Direction, e: Effect) -> bool {
    exists|parts: Seq<Seq<(Hwnd, Rect)>>| #[trigger] focus_listing(old, mon_key, parts)
        && e == match spec_nearest(others_scorable(joined(parts), focused, rect, dir), rect, dir) {
            Some(t) => Effect::MoveFocus(t),
            None => Effect::Nothing,
        }
}

/// What running action `a` does to the monitor entries `old`, from the focused window
/// `focused` on the monitor keyed `mon_key`, whose visible rect is `rect` when known, and
/// what it leaves the application to do.
pub open spec fn executed(
    a: Action,
    old: Seq<(isize, MonitorState)>,
    new: Seq<(isize, MonitorState)>,
    mon_key: isize,
    focused: Hwnd,
    rect: Option<Rect>,
    e: Effect,
) -> bool {
    match a {
        Action::SetLayout(idx) => layout_set(old, new, mon_key, idx, e),
        Action::SetWorkspace(idx) => workspace_set(old, new, mon_key, idx, e),
        Action::WinMoveWS(idx) => moved_to_ws(old, new, mon_key, focused, idx, e),
        Action::ToggleFloat => float_toggled(old, new, mon_key, focused) && e is Nothing,
        Action::ToggleMonLock => locks_toggled(old, new) && e is Nothing,
        Action::WinCycle(fw) => zone_cycled(old, new, mon_key, focused, fw, e),
        Action::WinFocus(dir) => new == old && match rect {
            Some(r) => focus_moved(old, mon_key, focused, r, dir, e),
            None => e is Nothing,
        },
        Action::WinMove(dir) => e is Nothing && match rect {
            Some(r) => match move_target(old, mon_key, r, dir) {
                None => new == old,
                Some((dk, dz)) => moved_across(old, new, focused, mon_key, dk, dz),
            },
            None => new == old,
        },
        Action::WinSwap(dir) => e is Nothing && match rect {
            Some(r) => swap_result(old, new, focused, r, mon_key, dir),
            None => new == old,
        },
        Action::WinMinimize => new == old && e is Minimize,
        _ => new == old && e is Nothing,
    }
}

impl Action {
    /// Runs the action for the focused window `focused` on the monitor keyed `mon_key`;
    /// `focused_rect` is its visible rect, when the system could tell it. Returns what is
    /// left for the application to do. Stretching, shrinking and full-screen change nothing.
    pub fn execute<S: WindowSystem>(&self, states: &mut StateMap, mon_key: isize, focused: Hwnd, focused_rect: Option<Rect>, sys: &S) -> (e: Effect)
        requires
            old(states).wf(),
        ensures
            final(states).wf(),
            executed(*self, old(states).entries@, final(states).entries@, mon_key, focused, focused_rect, e),
    {
        match self {
            Action::SetLayout(idx) => set_layout(*idx, states, mon_key),
            Action::SetWorkspace(idx) => set_workspace(*idx, states, mon_key, sys),
            Action::WinMoveWS(idx) => move_window_ws(*idx, states, mon_key, focused, sys),
            Action::ToggleFloat => {
                toggle_float(states, mon_key, focused);
                Effect::Nothing
            },
            Action::ToggleMonLock => {
                states.toggle_monitor_lock();
                Effect::Nothing
            },
            Action::WinCycle(fw) => cycle_window(*fw, states, mon_key, focused, sys),
            Action::WinFocus(dir) => match focused_rect {
                Some(r) => match handle_focus_move(focused, r, mon_key, *dir, states, sys) {
                    Some(t) => Effect::MoveFocus(t),
                    None => Effect::Nothing,
                },
                None => Effect::Nothing,
            },
            Action::WinMove(dir) => {
                match focused_rect {
                    Some(r) => handle_window_move(focused, r, mon_key, *dir, states, sys),
                    None => {},
                }
                Effect::Nothing
            },
            Action::WinSwap(dir) => {
                match focused_rect {
                    Some(r) => handle_window_swap(focused, r, mon_key, *dir, states, sys),
                    None => {},
                }
                Effect::Nothing
            },
            Action::WinMinimize => Effect::Minimize,
            _ => Effect::Nothing,
        }
    }
}

fn set_layout(idx: usize, states: &mut StateMap, mon_key: isize) -> (e: Effect)
    requires
        old(states).wf(),
    ensures
        final(states).wf(),
        layout_set(old(states).entries@, final(states).entries@, mon_key, idx, e),
{
    match states.find(mon_key) {
        Some(i) => {
            let ghost o = states.entries@[i as int].1;
            states.entries[i].1.switch_layout(idx);
            let ghost mid = states.entries@[i as int].1;
            states.entries[i].1.reflow();
            assert(o.switched_layout(idx, mid));
            let ms = &states.entries[i].1;
            match ms.active_layout() {
                Some(l) => Effect::ShowFlash(ms.monitor.work_area, l.zones.clone()),
                None => Effect::CancelFlash,
            }
        },
        None => Effect::Nothing,
    }
}

#[verifier::spinoff_prover]
fn set_workspace<S: WindowSystem>(idx: usize, states: &mut StateMap, mon_key: isize, sys: &S) -> (e: Effect)
    requires
        old(states).wf(),
    ensures
        final(states).wf(),
        workspace_set(old(states).entries@, final(states).entries@, mon_key, idx, e),
{
    let ghost o = states.entries@;
    match states.find(mon_key) {
        Some(i) => {
            states.entries[i].1.switch_workspace(idx, sys);
            let r = states.entries[i].1.get_last_focused_window(sys);
            let e = match r {
                Some(h) => Effect::Foreground(h),
                None => Effect::Nothing,
            };
            assert(states.entries@[i as int].1.last_focused_choice(r));
            assert(workspace_set(o, states.entries@, mon_key, idx, e));
            e
        },
        None => {
            assert(workspace_set(o, states.entries@, mon_key, idx, Effect::Nothing));
            Effect::Nothing
        },
    }
}

fn move_window_ws<S: WindowSystem>(idx: usize, states: &mut StateMap, mon_key: isize, focused: Hwnd, sys: &S) -> (e: Effect)
    requires
        old(states).wf(),
    ensures
        final(states).wf(),
        moved_to_ws(old(states).entries@, final(states).entries@, mon_key, focused, idx, e),
{
    let ghost es = states.entries@;
    match states.find(mon_key) {
        Some(i) => {
            let ghost o = states.entries@[i as int].1;
            let done = states.entries[i].1.move_window_to_workspace(focused, idx, sys);
            let ghost mid = states.entries@[i as int].1;
            assert(o.moved_to_workspace(focused, idx, done, mid));
            let e = if done {
                states.entries[i].1.switch_workspace(idx, sys);
                assert(mid.switched_workspace(idx, states.entries@[i as int].1));
                Effect::Nothing
            } else {
                assert(states.entries@[i as int].1 == mid);
                Effect::NoWindowRect
            };
            assert(same_except(es, states.entries@, i as int));
            assert(key_index(es, mon_key) == Some(i as int));
            assert(es[i as int].1 == o);
            let ghost n = states.entries@[i as int].1;
            assert(o.moved_to_workspace(focused, idx, done, mid) && if done {
                mid.switched_workspace(idx, n) && e is Nothing
            } else {
                n == mid && e is NoWindowRect
            });
            assert(moved_to_ws(es, states.entries@, mon_key, focused, idx, e));
            e
        },
        None => {
            assert(moved_to_ws(es, states.entries@, mon_key, focused, idx, Effect::Nothing));
            Effect::Nothing
        },
    }
}

fn toggle_float(states: &mut StateMap, mon_key: isize, focused: Hwnd)
    requires
        old(states).wf(),
    ensures
        final(states).wf(),
        float_toggled(old(states).entries@, final(states).entries@, mon_key, focused),
{
    match states.find(mon_key) {
        Some(i) => {
            let floating = match states.entries[i].1.window_state(focused) {
                WindowState::Floating => true,
                _ => false,
            };
            let ghost o = old(states).entries@;
            if !floating {
                states.entries[i].1.set_floating(focused);
                proof {
                    if !o[i as int].1.is_zoned_here(focused) {
                        assert(states.entries@ =~= o);
                    }
                }
            }
        },
        None => {},
    }
}

fn cycle_window<S: WindowSystem>(fw: bool, states: &mut StateMap, mon_key: isize, focused: Hwnd, sys: &S) -> (e: Effect)
    requires
        old(states).wf(),
    ensures
        final(states).wf(),
        zone_cycled(old(states).entries@, final(states).entries@, mon_key, focused, fw, e),
{
    let ghost i = key_index(states.entries@, mon_key);
    let r = handle_cycle(focused, mon_key, fw, states, sys);
    proof {
        if i is Some {
            assert(old(states).entries@[i->0].1.cycled(focused, fw, states.entries@[i->0].1, r));
        }
    }
    match r {
        Some(t) => Effect::MoveFocus(t),
        None => Effect::Nothing,
    }
}

/// The window to bring to the foreground on the monitor keyed `mon_key` once the focused
/// window is minimised: the last focused one of its active workspace.
pub fn last_focused_on<S: WindowSystem>(states: &StateMap, mon_key: isize, sys: &S) -> (r: Option<Hwnd>)
    requires
        states.wf(),
    ensures
        match key_index(states.entries@, mon_key) {
            None => r is None,
            Some(i) => states.entries@[i].1.last_focused_choice(r),
        },
{
    match states.get(mon_key) {
        Some(ms) => ms.get_last_focused_window(sys),
        None => None,
    }
}

} // verus!

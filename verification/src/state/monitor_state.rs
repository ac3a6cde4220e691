use std::collections::HashMap;

use vstd::prelude::*;

use crate::models::monitor::{Monitor, Rect};
use crate::models::system::{Hwnd, SysCall, WindowSystem};
use crate::models::zone::{Layout, AUTO_SNAP_THRESHOLD, MAX_POS_DELTA, MAX_SIZE_DELTA};
use crate::state::window_state::{WindowRecord, WindowState};
use crate::state::workspace::{
    concat_all, first_pos, lemma_first_pos_is, remove_all, vec_contains, vec_position, without, zone_of, Workspace,
    WORKSPACE_COUNT,
};

verus! {

broadcast use vstd::std_specs::hash::group_hash_axioms;

/// Index of the first layout slot that holds a layout, or 0 when none does.
pub open spec fn first_layout(layouts: Seq<Option<Layout>>) -> int {
    if exists|i: int| 0 <= i < layouts.len() && layouts[i] is Some {
        choose|i: int|
            0 <= i < layouts.len() && layouts[i] is Some && forall|k: int|
                0 <= k < i ==> (#[trigger] layouts[k]) is None
    } else {
        0
    }
}

proof fn lemma_first_layout_is(layouts: Seq<Option<Layout>>, i: int)
    requires
        0 <= i < layouts.len(),
        layouts[i] is Some,
        forall|k: int| 0 <= k < i ==> (#[trigger] layouts[k]) is None,
    ensures
        first_layout(layouts) == i,
{
    let c = choose|c: int|
        0 <= c < layouts.len() && layouts[c] is Some && forall|k: int|
            0 <= k < c ==> (#[trigger] layouts[k]) is None;
    if c < i {
        assert(layouts[c] is None);
    } else if i < c {
        assert(layouts[i] is None);
    }
}

/// Number of zones of the layout in slot `idx`, if that slot holds one.
pub open spec fn spec_layout_len(layouts: Seq<Option<Layout>>, idx: int) -> Option<nat> {
    if 0 <= idx < layouts.len() && layouts[idx] is Some {
        Some(layouts[idx]->0.zones@.len())
    } else {
        None
    }
}

fn first_layout_idx(layouts: &Vec<Option<Layout>>) -> (r: usize)
    ensures
        r == first_layout(layouts@),
{
    let mut i: usize = 0;
    while i < layouts.len()
        invariant
            i <= layouts@.len(),
            forall|k: int| 0 <= k < i ==> (#[trigger] layouts@[k]) is None,
        decreases layouts@.len() - i,
    {
        if layouts[i].is_some() {
            proof { lemma_first_layout_is(layouts@, i as int); }
            return i;
        }
        i = i + 1;
    }
    0
}

fn layout_len_of(layouts: &Vec<Option<Layout>>, idx: usize) -> (r: Option<usize>)
    ensures
        match r {
            Some(n) => spec_layout_len(layouts@, idx as int) == Some(n as nat),
            None => spec_layout_len(layouts@, idx as int) is None,
        },
{
    if idx < layouts.len() {
        match &layouts[idx] {
            Some(l) => Some(l.zones.len()),
            None => None,
        }
    } else {
        None
    }
}

/// Per-monitor window bookkeeping: one set of workspaces, each with its layout,
/// its zoned windows (bottom to top per zone) and its floating windows.
pub struct MonitorState {
    pub monitor: Monitor,
    pub layouts: Vec<Option<Layout>>,
    pub workspaces: Vec<Workspace>,
    pub active_ws: usize,
    /// When true, focus/move/swap operations stay on this monitor.
    pub monitor_locked: bool,
    /// Reverse lookup: hwnd (as isize) → workspace index.
    pub hwnd_ws: HashMap<isize, usize>,
    /// Last rect each hwnd was snapped to.
    pub snap_cache: HashMap<isize, Rect>,
    /// Raw window rect captured before a window was first snapped to a zone.
    pub pre_snap_rects: HashMap<isize, Rect>,
    /// What the windowing system still has to do for this monitor, in order.
    pub commands: Vec<SysCall>,
}

impl MonitorState {
    /// Workspace `w`.
    pub open spec fn ws(self, w: int) -> Workspace {
        self.workspaces@[w]
    }

    /// Which workspace each tracked window (by handle value) belongs to.
    pub open spec fn owners(self) -> Map<isize, usize> {
        self.hwnd_ws@
    }

    /// Last rect each window was snapped to.
    pub open spec fn snapped(self) -> Map<isize, Rect> {
        self.snap_cache@
    }

    /// Rect each window had before it was first snapped to a zone.
    pub open spec fn pre_snap(self) -> Map<isize, Rect> {
        self.pre_snap_rects@
    }

    /// Every workspace exists, the active one among them, and every tracked window
    /// names one of them.
    pub open spec fn wf(self) -> bool {
        &&& self.workspaces@.len() == WORKSPACE_COUNT
        &&& self.active_ws < WORKSPACE_COUNT
        &&& forall|k: isize| #[trigger] self.hwnd_ws@.contains_key(k) ==> self.hwnd_ws@[k] < WORKSPACE_COUNT
    }

    /// Workspace of `h`, if tracked.
    pub open spec fn ws_of(self, h: Hwnd) -> Option<usize> {
        if self.owners().contains_key(h.0) {
            Some(self.owners()[h.0])
        } else {
            None
        }
    }

    pub open spec fn active(self) -> Workspace {
        self.ws(self.active_ws as int)
    }

    /// The layout that workspace `w` shows, if its slot holds one.
    pub open spec fn layout_of(self, w: int) -> Option<Layout> {
        let idx = self.ws(w).layout_idx;
        if idx < self.layouts@.len() {
            self.layouts@[idx as int]
        } else {
            None
        }
    }

    pub open spec fn spec_window_state(self, h: Hwnd) -> WindowState {
        match self.ws_of(h) {
            None => WindowState::Ignored,
            Some(w) => match zone_of(self.ws(w as int).zones(), h) {
                Some(z) => WindowState::Zoned(z as usize),
                None => WindowState::Floating,
            },
        }
    }

    /// `self` is the state of a monitor just set up on `monitor` with `layouts`: no window
    /// known, the first workspace active, every workspace on the first layout with that
    /// many empty zones.
    pub open spec fn is_initial(self, monitor: Monitor, layouts: Vec<Option<Layout>>) -> bool {
        &&& self.wf()
        &&& self.monitor == monitor
        &&& self.layouts == layouts
        &&& self.active_ws == 0
        &&& self.monitor_locked
        &&& self.owners() == Map::<isize, usize>::empty()
        &&& self.snapped() == Map::<isize, Rect>::empty()
        &&& self.pre_snap() == Map::<isize, Rect>::empty()
        &&& self.commands@ == Seq::<SysCall>::empty()
        &&& forall|w: int|
            0 <= w < WORKSPACE_COUNT ==> {
                &&& (#[trigger] self.ws(w)).layout_idx == first_layout(layouts@)
                &&& self.ws(w).zones() == Seq::new(
                    len_or_zero(spec_layout_len(layouts@, first_layout(layouts@))),
                    |i: int| Seq::<Hwnd>::empty(),
                )
                &&& self.ws(w).floating@ == Seq::<Hwnd>::empty()
                &&& self.ws(w).last_focused.window is None
                &&& self.ws(w).last_focused.zone is None
                &&& self.ws(w).fullscreen is None
            }
    }

    pub fn new(monitor: Monitor, layouts: Vec<Option<Layout>>) -> (s: Self)
        ensures
            s.is_initial(monitor, layouts),
    {
        let initial_idx = first_layout_idx(&layouts);
        let zone_count = match layout_len_of(&layouts, initial_idx) {
            Some(n) => n,
            None => 0,
        };
        let mut workspaces: Vec<Workspace> = Vec::new();
        let mut i: usize = 0;
        while i < WORKSPACE_COUNT
            invariant
                i <= WORKSPACE_COUNT,
                workspaces@.len() == i,
                forall|w: int|
                    0 <= w < i ==> {
                        &&& (#[trigger] workspaces@[w]).layout_idx == initial_idx
                        &&& workspaces@[w].zones() == Seq::new(
                            zone_count as nat,
                            |i: int| Seq::<Hwnd>::empty(),
                        )
                        &&& workspaces@[w].floating@ == Seq::<Hwnd>::empty()
                        &&& workspaces@[w].last_focused.window is None
                        &&& workspaces@[w].last_focused.zone is None
                        &&& workspaces@[w].fullscreen is None
                    },
            decreases WORKSPACE_COUNT - i,
        {
            let mut ws = Workspace::new(zone_count);
            ws.layout_idx = initial_idx;
            workspaces.push(ws);
            i = i + 1;
        }
        MonitorState {
            monitor,
            layouts,
            workspaces,
            active_ws: 0,
            monitor_locked: true,
            hwnd_ws: HashMap::new(),
            snap_cache: HashMap::new(),
            pre_snap_rects: HashMap::new(),
            commands: Vec::new(),
        }
    }

    /// `self` with its queue of system calls replaced by `c`.
    pub open spec fn with_commands(self, c: Vec<SysCall>) -> MonitorState {
        MonitorState { commands: c, ..self }
    }

    /// Hands out the queued system calls, in order, and empties the queue.
    pub fn take_commands(&mut self) -> (r: Vec<SysCall>)
        ensures
            r@ == old(self).commands@,
            final(self).commands@ == Seq::<SysCall>::empty(),
            *final(self) == old(self).with_commands(final(self).commands),
    {
        let mut out: Vec<SysCall> = Vec::new();
        std::mem::swap(&mut out, &mut self.commands);
        out
    }

    /// `new` is `self` with system call `c` queued after the others.
    pub open spec fn queued(self, c: SysCall, new: MonitorState) -> bool {
        &&& new.commands@ == self.commands@.push(c)
        &&& new == self.with_commands(new.commands)
    }

    /// Queues system call `c` after the others.
    pub fn push_command(&mut self, c: SysCall)
        ensures
            old(self).queued(c, *final(self)),
    {
        self.commands.push(c);
    }

    pub fn monitor_key(&self) -> (k: String)
        ensures
            k@ == self.monitor.device_id@,
    {
        self.monitor.device_id.clone()
    }

    pub fn workspace1_layout_idx(&self) -> (i: usize)
        requires
            self.wf(),
        ensures
            i == self.ws(0).layout_idx,
    {
        self.workspaces[0].layout_idx
    }

    pub fn active_layout(&self) -> (l: Option<&Layout>)
        requires
            self.wf(),
        ensures
            match l {
                Some(l) => self.layout_of(self.active_ws as int) == Some(*l),
                None => self.layout_of(self.active_ws as int) is None,
            },
    {
        let idx = self.workspaces[self.active_ws].layout_idx;
        if idx < self.layouts.len() {
            match &self.layouts[idx] {
                Some(l) => Some(l),
                None => None,
            }
        } else {
            None
        }
    }

    /// Returns the workspace index that contains `hwnd`, or `None` if untracked.
    pub fn find_workspace(&self, hwnd: Hwnd) -> (r: Option<usize>)
        ensures
            r == self.ws_of(hwnd),
    {
        match self.hwnd_ws.get(&hwnd.0) {
            Some(w) => Some(*w),
            None => None,
        }
    }

    /// Returns the management state of `hwnd` on this monitor.
    pub fn window_state(&self, hwnd: Hwnd) -> (st: WindowState)
        requires
            self.wf(),
        ensures
            st == self.spec_window_state(hwnd),
    {
        match self.hwnd_ws.get(&hwnd.0) {
            None => WindowState::Ignored,
            Some(w) => {
                let ws_idx = *w;
                match self.workspaces[ws_idx].get_zone_index(hwnd) {
                    Some(z) => WindowState::Zoned(z),
                    None => WindowState::Floating,
                }
            },
        }
    }

    pub fn layout_len(&self, layout_idx: usize) -> (r: Option<usize>)
        ensures
            match r {
                Some(n) => spec_layout_len(self.layouts@, layout_idx as int) == Some(n as nat),
                None => spec_layout_len(self.layouts@, layout_idx as int) is None,
            },
    {
        layout_len_of(&self.layouts, layout_idx)
    }

    /// Absolute pixel rects for all zones in the active workspace's layout.
    pub fn active_zone_rects(&self) -> (r: Vec<Rect>)
        requires
            self.wf(),
        ensures
            r@ == match self.layout_of(self.active_ws as int) {
                Some(l) => l.zones@,
                None => Seq::empty(),
            },
    {
        match self.active_layout() {
            Some(l) => l.zones.clone(),
            None => Vec::new(),
        }
    }
}


/// Zones `zs` after `h` is taken out of all of them and put on top of zone `z`.
pub open spec fn placed(zs: Seq<Seq<Hwnd>>, h: Hwnd, z: int) -> Seq<Seq<Hwnd>> {
    zs.map_values(|zz: Seq<Hwnd>| without(zz, h)).update(z, without(zs[z], h).push(h))
}

/// Zones `zs` after `h` is taken out of all of them.
pub open spec fn cleared(zs: Seq<Seq<Hwnd>>, h: Hwnd) -> Seq<Seq<Hwnd>> {
    zs.map_values(|zz: Seq<Hwnd>| without(zz, h))
}

impl MonitorState {
    /// Everything but workspace `w` and the window maps is as in `old`; no system call is
    /// queued.
    pub open spec fn frame(old: MonitorState, new: MonitorState, w: int) -> bool {
        &&& new.commands == old.commands
        &&& new.monitor == old.monitor
        &&& new.layouts == old.layouts
        &&& new.active_ws == old.active_ws
        &&& new.monitor_locked == old.monitor_locked
        &&& new.workspaces@.len() == old.workspaces@.len()
        &&& forall|v: int| 0 <= v < old.workspaces@.len() && v != w ==> #[trigger] new.ws(v) == old.ws(v)
        &&& new.ws(w).layout_idx == old.ws(w).layout_idx
        &&& new.ws(w).last_focused == old.ws(w).last_focused
        &&& new.ws(w).fullscreen == old.ws(w).fullscreen
    }

    pub fn assign_to_zone_ws(&mut self, zone_idx: usize, ws_idx: usize, hwnd: Hwnd, pre_snap_rect: Rect)
        requires
            old(self).wf(),
            ws_idx < WORKSPACE_COUNT,
        ensures
            final(self).wf(),
            zone_idx >= old(self).ws(ws_idx as int).zones().len() ==> *final(self) == *old(self),
            zone_idx < old(self).ws(ws_idx as int).zones().len() ==> {
                &&& MonitorState::frame(*old(self), *final(self), ws_idx as int)
                &&& final(self).ws(ws_idx as int).zones() == placed(old(self).ws(ws_idx as int).zones(), hwnd, zone_idx as int)
                &&& final(self).ws(ws_idx as int).floating@ == without(old(self).ws(ws_idx as int).floating@, hwnd)
                &&& final(self).owners() == old(self).owners().insert(hwnd.0, ws_idx)
                &&& final(self).snapped() == old(self).snapped().remove(hwnd.0)
                &&& final(self).pre_snap() == if zone_of(old(self).ws(ws_idx as int).zones(), hwnd) is None {
                    old(self).pre_snap().insert(hwnd.0, pre_snap_rect)
                } else {
                    old(self).pre_snap()
                }
            },
    {
        if zone_idx >= self.workspaces[ws_idx].zoned.len() {
            return;
        }
        if self.workspaces[ws_idx].get_zone_index(hwnd).is_none() {
            self.pre_snap_rects.insert(hwnd.0, pre_snap_rect);
        }
        let ghost zs = self.workspaces@[ws_idx as int].zones();
        self.workspaces[ws_idx].remove(hwnd);
        assert(self.workspaces@.len() == WORKSPACE_COUNT);
        assert(self.workspaces@[ws_idx as int].zones().len() == zs.len());
        assert(zone_idx < self.workspaces@[ws_idx as int].zoned@.len());
        let ghost z1 = self.workspaces@[ws_idx as int].zones();
        self.workspaces[ws_idx].zoned[zone_idx].push(hwnd);
        self.hwnd_ws.insert(hwnd.0, ws_idx);
        self.snap_cache.remove(&hwnd.0);
        assert forall|k: int| 0 <= k < zs.len() implies #[trigger] self.ws(ws_idx as int).zones()[k]
            == placed(zs, hwnd, zone_idx as int)[k] by {
            assert(z1[k] == without(zs[k], hwnd));
        }
        assert(self.ws(ws_idx as int).zones() =~= placed(zs, hwnd, zone_idx as int));
    }

    /// `new` is `self` with `hwnd` put on top of zone `zone_idx` of the active workspace (out
    /// of every other zone and the floating list there), its last snap forgotten and, if it
    /// was in no zone there, `pre_rect` kept as its rect before snapping; nothing changes
    /// when the active workspace has no such zone.
    pub open spec fn assigned_to_zone(self, zone_idx: usize, hwnd: Hwnd, pre_rect: Rect, new: MonitorState) -> bool {
        &&& new.wf()
        &&& zone_idx >= self.active().zones().len() ==> new == self
        &&& zone_idx < self.active().zones().len() ==> {
                &&& MonitorState::frame(self, new, self.active_ws as int)
                &&& new.active().zones() == placed(self.active().zones(), hwnd, zone_idx as int)
                &&& new.active().floating@ == without(self.active().floating@, hwnd)
                &&& new.owners() == self.owners().insert(hwnd.0, self.active_ws)
                &&& new.snapped() == self.snapped().remove(hwnd.0)
                &&& new.pre_snap() == if zone_of(self.active().zones(), hwnd) is None {
                    self.pre_snap().insert(hwnd.0, pre_rect)
                } else {
                    self.pre_snap()
                }
            }
    }

    pub fn assign_to_zone(&mut self, zone_idx: usize, hwnd: Hwnd, pre_drag_rect: Rect)
        requires
            old(self).wf(),
        ensures
            old(self).assigned_to_zone(zone_idx, hwnd, pre_drag_rect, *final(self)),
    {
        let w = self.active_ws;
        self.assign_to_zone_ws(zone_idx, w, hwnd, pre_drag_rect);
    }
}


/// Rect extents are positive, computed without overflow.
pub open spec fn has_area(r: Rect) -> bool {
    r.spec_width() > 0 && r.spec_height() > 0
}

fn rect_has_area(r: Rect) -> (b: bool)
    ensures
        b == has_area(r),
{
    (r.right as i64) - (r.left as i64) > 0 && (r.bottom as i64) - (r.top as i64) > 0
}

impl MonitorState {
    /// The state after `h`, zoned in its workspace, is made floating there.
    pub open spec fn detached(self, new: MonitorState, h: Hwnd) -> bool {
        let w = self.ws_of(h)->0 as int;
        &&& MonitorState::frame(self, new, w)
        &&& new.ws(w).zones() == cleared(self.ws(w).zones(), h)
        &&& new.ws(w).floating@ == self.ws(w).floating@.push(h)
        &&& new.owners() == self.owners()
        &&& new.snapped() == self.snapped().remove(h.0)
        &&& new.pre_snap() == self.pre_snap()
    }

    /// A call putting `h` back at its pre-snap rect, when one with an area is known.
    pub open spec fn restore_calls(self, h: Hwnd) -> Seq<SysCall> {
        if self.pre_snap().contains_key(h.0) && has_area(self.pre_snap()[h.0]) {
            seq![SysCall::Restore(h, self.pre_snap()[h.0])]
        } else {
            Seq::<SysCall>::empty()
        }
    }

    /// The state after `h`, zoned in its workspace, is made floating there and put back at
    /// its pre-snap rect.
    pub open spec fn floated(self, new: MonitorState, h: Hwnd) -> bool {
        &&& self.detached(new.with_commands(self.commands), h)
        &&& new.commands@ == self.commands@ + self.restore_calls(h)
    }

    /// `h` is tracked here and sits in a zone of its workspace.
    pub open spec fn is_zoned_here(self, h: Hwnd) -> bool {
        self.ws_of(h) is Some && zone_of(self.ws(self.ws_of(h)->0 as int).zones(), h) is Some
    }

    fn detach_from_zone(&mut self, hwnd: Hwnd) -> (moved: bool)
        requires
            old(self).wf(),
        ensures
            final(self).wf(),
            moved == old(self).is_zoned_here(hwnd),
            moved ==> old(self).detached(*final(self), hwnd),
            !moved ==> *final(self) == *old(self),
    {
        let ws_idx = match self.hwnd_ws.get(&hwnd.0) {
            Some(i) => *i,
            None => return false,
        };
        if self.workspaces[ws_idx].get_zone_index(hwnd).is_none() {
            return false;
        }
        let ghost zs = self.workspaces@[ws_idx as int].zones();
        let ghost fl = self.workspaces@[ws_idx as int].floating@;
        let mut i: usize = 0;
        while i < self.workspaces[ws_idx].zoned.len()
            invariant
                ws_idx < WORKSPACE_COUNT,
                self.workspaces@.len() == WORKSPACE_COUNT,
                i <= self.workspaces@[ws_idx as int].zoned@.len(),
                self.workspaces@[ws_idx as int].zoned@.len() == zs.len(),
                forall|k: int| 0 <= k < i ==> (#[trigger] self.workspaces@[ws_idx as int].zoned@[k])@ == without(zs[k], hwnd),
                forall|k: int| i <= k < zs.len() ==> (#[trigger] self.workspaces@[ws_idx as int].zoned@[k])@ == zs[k],
                self.workspaces@[ws_idx as int].floating@ == fl,
                self.workspaces@[ws_idx as int].layout_idx == old(self).workspaces@[ws_idx as int].layout_idx,
                self.workspaces@[ws_idx as int].last_focused == old(self).workspaces@[ws_idx as int].last_focused,
                self.workspaces@[ws_idx as int].fullscreen == old(self).workspaces@[ws_idx as int].fullscreen,
                forall|v: int| 0 <= v < WORKSPACE_COUNT && v != ws_idx ==> #[trigger] self.workspaces@[v] == old(self).workspaces@[v],
                self.hwnd_ws == old(self).hwnd_ws,
                self.snap_cache == old(self).snap_cache,
                self.pre_snap_rects == old(self).pre_snap_rects,
                self.commands == old(self).commands,
                self.monitor == old(self).monitor,
                self.layouts == old(self).layouts,
                self.active_ws == old(self).active_ws,
                self.monitor_locked == old(self).monitor_locked,
            decreases zs.len() - i,
        {
            remove_all(&mut self.workspaces[ws_idx].zoned[i], hwnd);
            i = i + 1;
        }
        self.workspaces[ws_idx].floating.push(hwnd);
        self.snap_cache.remove(&hwnd.0);
        assert(self.ws(ws_idx as int).zones() =~= cleared(zs, hwnd));
        true
    }

    /// Move a zoned window to floating and restore its pre-snap rect.
    pub fn set_floating(&mut self, hwnd: Hwnd)
        requires
            old(self).wf(),
        ensures
            final(self).wf(),
            old(self).is_zoned_here(hwnd) ==> old(self).floated(*final(self), hwnd),
            !old(self).is_zoned_here(hwnd) ==> *final(self) == *old(self),
    {
        if self.detach_from_zone(hwnd) {
            let ghost mid = *self;
            match self.pre_snap_rects.get(&hwnd.0) {
                Some(r) => {
                    let rect = *r;
                    if rect_has_area(rect) {
                        self.commands.push(SysCall::Restore(hwnd, rect));
                    }
                },
                None => {},
            }
            assert(self.commands@ =~= old(self).commands@ + old(self).restore_calls(hwnd));
            assert(self.with_commands(old(self).commands) == mid);
        }
    }

    /// Move a zoned window to floating, keeping its current rect.
    pub fn set_floating_in_place(&mut self, hwnd: Hwnd)
        requires
            old(self).wf(),
        ensures
            final(self).wf(),
            old(self).is_zoned_here(hwnd) ==> old(self).detached(*final(self), hwnd),
            !old(self).is_zoned_here(hwnd) ==> *final(self) == *old(self),
    {
        self.detach_from_zone(hwnd);
    }

    /// `new` is `self` with `hwnd` no longer known anywhere on the monitor.
    pub open spec fn window_detached(self, hwnd: Hwnd, new: MonitorState) -> bool {
        &&& new.wf()
        &&& new.commands == self.commands
        &&& new.monitor == self.monitor
        &&& new.layouts == self.layouts
        &&& new.active_ws == self.active_ws
        &&& new.monitor_locked == self.monitor_locked
        &&& new.owners() == self.owners().remove(hwnd.0)
        &&& new.snapped() == self.snapped().remove(hwnd.0)
        &&& new.pre_snap() == self.pre_snap().remove(hwnd.0)
        &&& new.workspaces@.len() == WORKSPACE_COUNT
        &&& match self.ws_of(hwnd) {
                    None => forall|v: int| 0 <= v < WORKSPACE_COUNT ==> #[trigger] new.ws(v) == self.ws(v),
                    Some(w) => {
                        &&& forall|v: int| 0 <= v < WORKSPACE_COUNT && v != w ==> #[trigger] new.ws(v) == self.ws(v)
                        &&& new.ws(w as int).zones() == cleared(self.ws(w as int).zones(), hwnd)
                        &&& new.ws(w as int).floating@ == without(self.ws(w as int).floating@, hwnd)
                        &&& new.ws(w as int).layout_idx == self.ws(w as int).layout_idx
                        &&& new.ws(w as int).last_focused == self.ws(w as int).last_focused
                        &&& new.ws(w as int).fullscreen == self.ws(w as int).fullscreen
                    },
                }
    }

    /// Completely remove `hwnd` from this monitor's tracking.
    pub fn detach_window(&mut self, hwnd: Hwnd)
        requires
            old(self).wf(),
        ensures
            old(self).window_detached(hwnd, *final(self)),
    {
        match self.hwnd_ws.remove(&hwnd.0) {
            Some(w) => {
                let ws_idx = w;
                self.workspaces[ws_idx].remove(hwnd);
            },
            None => {},
        }
        self.snap_cache.remove(&hwnd.0);
        self.pre_snap_rects.remove(&hwnd.0);
    }
}


/// The topmost window of `hs` (the last one) that is not minimised; `mins[i]` tells
/// whether `hs[i]` is minimised.
pub open spec fn topmost_visible(hs: Seq<Hwnd>, mins: Seq<bool>) -> Option<Hwnd>
    decreases hs.len(),
{
    if hs.len() == 0 {
        None
    } else if !mins[hs.len() - 1] {
        Some(hs.last())
    } else {
        topmost_visible(hs.drop_last(), mins)
    }
}

/// Asks the system, for each window of `hs`, whether it is minimised.
fn minimized_flags<S: WindowSystem>(sys: &S, hs: &Vec<Hwnd>) -> (r: Vec<bool>)
    ensures
        r@.len() == hs@.len(),
{
    let mut r: Vec<bool> = Vec::new();
    let mut i: usize = 0;
    while i < hs.len()
        invariant
            i <= hs@.len(),
            r@.len() == i,
        decreases hs@.len() - i,
    {
        r.push(sys.is_minimized(hs[i]));
        i = i + 1;
    }
    r
}

/// The topmost window of `hs` that `mins` does not mark minimised.
pub fn topmost_visible_in(hs: &Vec<Hwnd>, mins: &Vec<bool>) -> (r: Option<Hwnd>)
    requires
        mins@.len() >= hs@.len(),
    ensures
        r == topmost_visible(hs@, mins@),
{
    let mut i = hs.len();
    assert(hs@.take(i as int) =~= hs@);
    while i > 0
        invariant
            i <= hs@.len(),
            mins@.len() >= hs@.len(),
            topmost_visible(hs@, mins@) == topmost_visible(hs@.take(i as int), mins@),
        decreases i,
    {
        assert(hs@.take(i as int).drop_last() =~= hs@.take(i as int - 1));
        if !mins[i - 1] {
            return Some(hs[i - 1]);
        }
        i = i - 1;
    }
    assert(hs@.take(0) =~= Seq::<Hwnd>::empty());
    None
}

/// The zone `zi` of workspace `zs`, or nothing when there is no such zone.
pub open spec fn zone_or_empty(zs: Seq<Seq<Hwnd>>, zi: int) -> Seq<Hwnd> {
    if 0 <= zi < zs.len() { zs[zi] } else { Seq::empty() }
}

impl MonitorState {
    /// The topmost non-minimised window of zone `zone_idx` in the active workspace.
    pub fn topmost_in_zone<S: WindowSystem>(&self, zone_idx: usize, sys: &S) -> (r: Option<Hwnd>)
        requires
            self.wf(),
        ensures
            exists|mins: Seq<bool>|
                mins.len() == zone_or_empty(self.active().zones(), zone_idx as int).len() && r
                    == topmost_visible(zone_or_empty(self.active().zones(), zone_idx as int), mins),
    {
        let ws = &self.workspaces[self.active_ws];
        if zone_idx >= ws.zoned.len() {
            let ghost m = Seq::<bool>::empty();
            assert(zone_or_empty(self.active().zones(), zone_idx as int) =~= Seq::<Hwnd>::empty());
            assert(m.len() == zone_or_empty(self.active().zones(), zone_idx as int).len() && None::<Hwnd>
                == topmost_visible(zone_or_empty(self.active().zones(), zone_idx as int), m));
            return None;
        }
        let mins = minimized_flags(sys, &ws.zoned[zone_idx]);
        let r = topmost_visible_in(&ws.zoned[zone_idx], &mins);
        assert(mins@.len() == zone_or_empty(self.active().zones(), zone_idx as int).len() && r
            == topmost_visible(zone_or_empty(self.active().zones(), zone_idx as int), mins@));
        r
    }
}


/// Index reached `step` places away from `pos` in a ring of `n`, forward or backward.
pub open spec fn ring_idx(n: int, pos: int, forward: bool, step: int) -> int {
    if forward { (pos + step) % n } else { (pos + n - step) % n }
}

/// The first index, at `step` places or more from `pos` (but fewer than `n`), whose
/// window is not minimised.
pub open spec fn cycle_pick(n: int, pos: int, forward: bool, mins: Seq<bool>, step: int) -> Option<int>
    decreases n - step,
{
    if step >= n {
        None
    } else if !mins[ring_idx(n, pos, forward, step)] {
        Some(ring_idx(n, pos, forward, step))
    } else {
        cycle_pick(n, pos, forward, mins, step + 1)
    }
}

/// The zone after cycling from `h` (forward or backward) to the next window that is not
/// minimised, which is brought to the top; and that window. The zone is unchanged, and
/// there is no window, when `h` is not in the zone or only minimised windows remain.
pub open spec fn spec_cycle_zone(zone: Seq<Hwnd>, h: Hwnd, forward: bool, mins: Seq<bool>) -> (
    Seq<Hwnd>,
    Option<Hwnd>,
) {
    match first_pos(zone, h) {
        None => (zone, None),
        Some(pos) => match cycle_pick(zone.len() as int, pos, forward, mins, 1) {
            None => (zone, None),
            Some(i) => (zone.remove(i).push(zone[i]), Some(zone[i])),
        },
    }
}

proof fn lemma_ring_idx(n: int, pos: int, forward: bool, step: int, idx: int)
    requires
        n > 0,
        0 <= pos < n,
        1 <= step < n,
        forward ==> idx == (if step <= n - 1 - pos { pos + step } else { step - (n - pos) }),
        !forward ==> idx == (if step <= pos { pos - step } else { pos + (n - step) }),
    ensures
        idx == ring_idx(n, pos, forward, step),
{
    if forward {
        if step <= n - 1 - pos {
            vstd::arithmetic::div_mod::lemma_small_mod((pos + step) as nat, n as nat);
        } else {
            vstd::arithmetic::div_mod::lemma_mod_sub_multiples_vanish(pos + step, n);
            vstd::arithmetic::div_mod::lemma_small_mod((step - (n - pos)) as nat, n as nat);
        }
    } else {
        if step <= pos {
            vstd::arithmetic::div_mod::lemma_mod_sub_multiples_vanish(pos - step + n, n);
            vstd::arithmetic::div_mod::lemma_small_mod((pos - step) as nat, n as nat);
        } else {
            vstd::arithmetic::div_mod::lemma_small_mod((pos + (n - step)) as nat, n as nat);
        }
    }
}

/// Cycles zone `zone` from `hwnd` to the next window that `mins` does not mark
/// minimised, and brings that window to the top.
pub fn cycle_zone(zone: &mut Vec<Hwnd>, hwnd: Hwnd, forward: bool, mins: &Vec<bool>) -> (r: Option<Hwnd>)
    requires
        mins@.len() == old(zone)@.len(),
    ensures
        (final(zone)@, r) == spec_cycle_zone(old(zone)@, hwnd, forward, mins@),
{
    let pos = match vec_position(zone, hwnd) {
        Some(p) => p,
        None => return None,
    };
    proof { lemma_first_pos_is(zone@, hwnd, pos as int); }
    let n = zone.len();
    let mut step: usize = 1;
    while step < n
        invariant
            n == zone@.len(),
            zone@ == old(zone)@,
            mins@.len() == n,
            pos < n,
            first_pos(old(zone)@, hwnd) == Some(pos as int),
            1 <= step,
            cycle_pick(n as int, pos as int, forward, mins@, 1) == cycle_pick(n as int, pos as int, forward, mins@, step as int),
        decreases n - step,
    {
        let idx = if forward {
            if step <= n - 1 - pos { pos + step } else { step - (n - pos) }
        } else {
            if step <= pos { pos - step } else { pos + (n - step) }
        };
        proof { lemma_ring_idx(n as int, pos as int, forward, step as int, idx as int); }
        let candidate = zone[idx];
        if !mins[idx] {
            assert(cycle_pick(n as int, pos as int, forward, mins@, step as int) == Some(idx as int));
            zone.remove(idx);
            zone.push(candidate);
            return Some(candidate);
        }
        step = step + 1;
    }
    None
}

impl MonitorState {
    /// `new` is `self` after cycling the zone of `hwnd`, `r` the window brought up.
    pub open spec fn cycled(self, hwnd: Hwnd, forward: bool, new: MonitorState, r: Option<Hwnd>) -> bool {
        &&& new.wf()
        &&& !self.is_zoned_here(hwnd) ==> r is None && new == self
        &&& self.is_zoned_here(hwnd) ==> {
                    let w = self.ws_of(hwnd)->0 as int;
                    let zi = zone_of(self.ws(w).zones(), hwnd)->0;
                    let zone = self.ws(w).zones()[zi];
                    exists|mins: Seq<bool>| {
                        &&& mins.len() == zone.len()
                        &&& #[trigger] spec_cycle_zone(zone, hwnd, forward, mins).1 == r
                        &&& new.ws(w).zones() == self.ws(w).zones().update(zi, spec_cycle_zone(zone, hwnd, forward, mins).0)
                        &&& MonitorState::frame(self, new, w)
                        &&& new.ws(w).floating == self.ws(w).floating
                        &&& new.owners() == self.owners()
                        &&& new.snapped() == self.snapped()
                        &&& new.pre_snap() == self.pre_snap()
                    }
                }
    }

    /// Cycles the zone holding `hwnd` to its next (or previous) window that is not
    /// minimised, brings that window to the top of the zone and returns it.
    pub fn cycle_window_in_zone<S: WindowSystem>(&mut self, hwnd: Hwnd, forward: bool, sys: &S) -> (r: Option<Hwnd>)
        requires
            old(self).wf(),
        ensures
            old(self).cycled(hwnd, forward, *final(self), r),
    {
        let ws_idx = match self.hwnd_ws.get(&hwnd.0) {
            Some(w) => *w,
            None => return None,
        };
        let zi = match self.workspaces[ws_idx].get_zone_index(hwnd) {
            Some(z) => z,
            None => return None,
        };
        let ghost zs = self.workspaces@[ws_idx as int].zones();
        let mins = minimized_flags(sys, &self.workspaces[ws_idx].zoned[zi]);
        let r = cycle_zone(&mut self.workspaces[ws_idx].zoned[zi], hwnd, forward, &mins);
        assert(self.ws(ws_idx as int).zones() =~= zs.update(zi as int, spec_cycle_zone(zs[zi as int], hwnd, forward, mins@).0));
        assert(spec_cycle_zone(zs[zi as int], hwnd, forward, mins@).1 == r);
        assert(MonitorState::frame(*old(self), *self, ws_idx as int));
        assert(self.ws(ws_idx as int).floating == old(self).ws(ws_idx as int).floating);
        proof {
            let w = old(self).ws_of(hwnd)->0 as int;
            assert(w == ws_idx);
            let zj = zone_of(old(self).ws(w).zones(), hwnd)->0;
            assert(zj == zi);
            let zone = old(self).ws(w).zones()[zj];
            assert(zone == zs[zi as int]);
            let m = mins@;
            assert(m.len() == zone.len());
            assert(spec_cycle_zone(zone, hwnd, forward, m).1 == r);
            assert(self.ws(w).zones() == old(self).ws(w).zones().update(zj, spec_cycle_zone(zone, hwnd, forward, m).0));
        }
        r
    }
}

/// `s` turned `k` places: its first `k` windows moved behind the others.
pub open spec fn rotated(s: Seq<Hwnd>, k: int) -> Seq<Hwnd> {
    s.skip(k) + s.take(k)
}

/// Cycling forward from the top window of a zone of distinct windows, none of them
/// minimised, turns the zone by one place and brings up the window that was at the bottom.
/// Repeating it as many times as the zone has windows visits each window once, in
/// order, and leaves the zone as it was.
pub proof fn lemma_forward_cycle_is_round_robin(s: Seq<Hwnd>, mins: Seq<bool>, k: int)
    requires
        s.len() >= 2,
        s.no_duplicates(),
        mins.len() == s.len(),
        forall|i: int| 0 <= i < mins.len() ==> !mins[i],
        0 <= k < s.len(),
    ensures
        spec_cycle_zone(rotated(s, k), rotated(s, k).last(), true, mins) == (rotated(s, k + 1), Some(s[k])),
        rotated(s, s.len() as int) == s,
        rotated(s, 0) == s,
{
    let n = s.len() as int;
    let t = rotated(s, k);
    assert(t.len() == n);
    assert forall|i: int, j: int| 0 <= i < j < n implies t[i] != t[j] by {
        let si = if i < n - k { i + k } else { i - (n - k) };
        let sj = if j < n - k { j + k } else { j - (n - k) };
        assert(t[i] == s[si]);
        assert(t[j] == s[sj]);
        assert(si != sj);
    }
    lemma_first_pos_is(t, t.last(), n - 1);
    assert(ring_idx(n, n - 1, true, 1) == 0) by {
        vstd::arithmetic::div_mod::lemma_mod_self_0(n);
    }
    assert(t[0] == s[k]);
    assert(t.remove(0).push(t[0]) =~= rotated(s, k + 1));
    assert(rotated(s, n) =~= s);
    assert(rotated(s, 0) =~= s);
}


/// `c` with every window of `hs` mapped to `r`.
pub open spec fn stamped(c: Map<isize, Rect>, hs: Seq<Hwnd>, r: Rect) -> Map<isize, Rect>
    decreases hs.len(),
{
    if hs.len() == 0 {
        c
    } else {
        stamped(c, hs.drop_last(), r).insert(hs.last().0, r)
    }
}

/// The snap cache `c` once the windows of the first `m` zones of `zs` have been snapped
/// to the matching rects of `rects`, zone after zone.
pub open spec fn reflowed(c: Map<isize, Rect>, zs: Seq<Seq<Hwnd>>, rects: Seq<Rect>, m: int) -> Map<isize, Rect>
    decreases m,
{
    if m <= 0 {
        c
    } else {
        stamped(reflowed(c, zs, rects, m - 1), zs[m - 1], rects[m - 1])
    }
}

/// The snaps that stamping the windows of `hs` with `r` asks for, starting from snap cache
/// `c`: one for each window, in order, whose last snap is not `r` already.
pub open spec fn stamp_calls(c: Map<isize, Rect>, hs: Seq<Hwnd>, r: Rect) -> Seq<SysCall>
    decreases hs.len(),
{
    if hs.len() == 0 {
        Seq::empty()
    } else {
        let prev = stamped(c, hs.drop_last(), r);
        stamp_calls(c, hs.drop_last(), r) + if prev.contains_key(hs.last().0) && prev[hs.last().0] == r {
            Seq::<SysCall>::empty()
        } else {
            seq![SysCall::Snap(hs.last(), r)]
        }
    }
}

/// The snaps that reflowing the first `m` zones of `zs` onto `rects` asks for, starting
/// from snap cache `c`, zone after zone.
pub open spec fn reflow_calls(c: Map<isize, Rect>, zs: Seq<Seq<Hwnd>>, rects: Seq<Rect>, m: int) -> Seq<SysCall>
    decreases m,
{
    if m <= 0 {
        Seq::empty()
    } else {
        reflow_calls(c, zs, rects, m - 1) + stamp_calls(reflowed(c, zs, rects, m - 1), zs[m - 1], rects[m - 1])
    }
}

/// The snaps that reflowing zones `zs` onto layout `lo` asks for, from snap cache `c`.
pub open spec fn reflow_zone_calls(c: Map<isize, Rect>, zs: Seq<Seq<Hwnd>>, lo: Option<Layout>) -> Seq<SysCall> {
    match lo {
        None => Seq::empty(),
        Some(l) => reflow_calls(c, zs, l.zones@, min_len(l.zones@.len(), zs.len())),
    }
}

pub open spec fn min_len(a: nat, b: nat) -> int {
    if a <= b { a as int } else { b as int }
}

impl MonitorState {
    /// The snap cache once every zoned window of the active workspace has been snapped to
    /// its zone's rect.
    pub open spec fn reflowed_cache(self) -> Map<isize, Rect> {
        self.reflow_of(self.snapped(), self.active_ws as int)
    }

    /// The snap cache `c` once every zoned window of workspace `w` has been snapped to its
    /// zone's rect.
    pub open spec fn reflow_of(self, c: Map<isize, Rect>, w: int) -> Map<isize, Rect> {
        match self.layout_of(w) {
            None => c,
            Some(l) => reflowed(c, self.ws(w).zones(), l.zones@, min_len(l.zones@.len(), self.ws(w).zones().len())),
        }
    }

    /// The snaps that reflowing workspace `w` asks for, from snap cache `c`.
    pub open spec fn reflow_calls_of(self, c: Map<isize, Rect>, w: int) -> Seq<SysCall> {
        reflow_zone_calls(c, self.ws(w).zones(), self.layout_of(w))
    }

    /// `new` is `self` once the zoned windows of the active workspace are snapped: one
    /// snap queued for each whose last snap is not its zone's rect.
    pub open spec fn reflowed_to(self, new: MonitorState) -> bool {
        &&& new.wf()
        &&& new.snapped() == self.reflowed_cache()
        &&& new.commands@ == self.commands@ + self.reflow_calls_of(self.snapped(), self.active_ws as int)
        &&& new.monitor == self.monitor
        &&& new.layouts == self.layouts
        &&& new.workspaces == self.workspaces
        &&& new.active_ws == self.active_ws
        &&& new.monitor_locked == self.monitor_locked
        &&& new.hwnd_ws == self.hwnd_ws
        &&& new.pre_snap_rects == self.pre_snap_rects
    }

    /// Queues a snap for every zoned window of the active workspace whose last snap
    /// differs from its zone's rect.
    pub fn reflow(&mut self)
        requires
            old(self).wf(),
        ensures
            old(self).reflowed_to(*final(self)),
    {
        let ws_idx = self.active_ws;
        let layout_idx = self.workspaces[ws_idx].layout_idx;
        if layout_idx >= self.layouts.len() {
            return;
        }
        let layout = match &self.layouts[layout_idx] {
            Some(l) => l,
            None => return,
        };
        let ghost zs = self.workspaces@[ws_idx as int].zones();
        let ghost c0 = self.snap_cache@;
        let ghost rects = layout.zones@;
        let mut i: usize = 0;
        while i < layout.zones.len()
            invariant
                ws_idx < self.workspaces@.len(),
                zs == self.workspaces@[ws_idx as int].zones(),
                rects == layout.zones@,
                i <= rects.len(),
                self.snap_cache@ == reflowed(c0, zs, rects, min_len(i as nat, zs.len())),
                self.commands@ == old(self).commands@ + reflow_calls(c0, zs, rects, min_len(i as nat, zs.len())),
                c0 == old(self).snap_cache@,
                self.monitor == old(self).monitor,
                self.layouts == old(self).layouts,
                self.workspaces == old(self).workspaces,
                self.active_ws == old(self).active_ws,
                self.monitor_locked == old(self).monitor_locked,
                self.hwnd_ws == old(self).hwnd_ws,
                self.pre_snap_rects == old(self).pre_snap_rects,
                layout_idx < self.layouts@.len(),
                self.layouts@[layout_idx as int] == Some(*layout),
                layout_idx == self.workspaces@[ws_idx as int].layout_idx,
                old(self).wf(),
            decreases rects.len() - i,
        {
            if i < self.workspaces[ws_idx].zoned.len() {
                let rect = layout.zones[i];
                let hwnds = &self.workspaces[ws_idx].zoned[i];
                let ghost before = self.snap_cache@;
                let ghost cbefore = self.commands@;
                let mut j: usize = 0;
                while j < hwnds.len()
                    invariant
                        j <= hwnds@.len(),
                        self.snap_cache@ == stamped(before, hwnds@.take(j as int), rect),
                        self.commands@ == cbefore + stamp_calls(before, hwnds@.take(j as int), rect),
                        self.monitor == old(self).monitor,
                        self.layouts == old(self).layouts,
                        self.workspaces == old(self).workspaces,
                        self.active_ws == old(self).active_ws,
                        self.monitor_locked == old(self).monitor_locked,
                        self.hwnd_ws == old(self).hwnd_ws,
                        self.pre_snap_rects == old(self).pre_snap_rects,
                    decreases hwnds@.len() - j,
                {
                    let h = hwnds[j];
                    let same = match self.snap_cache.get(&h.0) {
                        Some(c) => *c == rect,
                        None => false,
                    };
                    let ghost cj = self.commands@;
                    assert(hwnds@.take(j as int + 1).drop_last() =~= hwnds@.take(j as int));
                    assert(hwnds@.take(j as int + 1).last() == h);
                    if !same {
                        self.commands.push(SysCall::Snap(h, rect));
                        self.snap_cache.insert(h.0, rect);
                        assert(self.commands@ =~= cbefore + stamp_calls(before, hwnds@.take(j as int + 1), rect));
                    } else {
                        assert(self.snap_cache@.insert(h.0, rect) =~= self.snap_cache@);
                        assert(self.commands@ =~= cbefore + stamp_calls(before, hwnds@.take(j as int + 1), rect));
                    }
                    j = j + 1;
                }
                assert(hwnds@.take(j as int) =~= hwnds@);
                assert(zs[i as int] == hwnds@);
                assert(min_len(i as nat + 1, zs.len()) == i + 1);
                assert(reflow_calls(c0, zs, rects, i + 1) == reflow_calls(c0, zs, rects, i as int) + stamp_calls(
                    reflowed(c0, zs, rects, i as int), zs[i as int], rects[i as int]));
                assert(self.commands@ =~= old(self).commands@ + reflow_calls(c0, zs, rects, i + 1));
            }
            i = i + 1;
        }
    }
}


/// `zs` cut down or padded with empty zones to `n` zones.
pub open spec fn resized(zs: Seq<Seq<Hwnd>>, n: nat) -> Seq<Seq<Hwnd>> {
    if n <= zs.len() {
        zs.take(n as int)
    } else {
        zs + Seq::new((n - zs.len()) as nat, |i: int| Seq::<Hwnd>::empty())
    }
}

pub open spec fn opt_usize(o: Option<int>) -> Option<usize> {
    match o {
        Some(i) => Some(i as usize),
        None => None,
    }
}

fn resize_zones(zoned: &mut Vec<Vec<Hwnd>>, n: usize)
    ensures
        final(zoned)@.map_values(|z: Vec<Hwnd>| z@) == resized(old(zoned)@.map_values(|z: Vec<Hwnd>| z@), n as nat),
{
    let ghost zs = zoned@.map_values(|z: Vec<Hwnd>| z@);
    if n <= zoned.len() {
        zoned.truncate(n);
        assert(zoned@.map_values(|z: Vec<Hwnd>| z@) =~= resized(zs, n as nat));
        return;
    }
    let start = zoned.len();
    while zoned.len() < n
        invariant
            start <= zoned@.len() <= n,
            start == zs.len(),
            forall|k: int| 0 <= k < start ==> (#[trigger] zoned@[k])@ == zs[k],
            forall|k: int| start <= k < zoned@.len() ==> (#[trigger] zoned@[k])@ == Seq::<Hwnd>::empty(),
        decreases n - zoned@.len(),
    {
        zoned.push(Vec::new());
    }
    assert(zoned@.map_values(|z: Vec<Hwnd>| z@) =~= resized(zs, n as nat));
}

impl MonitorState {
    /// `new` is `self` after showing layout slot `layout_idx` on the active workspace.
    pub open spec fn switched_layout(self, layout_idx: usize, new: MonitorState) -> bool {
        &&& new.wf()
        &&& spec_layout_len(self.layouts@, layout_idx as int) is None ==> new == self
        &&& spec_layout_len(self.layouts@, layout_idx as int) matches Some(n) ==> {
            &&& new.active().layout_idx == layout_idx
            &&& new.active().zones() == resized(self.active().zones(), n)
            &&& new.active().floating == self.active().floating
            &&& new.active().last_focused == self.active().last_focused
            &&& new.active().fullscreen == self.active().fullscreen
            &&& forall|v: int| 0 <= v < WORKSPACE_COUNT && v != self.active_ws ==> #[trigger] new.ws(v) == self.ws(v)
            &&& new.workspaces@.len() == WORKSPACE_COUNT
            &&& new.monitor == self.monitor
            &&& new.layouts == self.layouts
            &&& new.active_ws == self.active_ws
            &&& new.monitor_locked == self.monitor_locked
            &&& new.hwnd_ws == self.hwnd_ws
            &&& new.snap_cache == self.snap_cache
            &&& new.pre_snap_rects == self.pre_snap_rects
            &&& new.commands == self.commands
        }
    }

    /// Shows layout `layout_idx` on the active workspace, if that slot holds a layout.
    pub fn switch_layout(&mut self, layout_idx: usize)
        requires
            old(self).wf(),
        ensures
            old(self).switched_layout(layout_idx, *final(self)),
    {
        let new_len = match self.layout_len(layout_idx) {
            Some(l) => l,
            None => return,
        };
        let w = self.active_ws;
        self.workspaces[w].layout_idx = layout_idx;
        resize_zones(&mut self.workspaces[w].zoned, new_len);
    }

    /// Records the foreground window, and the zone holding it, as the active workspace's
    /// last focus.
    pub fn update_last_focused_window<S: WindowSystem>(&mut self, sys: &S)
        requires
            old(self).wf(),
        ensures
            final(self).wf(),
            exists|f: Hwnd| #[trigger] final(self).active().last_focused == (super::workspace::LastFocused {
                window: Some(f),
                zone: opt_usize(zone_of(old(self).active().zones(), f)),
            }),
            final(self).active().zoned == old(self).active().zoned,
            final(self).active().floating == old(self).active().floating,
            final(self).active().layout_idx == old(self).active().layout_idx,
            final(self).active().fullscreen == old(self).active().fullscreen,
            forall|v: int| 0 <= v < WORKSPACE_COUNT && v != old(self).active_ws ==> #[trigger] final(self).ws(v) == old(self).ws(v),
            final(self).workspaces@.len() == WORKSPACE_COUNT,
            final(self).monitor == old(self).monitor,
            final(self).layouts == old(self).layouts,
            final(self).active_ws == old(self).active_ws,
            final(self).monitor_locked == old(self).monitor_locked,
            final(self).hwnd_ws == old(self).hwnd_ws,
            final(self).snap_cache == old(self).snap_cache,
            final(self).pre_snap_rects == old(self).pre_snap_rects,
            final(self).commands == old(self).commands,
    {
        let focused = sys.foreground_window();
        let w = self.active_ws;
        let zone = self.workspaces[w].get_zone_index(focused);
        self.workspaces[w].last_focused = super::workspace::LastFocused { window: Some(focused), zone };
        assert(self.active().last_focused == (super::workspace::LastFocused {
            window: Some(focused),
            zone: opt_usize(zone_of(old(self).active().zones(), focused)),
        }));
    }
}


/// A cloak (`true`) or uncloak (`false`) call for each window of `hs`, in order.
pub open spec fn cloak_calls(hs: Seq<Hwnd>, cloaked: bool) -> Seq<SysCall> {
    hs.map_values(|h: Hwnd| SysCall::Cloak(h, cloaked))
}

/// The calls that moving `hwnd` to another workspace asks for: when its zone is not in
/// bound there (so that it goes there floating), to be put back at `r` (if `r` has an
/// area), then, in any case, to be cloaked.
pub open spec fn moved_away_calls(hwnd: Hwnd, in_bound: bool, r: Rect) -> Seq<SysCall> {
    (if !in_bound && has_area(r) {
        seq![SysCall::Restore(hwnd, r)]
    } else {
        Seq::<SysCall>::empty()
    }).push(SysCall::Cloak(hwnd, true))
}

impl MonitorState {
    /// `new` is `self` after switching to workspace `new_idx`: the active one remembers
    /// its focus and stays as it was otherwise, its windows are cloaked, `new_idx` becomes
    /// active, its windows are uncloaked and its zoned windows are snapped where their last
    /// snap differs. Nothing changes for the active workspace or an index past the last
    /// workspace.
    pub open spec fn switched_workspace(self, new_idx: usize, new: MonitorState) -> bool {
        &&& new.wf()
        &&& (new_idx >= WORKSPACE_COUNT || new_idx == self.active_ws) ==> new == self
        &&& (new_idx < WORKSPACE_COUNT && new_idx != self.active_ws) ==> {
                let a = self.active_ws as int;
                &&& new.active_ws == new_idx
                &&& exists|f: Hwnd| #[trigger] new.ws(a).last_focused == (super::workspace::LastFocused {
                    window: Some(f),
                    zone: opt_usize(zone_of(self.ws(a).zones(), f)),
                })
                &&& new.ws(a).zoned == self.ws(a).zoned
                &&& new.ws(a).floating == self.ws(a).floating
                &&& new.ws(a).layout_idx == self.ws(a).layout_idx
                &&& new.ws(a).fullscreen == self.ws(a).fullscreen
                &&& forall|v: int| 0 <= v < WORKSPACE_COUNT && v != a ==> #[trigger] new.ws(v) == self.ws(v)
                &&& new.snapped() == self.reflow_of(self.snapped(), new_idx as int)
                &&& new.commands@ == self.commands@ + cloak_calls(self.ws(a).spec_all_windows(), true)
                    + cloak_calls(self.ws(new_idx as int).spec_all_windows(), false)
                    + self.reflow_calls_of(self.snapped(), new_idx as int)
                &&& new.monitor == self.monitor
                &&& new.layouts == self.layouts
                &&& new.monitor_locked == self.monitor_locked
                &&& new.hwnd_ws == self.hwnd_ws
                &&& new.pre_snap_rects == self.pre_snap_rects
            }
    }

    /// Queues cloaking every window of the active workspace, makes `new_idx` active, and
    /// queues uncloaking its windows and snapping them to their zones. Nothing happens for the active workspace or
    /// an index past the last workspace.
    pub fn switch_workspace<S: WindowSystem>(&mut self, new_idx: usize, sys: &S)
        requires
            old(self).wf(),
        ensures
            old(self).switched_workspace(new_idx, *final(self)),
    {
        if new_idx >= WORKSPACE_COUNT || new_idx == self.active_ws {
            return;
        }
        self.update_last_focused_window(sys);
        let ghost mid = *self;
        let a = self.active_ws;
        let hs = self.workspaces[a].all_windows();
        let mut i: usize = 0;
        while i < hs.len()
            invariant
                i <= hs@.len(),
                *self == mid.with_commands(self.commands),
                self.commands@ == mid.commands@ + cloak_calls(hs@.take(i as int), true),
            decreases hs@.len() - i,
        {
            self.commands.push(SysCall::Cloak(hs[i], true));
            assert(cloak_calls(hs@.take(i as int + 1), true) =~= cloak_calls(hs@.take(i as int), true).push(SysCall::Cloak(hs@[i as int], true)));
            i = i + 1;
        }
        assert(hs@.take(hs@.len() as int) =~= hs@);
        self.active_ws = new_idx;
        let ghost mid2 = *self;
        let hs2 = self.workspaces[new_idx].all_windows();
        let mut j: usize = 0;
        while j < hs2.len()
            invariant
                j <= hs2@.len(),
                *self == mid2.with_commands(self.commands),
                self.commands@ == mid2.commands@ + cloak_calls(hs2@.take(j as int), false),
            decreases hs2@.len() - j,
        {
            self.commands.push(SysCall::Cloak(hs2[j], false));
            assert(cloak_calls(hs2@.take(j as int + 1), false) =~= cloak_calls(hs2@.take(j as int), false).push(SysCall::Cloak(hs2@[j as int], false)));
            j = j + 1;
        }
        assert(hs2@.take(hs2@.len() as int) =~= hs2@);
        let ghost mid3 = *self;
        assert(mid.ws(new_idx as int) == old(self).ws(new_idx as int));
        assert(mid2.layout_of(new_idx as int) == old(self).layout_of(new_idx as int));
        assert(mid2.ws(new_idx as int) == old(self).ws(new_idx as int));
        assert(mid3.ws(new_idx as int) == old(self).ws(new_idx as int));
        assert(mid3.layout_of(new_idx as int) == old(self).layout_of(new_idx as int));
        self.reflow();
        assert(mid3.reflow_calls_of(mid3.snapped(), new_idx as int) == old(self).reflow_calls_of(old(self).snapped(), new_idx as int));
        assert(mid.ws(a as int).spec_all_windows() == old(self).ws(a as int).spec_all_windows());
        assert(self.commands@ =~= old(self).commands@ + cloak_calls(old(self).ws(a as int).spec_all_windows(), true)
            + cloak_calls(old(self).ws(new_idx as int).spec_all_windows(), false)
            + old(self).reflow_calls_of(old(self).snapped(), new_idx as int));
        assert(self.snapped() == mid2.reflow_of(mid2.snapped(), new_idx as int));
        assert(mid2.snapped() == old(self).snapped());
        assert(self.ws(a as int) == mid.ws(a as int));
        proof {
            let f = choose|f: Hwnd| #[trigger] mid.active().last_focused == (super::workspace::LastFocused {
                window: Some(f),
                zone: opt_usize(zone_of(old(self).active().zones(), f)),
            });
            assert(self.ws(a as int).last_focused == (super::workspace::LastFocused {
                window: Some(f),
                zone: opt_usize(zone_of(old(self).ws(a as int).zones(), f)),
            }));
            assert forall|v: int| 0 <= v < WORKSPACE_COUNT && v != a implies #[trigger] self.ws(v) == old(self).ws(v) by {
                assert(mid.ws(v) == old(self).ws(v));
            }
        }
    }

    /// Whether `hwnd` sits in a zone of the active workspace that layout `layout_idx`
    /// also has.
    pub open spec fn spec_in_bound(self, hwnd: Hwnd, layout_idx: usize) -> bool {
        match zone_of(self.active().zones(), hwnd) {
            None => false,
            Some(z) => match spec_layout_len(self.layouts@, layout_idx as int) {
                Some(n) => z < n,
                None => false,
            },
        }
    }

    pub fn window_is_in_bound(&self, hwnd: Hwnd, layout_idx: usize) -> (b: bool)
        requires
            self.wf(),
        ensures
            b == self.spec_in_bound(hwnd, layout_idx),
    {
        match self.workspaces[self.active_ws].get_zone_index(hwnd) {
            None => false,
            Some(idx) => {
                let new_len = match self.layout_len(layout_idx) {
                    Some(n) => n,
                    None => 0,
                };
                idx < new_len
            },
        }
    }

    /// The rect a window moved away to another workspace is known by: its pre-snap rect if
    /// one is recorded, else `sys_rect`, what the system reports for it.
    pub open spec fn move_rect(self, hwnd: Hwnd, sys_rect: Option<Rect>) -> Option<Rect> {
        if self.pre_snap().contains_key(hwnd.0) {
            Some(self.pre_snap()[hwnd.0])
        } else {
            sys_rect
        }
    }

    /// `new` is `self` after moving `hwnd` to workspace `target_ws`, the system reporting
    /// `sys_rect` as the window's rect; `done` tells whether the move went through: it
    /// leaves the active workspace and lands in the zone of the same number there if that
    /// workspace's layout has it, floating otherwise (a restore to its known rect queued),
    /// and a cloak is queued. Nothing changes for the active workspace or an index past the
    /// last one (`done` true), nor when no rect is known for the window (`done` false).
    pub open spec fn moved_to_workspace_with(
        self,
        hwnd: Hwnd,
        target_ws: usize,
        sys_rect: Option<Rect>,
        done: bool,
        new: MonitorState,
    ) -> bool {
        let valid = target_ws < WORKSPACE_COUNT && target_ws != self.active_ws;
        &&& new.wf()
        &&& done == (!valid || self.move_rect(hwnd, sys_rect) is Some)
        &&& !(valid && done) ==> new == self
        &&& (valid && done) ==> {
                let a = self.active_ws as int;
                let t = target_ws as int;
                let r = self.move_rect(hwnd, sys_rect)->0;
                let zi = zone_of(self.ws(a).zones(), hwnd);
                let inb = self.spec_in_bound(hwnd, self.ws(t).layout_idx);
                let lands = inb && zi->0 < self.ws(t).zones().len();
                &&& new.ws(a).zones() == cleared(self.ws(a).zones(), hwnd)
                &&& new.ws(a).floating@ == without(self.ws(a).floating@, hwnd)
                &&& new.ws(a).layout_idx == self.ws(a).layout_idx
                &&& new.ws(a).last_focused == self.ws(a).last_focused
                &&& new.ws(a).fullscreen == self.ws(a).fullscreen
                &&& lands ==> new.ws(t).zones() == placed(self.ws(t).zones(), hwnd, zi->0)
                    && new.ws(t).floating@ == without(self.ws(t).floating@, hwnd)
                &&& (inb && !lands) ==> new.ws(t).zones() == self.ws(t).zones()
                    && new.ws(t).floating == self.ws(t).floating
                &&& !inb ==> new.ws(t).zones() == self.ws(t).zones()
                    && new.ws(t).floating@ == self.ws(t).floating@.push(hwnd)
                &&& new.ws(t).layout_idx == self.ws(t).layout_idx
                &&& new.ws(t).last_focused == self.ws(t).last_focused
                &&& new.ws(t).fullscreen == self.ws(t).fullscreen
                &&& forall|v: int| 0 <= v < WORKSPACE_COUNT && v != a && v != t ==> #[trigger] new.ws(v) == self.ws(v)
                &&& new.owners() == self.owners().insert(hwnd.0, target_ws)
                &&& new.snapped() == self.snapped().remove(hwnd.0)
                &&& new.pre_snap() == if lands && zone_of(self.ws(t).zones(), hwnd) is None {
                    self.pre_snap().insert(hwnd.0, r)
                } else {
                    self.pre_snap()
                }
                &&& new.commands@ == self.commands@ + moved_away_calls(hwnd, inb, r)
                &&& new.active_ws == self.active_ws
                &&& new.monitor == self.monitor
                &&& new.layouts == self.layouts
                &&& new.monitor_locked == self.monitor_locked
            }
    }

    /// `new` is `self` after moving `hwnd` to workspace `target_ws` as
    /// `moved_to_workspace_with` says, for whatever rect the system reported.
    pub open spec fn moved_to_workspace(self, hwnd: Hwnd, target_ws: usize, done: bool, new: MonitorState) -> bool {
        exists|sys_rect: Option<Rect>| #[trigger] self.moved_to_workspace_with(hwnd, target_ws, sys_rect, done, new)
    }

    /// Moves `hwnd` from the active workspace to `target_ws`, the system reporting
    /// `sys_rect` as its rect: into the same zone there when that workspace's layout has
    /// it, floating otherwise (with a restore to its known rect queued), and queues
    /// cloaking it. Returns `false`, changing nothing, when no rect is known for `hwnd`:
    /// neither a pre-snap rect nor `sys_rect`.
    pub fn move_window_to_workspace_with(&mut self, hwnd: Hwnd, target_ws: usize, sys_rect: Option<Rect>) -> (done: bool)
        requires
            old(self).wf(),
        ensures
            old(self).moved_to_workspace_with(hwnd, target_ws, sys_rect, done, *final(self)),
    {
        if target_ws >= WORKSPACE_COUNT || target_ws == self.active_ws {
            return true;
        }
        let layout_idx = self.workspaces[target_ws].layout_idx;
        let rect = match self.pre_snap_rects.get(&hwnd.0) {
            Some(r) => *r,
            None => match sys_rect {
                Some(r) => r,
                None => return false,
            },
        };
        let ghost o = *self;
        let a = self.active_ws;
        let inb = self.window_is_in_bound(hwnd, layout_idx);
        if inb {
            let zone_idx = match self.workspaces[a].get_zone_index(hwnd) {
                Some(z) => z,
                None => return true,
            };
            self.assign_to_zone_ws(zone_idx, target_ws, hwnd, rect);
        } else {
            self.workspaces[target_ws].floating.push(hwnd);
            if rect_has_area(rect) {
                self.commands.push(SysCall::Restore(hwnd, rect));
            }
        }
        let ghost mid = *self;
        self.workspaces[a].remove(hwnd);
        self.hwnd_ws.insert(hwnd.0, target_ws);
        self.snap_cache.remove(&hwnd.0);
        self.commands.push(SysCall::Cloak(hwnd, true));
        assert(rect == o.move_rect(hwnd, sys_rect)->0);
        assert(self.commands@ =~= o.commands@ + moved_away_calls(hwnd, inb, rect));
        assert(self.snapped() =~= o.snapped().remove(hwnd.0));
        assert(self.owners() =~= o.owners().insert(hwnd.0, target_ws));
        proof {
            let t = target_ws as int;
            assert(mid.ws(a as int) == o.ws(a as int));
            assert(self.ws(t) == mid.ws(t));
            assert(self.ws(a as int).zones() =~= cleared(o.ws(a as int).zones(), hwnd));
            assert forall|v: int| 0 <= v < WORKSPACE_COUNT && v != a && v != t implies #[trigger] self.ws(v) == o.ws(v) by {
                assert(mid.ws(v) == o.ws(v));
            }
        }
        true
    }

    /// Moves `hwnd` from the active workspace to `target_ws` as
    /// `move_window_to_workspace_with` does, asking the system for the window's rect when
    /// no pre-snap rect is recorded for it.
    pub fn move_window_to_workspace<S: WindowSystem>(&mut self, hwnd: Hwnd, target_ws: usize, sys: &S) -> (done: bool)
        requires
            old(self).wf(),
        ensures
            old(self).moved_to_workspace(hwnd, target_ws, done, *final(self)),
    {
        let valid = target_ws < WORKSPACE_COUNT && target_ws != self.active_ws;
        let sys_rect = if valid && !self.pre_snap_rects.contains_key(&hwnd.0) {
            sys.window_rect(hwnd)
        } else {
            None
        };
        let done = self.move_window_to_workspace_with(hwnd, target_ws, sys_rect);
        assert(old(self).moved_to_workspace_with(hwnd, target_ws, sys_rect, done, *self));
        done
    }
}


impl MonitorState {
    /// The rect of zone `z` in the layout of workspace `w`, if it has that zone.
    pub open spec fn zone_rect(self, w: int, z: usize) -> Option<Rect> {
        match self.layout_of(w) {
            Some(l) => if z < l.zones@.len() { Some(l.zones@[z as int]) } else { None },
            None => None,
        }
    }

    /// `new` is `self` with `hwnd` on top of zone `dst_zone` of the active workspace, and a
    /// snap to that zone's rect queued when the layout has the zone.
    pub open spec fn moved_to_zone(self, hwnd: Hwnd, dst_zone: usize, new: MonitorState) -> bool {
        &&& new.wf()
        &&& MonitorState::frame(self, new.with_commands(self.commands), self.active_ws as int)
        &&& new.commands@ == self.commands@ + match self.zone_rect(self.active_ws as int, dst_zone) {
                    Some(r) => seq![SysCall::Snap(hwnd, r)],
                    None => Seq::<SysCall>::empty(),
                }
        &&& new.active().zones() == if dst_zone < self.active().zones().len() {
                    placed(self.active().zones(), hwnd, dst_zone as int)
                } else {
                    cleared(self.active().zones(), hwnd)
                }
        &&& new.active().floating@ == without(self.active().floating@, hwnd)
        &&& new.owners() == self.owners().insert(hwnd.0, self.active_ws)
        &&& new.snapped() == match self.layout_of(self.active_ws as int) {
                    Some(l) => if dst_zone < l.zones@.len() {
                        self.snapped().insert(hwnd.0, l.zones@[dst_zone as int])
                    } else {
                        self.snapped().remove(hwnd.0)
                    },
                    None => self.snapped().remove(hwnd.0),
                }
        &&& zone_of(self.active().zones(), hwnd) is Some ==> new.pre_snap() == self.pre_snap()
        &&& zone_of(self.active().zones(), hwnd) is None ==> (new.pre_snap() == self.pre_snap()
                    || exists|r: Rect| #[trigger] new.pre_snap() == self.pre_snap().insert(hwnd.0, r))
    }

    /// Puts `hwnd` on top of zone `dst_zone` of the active workspace (taking it out of
    /// every other zone and the floating list there) and queues a snap to that zone's rect.
    pub fn move_window_to_zone_idx<S: WindowSystem>(&mut self, hwnd: Hwnd, dst_zone: usize, sys: &S)
        requires
            old(self).wf(),
        ensures
            old(self).moved_to_zone(hwnd, dst_zone, *final(self)),
    {
        let ws_idx = self.active_ws;
        if self.workspaces[ws_idx].get_zone_index(hwnd).is_none() {
            match sys.window_rect(hwnd) {
                Some(rect) => {
                    self.pre_snap_rects.insert(hwnd.0, rect);
                },
                None => {},
            }
        }
        let ghost zs = self.workspaces@[ws_idx as int].zones();
        self.workspaces[ws_idx].remove(hwnd);
        let ghost z1 = self.workspaces@[ws_idx as int].zones();
        if dst_zone < self.workspaces[ws_idx].zoned.len() {
            self.workspaces[ws_idx].zoned[dst_zone].push(hwnd);
            assert forall|k: int| 0 <= k < zs.len() implies #[trigger] self.ws(ws_idx as int).zones()[k]
                == placed(zs, hwnd, dst_zone as int)[k] by {
                assert(z1[k] == without(zs[k], hwnd));
            }
            assert(self.ws(ws_idx as int).zones() =~= placed(zs, hwnd, dst_zone as int));
        } else {
            assert(self.ws(ws_idx as int).zones() =~= cleared(zs, hwnd));
        }
        self.hwnd_ws.insert(hwnd.0, ws_idx);
        let layout_idx = self.workspaces[ws_idx].layout_idx;
        let mut target: Option<Rect> = None;
        if layout_idx < self.layouts.len() {
            match &self.layouts[layout_idx] {
                Some(l) => {
                    if dst_zone < l.zones.len() {
                        target = Some(l.zones[dst_zone]);
                    }
                },
                None => {},
            }
        }
        assert(target == old(self).zone_rect(ws_idx as int, dst_zone));
        let ghost before = *self;
        match target {
            Some(rect) => {
                self.commands.push(SysCall::Snap(hwnd, rect));
                self.snap_cache.insert(hwnd.0, rect);
                assert(self.commands@ =~= old(self).commands@ + seq![SysCall::Snap(hwnd, rect)]);
            },
            None => {
                self.snap_cache.remove(&hwnd.0);
                assert(self.commands@ =~= old(self).commands@ + Seq::<SysCall>::empty());
            },
        }
        assert(before.commands == old(self).commands);
        assert(MonitorState::frame(*old(self), self.with_commands(old(self).commands), ws_idx as int));
    }

    /// `new` is `self` after `hwnd` came back from being minimised: a zoned window of the
    /// active workspace gets its last snap forgotten and the active workspace reflowed;
    /// for any other window nothing changes.
    pub open spec fn restored(self, hwnd: Hwnd, new: MonitorState) -> bool {
        &&& new.wf()
        &&& !(self.ws_of(hwnd) == Some(self.active_ws) && self.spec_window_state(hwnd) is Zoned) ==> new == self
        &&& (self.ws_of(hwnd) == Some(self.active_ws) && self.spec_window_state(hwnd) is Zoned) ==> {
                &&& new.snapped() == self.reflow_of(self.snapped().remove(hwnd.0), self.active_ws as int)
                &&& new.commands@ == self.commands@ + self.reflow_calls_of(self.snapped().remove(hwnd.0), self.active_ws as int)
                &&& new.monitor == self.monitor
                &&& new.layouts == self.layouts
                &&& new.workspaces == self.workspaces
                &&& new.active_ws == self.active_ws
                &&& new.monitor_locked == self.monitor_locked
                &&& new.hwnd_ws == self.hwnd_ws
                &&& new.pre_snap_rects == self.pre_snap_rects
            }
    }

    /// Called when a zoned window is restored from minimized.
    pub fn on_window_restored(&mut self, hwnd: Hwnd)
        requires
            old(self).wf(),
        ensures
            old(self).restored(hwnd, *final(self)),
    {
        match self.hwnd_ws.get(&hwnd.0) {
            Some(w) => {
                let ws_idx = *w;
                if ws_idx == self.active_ws {
                    match self.window_state(hwnd) {
                        WindowState::Zoned(_) => {
                            self.snap_cache.remove(&hwnd.0);
                            self.reflow();
                        },
                        _ => {},
                    }
                }
            },
            None => {},
        }
    }
}

/// The zone whose windows are offered when the last focused window is not available:
/// the last focused zone, or the first zone when that one is gone.
pub open spec fn fallback_zone(ws: Workspace) -> Option<Seq<Hwnd>> {
    match ws.last_focused.zone {
        Some(i) if i < ws.zones().len() => Some(ws.zones()[i as int]),
        _ => if ws.zones().len() > 0 { Some(ws.zones()[0]) } else { None },
    }
}

/// The window to focus on a workspace: the last focused window unless minimised; else the
/// topmost visible window of the fallback zone; else the topmost visible floating window.
pub open spec fn spec_last_focused(ws: Workspace, last_min: bool, zone_mins: Seq<bool>, float_mins: Seq<bool>) -> Option<Hwnd> {
    let last = match ws.last_focused.window {
        Some(h) => if !last_min { Some(h) } else { None },
        None => None,
    };
    let vz = match fallback_zone(ws) {
        Some(z) => topmost_visible(z, zone_mins),
        None => None,
    };
    let vf = topmost_visible(ws.floating@, float_mins);
    if last is Some { last } else if vz is Some { vz } else { vf }
}

impl MonitorState {
    /// `r` is the window to focus on the active workspace for some answers of the window
    /// system about which windows are minimised.
    pub open spec fn last_focused_choice(self, r: Option<Hwnd>) -> bool {
        exists|last_min: bool, zone_mins: Seq<bool>, float_mins: Seq<bool>| {
                &&& (fallback_zone(self.active()) matches Some(z) ==> zone_mins.len() == z.len())
                &&& float_mins.len() == self.active().floating@.len()
                &&& r == #[trigger] spec_last_focused(self.active(), last_min, zone_mins, float_mins)
            }
    }

    pub fn get_last_focused_window<S: WindowSystem>(&self, sys: &S) -> (r: Option<Hwnd>)
        requires
            self.wf(),
        ensures
            self.last_focused_choice(r),
    {
        let ws = &self.workspaces[self.active_ws];
        let last_min = match ws.last_focused.window {
            Some(h) => sys.is_minimized(h),
            None => false,
        };
        let last_focused = match ws.last_focused.window {
            Some(h) => if !last_min { Some(h) } else { None },
            None => None,
        };
        let zi: Option<usize> = match ws.last_focused.zone {
            Some(i) => if i < ws.zoned.len() { Some(i) } else if ws.zoned.len() > 0 { Some(0) } else { None },
            None => if ws.zoned.len() > 0 { Some(0) } else { None },
        };
        let (visible_zone, zone_mins) = match zi {
            Some(i) => {
                let m = minimized_flags(sys, &ws.zoned[i]);
                (topmost_visible_in(&ws.zoned[i], &m), m)
            },
            None => (None, Vec::new()),
        };
        let float_mins = minimized_flags(sys, &ws.floating);
        let visible_floating = topmost_visible_in(&ws.floating, &float_mins);
        let r = if last_focused.is_some() {
            last_focused
        } else if visible_zone.is_some() {
            visible_zone
        } else {
            visible_floating
        };
        assert(r == spec_last_focused(self.active(), last_min, zone_mins@, float_mins@));
        r
    }
}

/// One candidate per zone of the first `m` zones: the zone's topmost visible window with
/// the zone's rect.
pub open spec fn zoned_cands(zs: Seq<Seq<Hwnd>>, rects: Seq<Rect>, mins: Seq<Seq<bool>>, m: int) -> Seq<(Hwnd, Rect)>
    decreases m,
{
    if m <= 0 {
        Seq::empty()
    } else {
        zoned_cands(zs, rects, mins, m - 1) + match topmost_visible(zone_or_empty(zs, m - 1), mins[m - 1]) {
            Some(h) => seq![(h, rects[m - 1])],
            None => Seq::empty(),
        }
    }
}

/// The windows of `hs` among the first `m` that are not minimised and whose rect is known,
/// with that rect.
pub open spec fn visible_with_rects(hs: Seq<Hwnd>, mins: Seq<bool>, rects: Seq<Option<Rect>>, m: int) -> Seq<(Hwnd, Rect)>
    decreases m,
{
    if m <= 0 {
        Seq::empty()
    } else {
        visible_with_rects(hs, mins, rects, m - 1) + if !mins[m - 1] && rects[m - 1] is Some {
            seq![(hs[m - 1], rects[m - 1]->0)]
        } else {
            Seq::empty()
        }
    }
}

/// The windows of `hs` among the first `m` that are not in `known` and whose rect is known,
/// with that rect.
pub open spec fn untracked_with_rects(hs: Seq<Hwnd>, known: Seq<Hwnd>, rects: Seq<Option<Rect>>, m: int) -> Seq<(Hwnd, Rect)>
    decreases m,
{
    if m <= 0 {
        Seq::empty()
    } else {
        untracked_with_rects(hs, known, rects, m - 1) + if !known.contains(hs[m - 1]) && rects[m - 1] is Some {
            seq![(hs[m - 1], rects[m - 1]->0)]
        } else {
            Seq::empty()
        }
    }
}

impl MonitorState {
    /// `r` is what the zoned focus candidates of the active workspace are for some answers
    /// of the window system about which windows are minimised.
    pub open spec fn zoned_cands_ok(self, r: Seq<(Hwnd, Rect)>) -> bool {
        &&& self.layout_of(self.active_ws as int) is None ==> r == Seq::<(Hwnd, Rect)>::empty()
        &&& self.layout_of(self.active_ws as int) matches Some(l) ==> exists|mins: Seq<Seq<bool>>| {
                &&& mins.len() == l.zones@.len()
                &&& forall|i: int| 0 <= i < mins.len() ==> (#[trigger] mins[i]).len() == zone_or_empty(self.active().zones(), i).len()
                &&& r == #[trigger] zoned_cands(self.active().zones(), l.zones@, mins, l.zones@.len() as int)
            }
    }

    /// For every zone of the active layout that shows a window that is not minimised, its
    /// topmost such window with the zone's rect.
    pub fn zoned_focus_candidates<S: WindowSystem>(&self, sys: &S) -> (r: Vec<(Hwnd, Rect)>)
        requires
            self.wf(),
        ensures
            self.zoned_cands_ok(r@),
    {
        let layout = match self.active_layout() {
            Some(l) => l,
            None => return Vec::new(),
        };
        let ws = &self.workspaces[self.active_ws];
        let ghost zs = ws.zones();
        let mut out: Vec<(Hwnd, Rect)> = Vec::new();
        let ghost mut mins: Seq<Seq<bool>> = Seq::empty();
        let mut i: usize = 0;
        while i < layout.zones.len()
            invariant
                i <= layout.zones@.len(),
                zs == ws.zones(),
                mins.len() == i,
                forall|k: int| 0 <= k < mins.len() ==> (#[trigger] mins[k]).len() == zone_or_empty(zs, k).len(),
                out@ == zoned_cands(zs, layout.zones@, mins, i as int),
            decreases layout.zones@.len() - i,
        {
            let (m, top) = if i < ws.zoned.len() {
                let m = minimized_flags(sys, &ws.zoned[i]);
                let t = topmost_visible_in(&ws.zoned[i], &m);
                (m, t)
            } else {
                (Vec::new(), None)
            };
            let ghost old_mins = mins;
            proof {
                mins = mins.push(m@);
                assert(zone_or_empty(zs, i as int).len() == m@.len());
                assert(top == topmost_visible(zone_or_empty(zs, i as int), m@));
                lemma_zoned_cands_prefix(zs, layout.zones@, mins, old_mins, i as int);
                assert(mins[i as int] == m@);
            }
            match top {
                Some(h) => out.push((h, layout.zones[i])),
                None => {},
            }
            assert(out@ =~= zoned_cands(zs, layout.zones@, mins, i as int + 1));
            i = i + 1;
        }
        out
    }

    /// `r` is what the floating focus candidates of the active workspace are for some answers
    /// of the window system: which floating windows are minimised, what rects it reports and
    /// which windows it lists on this monitor.
    pub open spec fn floating_cands_ok(self, r: Seq<(Hwnd, Rect)>) -> bool {
        exists|mins: Seq<bool>, rects: Seq<Option<Rect>>, on: Seq<Hwnd>, on_rects: Seq<Option<Rect>>|
                #![trigger visible_with_rects(self.active().floating@, mins, rects, mins.len() as int), untracked_with_rects(on, self.active().spec_all_windows(), on_rects, on.len() as int)]
                {
                &&& mins.len() == self.active().floating@.len()
                &&& rects.len() == self.active().floating@.len()
                &&& on_rects.len() == on.len()
                &&& r == visible_with_rects(self.active().floating@, mins, rects, mins.len() as int)
                    + untracked_with_rects(on, self.active().spec_all_windows(), on_rects, on.len() as int)
            }
    }

    /// The floating windows of the active workspace that are not minimised, then the windows
    /// on this monitor that no workspace here knows, each with its current rect.
    pub fn floating_focus_candidates<S: WindowSystem>(&self, sys: &S) -> (r: Vec<(Hwnd, Rect)>)
        requires
            self.wf(),
        ensures
            self.floating_cands_ok(r@),
    {
        let ws = &self.workspaces[self.active_ws];
        let fl = &ws.floating;
        let mut out: Vec<(Hwnd, Rect)> = Vec::new();
        let ghost mut mins: Seq<bool> = Seq::empty();
        let ghost mut rects: Seq<Option<Rect>> = Seq::empty();
        let mut i: usize = 0;
        while i < fl.len()
            invariant
                i <= fl@.len(),
                mins.len() == i,
                rects.len() == i,
                out@ == visible_with_rects(fl@, mins, rects, i as int),
            decreases fl@.len() - i,
        {
            let h = fl[i];
            let m = sys.is_minimized(h);
            let rect = if !m { sys.window_rect(h) } else { None };
            proof {
                lemma_visible_prefix(fl@, mins, rects, mins.push(m), rects.push(rect), i as int);
                mins = mins.push(m);
                rects = rects.push(rect);
            }
            if !m {
                match rect {
                    Some(rr) => out.push((h, rr)),
                    None => {},
                }
            }
            assert(out@ =~= visible_with_rects(fl@, mins, rects, i as int + 1));
            i = i + 1;
        }
        let known = ws.all_windows();
        let on = sys.enumerate_on_monitor(self.monitor.handle);
        let ghost first = out@;
        let ghost mut on_rects: Seq<Option<Rect>> = Seq::empty();
        let mut j: usize = 0;
        while j < on.len()
            invariant
                j <= on@.len(),
                on_rects.len() == j,
                out@ == first + untracked_with_rects(on@, known@, on_rects, j as int),
            decreases on@.len() - j,
        {
            let h = on[j];
            let is_known = vec_contains(&known, h);
            let rect = if !is_known { sys.window_rect(h) } else { None };
            proof {
                lemma_untracked_prefix(on@, known@, on_rects, on_rects.push(rect), j as int);
                on_rects = on_rects.push(rect);
            }
            if !is_known {
                match rect {
                    Some(rr) => out.push((h, rr)),
                    None => {},
                }
            }
            assert(out@ =~= first + untracked_with_rects(on@, known@, on_rects, j as int + 1));
            j = j + 1;
        }
        assert(out@ == visible_with_rects(ws.floating@, mins, rects, mins.len() as int)
            + untracked_with_rects(on@, ws.spec_all_windows(), on_rects, on@.len() as int));
        out
    }
}

proof fn lemma_zoned_cands_prefix(zs: Seq<Seq<Hwnd>>, rects: Seq<Rect>, m1: Seq<Seq<bool>>, m2: Seq<Seq<bool>>, m: int)
    requires
        forall|k: int| 0 <= k < m ==> m1[k] == m2[k],
    ensures
        zoned_cands(zs, rects, m1, m) == zoned_cands(zs, rects, m2, m),
    decreases m,
{
    if m > 0 {
        lemma_zoned_cands_prefix(zs, rects, m1, m2, m - 1);
    }
}

proof fn lemma_visible_prefix(hs: Seq<Hwnd>, m1: Seq<bool>, r1: Seq<Option<Rect>>, m2: Seq<bool>, r2: Seq<Option<Rect>>, m: int)
    requires
        forall|k: int| 0 <= k < m ==> m1[k] == m2[k] && r1[k] == r2[k],
    ensures
        visible_with_rects(hs, m1, r1, m) == visible_with_rects(hs, m2, r2, m),
    decreases m,
{
    if m > 0 {
        lemma_visible_prefix(hs, m1, r1, m2, r2, m - 1);
    }
}

proof fn lemma_untracked_prefix(hs: Seq<Hwnd>, known: Seq<Hwnd>, r1: Seq<Option<Rect>>, r2: Seq<Option<Rect>>, m: int)
    requires
        forall|k: int| 0 <= k < m ==> r1[k] == r2[k],
    ensures
        untracked_with_rects(hs, known, r1, m) == untracked_with_rects(hs, known, r2, m),
    decreases m,
{
    if m > 0 {
        lemma_untracked_prefix(hs, known, r1, r2, m - 1);
    }
}


pub open spec fn abs_i(x: int) -> int {
    if x < 0 { -x } else { x }
}

/// How far window rect `r` is from zone rect `zr` (distance of the top-left corners plus
/// difference in size), when close enough to snap it there on capture.
pub open spec fn snap_score(zr: Rect, r: Rect) -> Option<int> {
    let dx = abs_i(r.left - zr.left);
    let dy = abs_i(r.top - zr.top);
    let dw = abs_i(r.spec_width() - zr.spec_width());
    let dh = abs_i(r.spec_height() - zr.spec_height());
    let score = dx + dy + dw + dh;
    if dx <= MAX_POS_DELTA && dy <= MAX_POS_DELTA && dw <= MAX_SIZE_DELTA && dh <= MAX_SIZE_DELTA
        && score <= AUTO_SNAP_THRESHOLD {
        Some(score)
    } else {
        None
    }
}

/// Zone `i` is the first of the zones closest to `r` within snapping distance.
pub open spec fn is_best_zone(zones: Seq<Rect>, r: Rect, i: int) -> bool {
    &&& 0 <= i < zones.len()
    &&& snap_score(zones[i], r) is Some
    &&& forall|j: int| 0 <= j < zones.len() && snap_score(zones[j], r) is Some ==>
        snap_score(zones[i], r)->0 <= snap_score(#[trigger] zones[j], r)->0
    &&& forall|j: int| 0 <= j < i && snap_score(zones[j], r) is Some ==>
        snap_score(zones[i], r)->0 < snap_score(#[trigger] zones[j], r)->0
}

pub open spec fn best_zone(zones: Seq<Rect>, r: Rect) -> Option<int> {
    if exists|i: int| is_best_zone(zones, r, i) {
        Some(choose|i: int| is_best_zone(zones, r, i))
    } else {
        None
    }
}

proof fn lemma_best_zone_is(zones: Seq<Rect>, r: Rect, i: int)
    requires
        is_best_zone(zones, r, i),
    ensures
        best_zone(zones, r) == Some(i),
{
    let c = choose|c: int| is_best_zone(zones, r, c);
    assert(is_best_zone(zones, r, c));
    if c < i {
        assert(snap_score(zones[i], r)->0 < snap_score(zones[c], r)->0);
        assert(snap_score(zones[c], r)->0 <= snap_score(zones[i], r)->0);
    } else if i < c {
        assert(snap_score(zones[c], r)->0 < snap_score(zones[i], r)->0);
        assert(snap_score(zones[i], r)->0 <= snap_score(zones[c], r)->0);
    }
}

proof fn lemma_best_in_prefix(zones: Seq<Rect>, r: Rect, m: int) -> (i: int)
    requires
        0 < m <= zones.len(),
        exists|k: int| 0 <= k < m && snap_score(#[trigger] zones[k], r) is Some,
    ensures
        0 <= i < m,
        snap_score(zones[i], r) is Some,
        forall|j: int| 0 <= j < m && snap_score(zones[j], r) is Some ==>
            snap_score(zones[i], r)->0 <= snap_score(#[trigger] zones[j], r)->0,
        forall|j: int| 0 <= j < i && snap_score(zones[j], r) is Some ==>
            snap_score(zones[i], r)->0 < snap_score(#[trigger] zones[j], r)->0,
    decreases m,
{
    if exists|k: int| 0 <= k < m - 1 && snap_score(#[trigger] zones[k], r) is Some {
        let p = lemma_best_in_prefix(zones, r, m - 1);
        if snap_score(zones[m - 1], r) is Some && snap_score(zones[m - 1], r)->0 < snap_score(zones[p], r)->0 {
            m - 1
        } else {
            p
        }
    } else {
        let k = choose|k: int| 0 <= k < m && snap_score(#[trigger] zones[k], r) is Some;
        assert(k == m - 1);
        m - 1
    }
}

proof fn lemma_best_zone_exists(zones: Seq<Rect>, r: Rect, j: int)
    requires
        0 <= j < zones.len(),
        snap_score(zones[j], r) is Some,
    ensures
        best_zone(zones, r) is Some,
{
    let i = lemma_best_in_prefix(zones, r, zones.len() as int);
    assert(is_best_zone(zones, r, i));
}

/// Window rect `r` lies within snapping distance of zone rect `z`: each corner
/// coordinate within `MAX_POS_DELTA`, width and height each within `MAX_SIZE_DELTA`, and
/// the four differences together within `AUTO_SNAP_THRESHOLD`.
pub open spec fn within_snap_distance(z: Rect, r: Rect) -> bool {
    let dl = abs_i(r.left as int - z.left as int);
    let dt = abs_i(r.top as int - z.top as int);
    let dwid = abs_i((r.right as int - r.left as int) - (z.right as int - z.left as int));
    let dhei = abs_i((r.bottom as int - r.top as int) - (z.bottom as int - z.top as int));
    &&& dl <= MAX_POS_DELTA
    &&& dt <= MAX_POS_DELTA
    &&& dwid <= MAX_SIZE_DELTA
    &&& dhei <= MAX_SIZE_DELTA
    &&& dl + dt + dwid + dhei <= AUTO_SNAP_THRESHOLD
}

/// The total of the position and size differences between window rect `r` and zone `z`.
pub open spec fn snap_distance(z: Rect, r: Rect) -> int {
    abs_i(r.left as int - z.left as int) + abs_i(r.top as int - z.top as int)
        + abs_i((r.right as int - r.left as int) - (z.right as int - z.left as int))
        + abs_i((r.bottom as int - r.top as int) - (z.bottom as int - z.top as int))
}

/// A window is auto-snapped only to a zone within snapping distance of its rect (corner,
/// width and height each close enough, and all of them together), exactly when some zone
/// is, and to one at least as close as every zone within that distance.
pub proof fn lemma_auto_snap_zone_is_close(zones: Seq<Rect>, r: Rect)
    ensures
        best_zone(zones, r) matches Some(i) ==> {
            &&& 0 <= i < zones.len()
            &&& within_snap_distance(zones[i], r)
            &&& forall|j: int| 0 <= j < zones.len() && within_snap_distance(#[trigger] zones[j], r) ==> snap_distance(zones[i], r) <= snap_distance(zones[j], r)
        },
        best_zone(zones, r) is None ==> forall|j: int| 0 <= j < zones.len() ==> !within_snap_distance(#[trigger] zones[j], r),
{
    if best_zone(zones, r) is Some {
        let i = choose|i: int| is_best_zone(zones, r, i);
        assert(is_best_zone(zones, r, i));
        assert forall|j: int| 0 <= j < zones.len() && within_snap_distance(#[trigger] zones[j], r) implies snap_distance(zones[i], r) <= snap_distance(zones[j], r) by {
            assert(snap_score(zones[j], r) is Some);
        }
    } else {
        assert forall|j: int| 0 <= j < zones.len() implies !within_snap_distance(#[trigger] zones[j], r) by {
            if within_snap_distance(zones[j], r) {
                assert(snap_score(zones[j], r) is Some);
                lemma_best_zone_exists(zones, r, j);
            }
        }
    }
}

fn abs64(x: i64) -> (r: i64)
    requires
        x > i64::MIN,
    ensures
        r == abs_i(x as int),
{
    if x < 0 { -x } else { x }
}

fn auto_snap_score(zr: Rect, r: Rect) -> (s: Option<i64>)
    ensures
        match s {
            Some(v) => snap_score(zr, r) == Some(v as int),
            None => snap_score(zr, r) is None,
        },
{
    let dx = abs64(r.left as i64 - zr.left as i64);
    let dy = abs64(r.top as i64 - zr.top as i64);
    let rw = r.right as i64 - r.left as i64;
    let rh = r.bottom as i64 - r.top as i64;
    let zw = zr.right as i64 - zr.left as i64;
    let zh = zr.bottom as i64 - zr.top as i64;
    let dw = abs64(rw - zw);
    let dh = abs64(rh - zh);
    let score = dx + dy + dw + dh;
    if dx <= MAX_POS_DELTA as i64 && dy <= MAX_POS_DELTA as i64 && dw <= MAX_SIZE_DELTA as i64
        && dh <= MAX_SIZE_DELTA as i64 && score <= AUTO_SNAP_THRESHOLD as i64 {
        Some(score)
    } else {
        None
    }
}

/// The first of the zones closest to `r`, among those within snapping distance.
pub fn auto_snap_zone(zones: &Vec<Rect>, r: Rect) -> (z: Option<usize>)
    ensures
        match z {
            Some(i) => best_zone(zones@, r) == Some(i as int),
            None => best_zone(zones@, r) is None,
        },
{
    let mut best: Option<(usize, i64)> = None;
    let mut i: usize = 0;
    while i < zones.len()
        invariant
            i <= zones@.len(),
            match best {
                None => forall|j: int| 0 <= j < i ==> snap_score(#[trigger] zones@[j], r) is None,
                Some((bi, bs)) => {
                    &&& bi < i
                    &&& snap_score(zones@[bi as int], r) == Some(bs as int)
                    &&& forall|j: int| 0 <= j < i && snap_score(zones@[j], r) is Some ==>
                        bs <= snap_score(#[trigger] zones@[j], r)->0
                    &&& forall|j: int| 0 <= j < bi && snap_score(zones@[j], r) is Some ==>
                        bs < snap_score(#[trigger] zones@[j], r)->0
                },
            },
        decreases zones@.len() - i,
    {
        match auto_snap_score(zones[i], r) {
            Some(sc) => {
                let better = match best {
                    None => true,
                    Some((_, bs)) => sc < bs,
                };
                if better {
                    best = Some((i, sc));
                }
            },
            None => {},
        }
        i = i + 1;
    }
    match best {
        None => {
            assert forall|k: int| !is_best_zone(zones@, r, k) by {
                if 0 <= k < zones@.len() {
                    assert(snap_score(zones@[k], r) is None);
                }
            }
            None
        },
        Some((bi, _)) => {
            assert(is_best_zone(zones@, r, bi as int));
            proof { lemma_best_zone_is(zones@, r, bi as int); }
            Some(bi)
        },
    }
}

/// The active workspace's windows and the window maps.
pub struct Placement {
    pub zones: Seq<Seq<Hwnd>>,
    pub floating: Seq<Hwnd>,
    pub owners: Map<isize, usize>,
    pub snapped: Map<isize, Rect>,
    pub pre_snap: Map<isize, Rect>,
}

/// `p` after a window first seen with rect `obs` is auto-snapped on workspace `a` whose
/// layout has zone rects `lz`; `None` when it is not (no rect, no layout, no zone close
/// enough).
pub open spec fn auto_snapped(p: Placement, h: Hwnd, a: usize, obs: Option<Rect>, lz: Option<Layout>) -> Option<Placement> {
    match (obs, lz) {
        (Some(r), Some(l)) => match best_zone(l.zones@, r) {
            None => None,
            Some(z) => Some(
                if z < p.zones.len() {
                    Placement {
                        zones: placed(p.zones, h, z),
                        floating: without(p.floating, h),
                        owners: p.owners.insert(h.0, a),
                        snapped: p.snapped.remove(h.0),
                        pre_snap: if zone_of(p.zones, h) is None { p.pre_snap.insert(h.0, r) } else { p.pre_snap },
                    }
                } else {
                    p
                },
            ),
        },
        _ => None,
    }
}

/// `p` after a window not yet known here is captured on workspace `a`: tracked there,
/// auto-snapped when possible, floating otherwise.
pub open spec fn capture_one(p: Placement, h: Hwnd, a: usize, obs: Option<Rect>, lz: Option<Layout>) -> Placement {
    let p1 = Placement { owners: p.owners.insert(h.0, a), snapped: p.snapped.remove(h.0), ..p };
    match auto_snapped(p1, h, a, obs, lz) {
        Some(p2) => p2,
        None => Placement { floating: p1.floating.push(h), ..p1 },
    }
}

/// `p` after the first `m` windows of `hs` are captured, with rects `obs`.
pub open spec fn capture_many(p: Placement, hs: Seq<Hwnd>, a: usize, obs: Seq<Option<Rect>>, lz: Option<Layout>, m: int) -> Placement
    decreases m,
{
    if m <= 0 {
        p
    } else {
        capture_one(capture_many(p, hs, a, obs, lz, m - 1), hs[m - 1], a, obs[m - 1], lz)
    }
}

/// The windows of `hs` not in `owners`.
pub open spec fn unowned(hs: Seq<Hwnd>, owners: Map<isize, usize>) -> Seq<Hwnd> {
    hs.filter(|h: Hwnd| !owners.contains_key(h.0))
}

/// The snap cache `c` after every zoned window of `zs` is snapped with layout `lo`.
pub open spec fn reflow_zones(c: Map<isize, Rect>, zs: Seq<Seq<Hwnd>>, lo: Option<Layout>) -> Map<isize, Rect> {
    match lo {
        None => c,
        Some(l) => reflowed(c, zs, l.zones@, min_len(l.zones@.len(), zs.len())),
    }
}

impl MonitorState {
    pub open spec fn placement(self) -> Placement {
        Placement {
            zones: self.active().zones(),
            floating: self.active().floating@,
            owners: self.owners(),
            snapped: self.snapped(),
            pre_snap: self.pre_snap(),
        }
    }

    /// Only the active workspace's windows and the window maps may differ.
    pub open spec fn same_but_placement(self, new: MonitorState) -> bool {
        &&& new.monitor == self.monitor
        &&& new.layouts == self.layouts
        &&& new.active_ws == self.active_ws
        &&& new.monitor_locked == self.monitor_locked
        &&& new.workspaces@.len() == self.workspaces@.len()
        &&& forall|v: int| 0 <= v < self.workspaces@.len() && v != self.active_ws ==> #[trigger] new.ws(v) == self.ws(v)
        &&& new.active().layout_idx == self.active().layout_idx
        &&& new.active().last_focused == self.active().last_focused
        &&& new.active().fullscreen == self.active().fullscreen
    }

    proof fn lemma_same_but_trans(a: MonitorState, b: MonitorState, c: MonitorState)
        requires
            a.same_but_placement(b),
            b.same_but_placement(c),
        ensures
            a.same_but_placement(c),
    {
        assert forall|v: int| 0 <= v < a.workspaces@.len() && v != a.active_ws implies #[trigger] c.ws(v) == a.ws(v) by {
            assert(b.ws(v) == a.ws(v));
            assert(c.ws(v) == b.ws(v));
        }
    }

    /// The layout slot of the active workspace.
    pub open spec fn active_layout_slot(self) -> Option<Layout> {
        self.layouts@[self.active().layout_idx as int]
    }

    fn try_auto_snap(&mut self, hwnd: Hwnd, obs: Option<Rect>) -> (snapped: bool)
        requires
            old(self).wf(),
            old(self).active().layout_idx < old(self).layouts@.len(),
            old(self).owners().contains_key(hwnd.0) && old(self).owners()[hwnd.0] == old(self).active_ws,
            !old(self).snapped().contains_key(hwnd.0),
        ensures
            final(self).wf(),
            final(self).active().layout_idx < final(self).layouts@.len(),
            final(self).commands == old(self).commands,
            match auto_snapped(old(self).placement(), hwnd, old(self).active_ws, obs, old(self).active_layout_slot()) {
                    None => !snapped && *final(self) == *old(self),
                    Some(p2) => snapped && final(self).placement() == p2 && old(self).same_but_placement(*final(self)),
                },
    {
        let r = match obs {
            Some(r) => r,
            None => {
                assert(auto_snapped(old(self).placement(), hwnd, old(self).active_ws, None, old(self).active_layout_slot()) is None);
                return false;
            },
        };
        let layout_idx = self.workspaces[self.active_ws].layout_idx;
        let best = match &self.layouts[layout_idx] {
            Some(layout) => auto_snap_zone(&layout.zones, r),
            None => {
                assert(auto_snapped(old(self).placement(), hwnd, old(self).active_ws, Some(r), old(self).active_layout_slot()) is None);
                return false;
            },
        };
        let zone_idx = match best {
            Some(z) => z,
            None => {
                assert(auto_snapped(old(self).placement(), hwnd, old(self).active_ws, Some(r), old(self).active_layout_slot()) is None);
                return false;
            },
        };
        self.assign_to_zone(zone_idx, hwnd, r);
        proof {
            let p = old(self).placement();
            let ap = auto_snapped(p, hwnd, old(self).active_ws, Some(r), old(self).active_layout_slot());
            assert(ap is Some);
            if zone_idx < p.zones.len() {
                assert(self.owners() =~= p.owners.insert(hwnd.0, old(self).active_ws));
                assert(self.snapped() =~= p.snapped.remove(hwnd.0));
                assert(self.placement() == ap->0);
            } else {
                assert(self.placement() == ap->0);
            }
        }
        true
    }

    /// `new` is `self` after capturing the windows on this monitor: every one that no
    /// workspace here knows yet is tracked on the active workspace, snapped to the zone its
    /// rect is close to if any and floating otherwise; then the zoned windows of the active
    /// workspace are snapped.
    pub open spec fn captured(self, new: MonitorState) -> bool {
        exists|on: Seq<Hwnd>, obs: Seq<Option<Rect>>| #[trigger] self.captured_with(on, obs, new)
    }

    /// `new` is `self` after capturing the windows `on` listed on this monitor, the system
    /// reporting rects `obs` for those of them that no workspace here knows yet, in order:
    /// each such window is tracked on the active workspace, snapped to the zone its rect is
    /// close to if any and floating otherwise; then the zoned windows of the active
    /// workspace are snapped.
    pub open spec fn captured_with(self, on: Seq<Hwnd>, obs: Seq<Option<Rect>>, new: MonitorState) -> bool {
        let fresh = unowned(on, self.owners());
        let p = capture_many(self.placement(), fresh, self.active_ws, obs, self.active_layout_slot(), fresh.len() as int);
        &&& new.wf()
        &&& self.same_but_placement(new)
        &&& obs.len() == fresh.len()
        &&& new.active().zones() == p.zones
        &&& new.active().floating@ == p.floating
        &&& new.owners() == p.owners
        &&& new.pre_snap() == p.pre_snap
        &&& new.snapped() == reflow_zones(p.snapped, p.zones, self.active_layout_slot())
        &&& new.commands@ == self.commands@ + reflow_zone_calls(p.snapped, p.zones, self.active_layout_slot())
    }

    /// The windows of `on` that no workspace here knows yet, in order.
    pub fn unowned_windows(&self, on: &Vec<Hwnd>) -> (fresh: Vec<Hwnd>)
        ensures
            fresh@ == unowned(on@, self.owners()),
    {
        let mut fresh: Vec<Hwnd> = Vec::new();
        let mut i: usize = 0;
        while i < on.len()
            invariant
                i <= on@.len(),
                fresh@ == unowned(on@.take(i as int), self.owners()),
            decreases on@.len() - i,
        {
            let h = on[i];
            assert(on@.take(i as int + 1) =~= on@.take(i as int).push(h));
            proof {
                on@.take(i as int).lemma_filter_push(h, |h: Hwnd| !self.owners().contains_key(h.0));
            }
            if !self.hwnd_ws.contains_key(&h.0) {
                fresh.push(h);
            }
            i = i + 1;
        }
        assert(on@.take(on@.len() as int) =~= on@);
        fresh
    }

    /// Starts tracking, on the active workspace, every window of `on_monitor` that no
    /// workspace here knows yet, `rects` being what the system reports for those windows,
    /// in order: snapped to the zone its rect is close to, if any, floating otherwise; then
    /// queues snaps for the zoned windows of the active workspace.
    pub fn capture_windows(&mut self, on_monitor: &Vec<Hwnd>, rects: &Vec<Option<Rect>>)
        requires
            old(self).wf(),
            old(self).active().layout_idx < old(self).layouts@.len(),
            rects@.len() == unowned(on_monitor@, old(self).owners()).len(),
        ensures
            old(self).captured_with(on_monitor@, rects@, *final(self)),
    {
        let ghost o = *self;
        let fresh = self.unowned_windows(on_monitor);
        let a = self.active_ws;
        let mut j: usize = 0;
        while j < fresh.len()
            invariant
                j <= fresh@.len(),
                rects@.len() == fresh@.len(),
                self.wf(),
                a == self.active_ws,
                a == o.active_ws,
                self.active().layout_idx < self.layouts@.len(),
                o.same_but_placement(*self),
                self.placement() == capture_many(o.placement(), fresh@, a, rects@, o.active_layout_slot(), j as int),
                fresh@ == unowned(on_monitor@, o.owners()),
                o.active_layout_slot() == self.active_layout_slot(),
                self.commands == o.commands,
            decreases fresh@.len() - j,
        {
            let h = fresh[j];
            let ghost before = *self;
            self.hwnd_ws.insert(h.0, a);
            self.snap_cache.remove(&h.0);
            let ghost mid = *self;
            assert(before.same_but_placement(mid));
            assert(mid.placement() == Placement { owners: before.owners().insert(h.0, a), snapped: before.snapped().remove(h.0), ..before.placement() });
            let snapped = self.try_auto_snap(h, rects[j]);
            let ghost after_try = *self;
            if !snapped {
                self.workspaces[a].floating.push(h);
            }
            proof {
                assert(mid.same_but_placement(after_try));
                assert(after_try.same_but_placement(*self));
                MonitorState::lemma_same_but_trans(before, mid, after_try);
                MonitorState::lemma_same_but_trans(before, after_try, *self);
                MonitorState::lemma_same_but_trans(o, before, *self);
                assert(self.placement() =~~= capture_one(before.placement(), h, a, rects@[j as int], o.active_layout_slot()));
            }
            j = j + 1;
        }
        let ghost before_reflow = *self;
        self.reflow();
        proof {
            assert(before_reflow.same_but_placement(*self));
            MonitorState::lemma_same_but_trans(o, before_reflow, *self);
        }
    }

    /// Starts tracking, on the active workspace, every window on this monitor that no
    /// workspace here knows yet, as `capture_windows` does with the windows and rects that
    /// the system reports.
    pub fn capture_all_windows<S: WindowSystem>(&mut self, sys: &S)
        requires
            old(self).wf(),
            old(self).active().layout_idx < old(self).layouts@.len(),
        ensures
            old(self).captured(*final(self)),
    {
        let on_monitor = sys.enumerate_on_monitor(self.monitor.handle);
        let fresh = self.unowned_windows(&on_monitor);
        let mut rects: Vec<Option<Rect>> = Vec::new();
        let mut j: usize = 0;
        while j < fresh.len()
            invariant
                j <= fresh@.len(),
                rects@.len() == j,
            decreases fresh@.len() - j,
        {
            rects.push(sys.window_rect(fresh[j]));
            j = j + 1;
        }
        self.capture_windows(&on_monitor, &rects);
        assert(old(self).captured_with(on_monitor@, rects@, *self));
    }
}


/// The layout slot workspace showing slot `idx` falls back to under `layouts`: `idx` when it
/// holds a layout, else the first slot that does (or 0).
pub open spec fn effective_layout(layouts: Seq<Option<Layout>>, idx: usize) -> usize {
    if spec_layout_len(layouts, idx as int) is Some { idx } else { first_layout(layouts) as usize }
}

pub open spec fn len_or_zero(o: Option<nat>) -> nat {
    match o {
        Some(n) => n,
        None => 0,
    }
}

impl MonitorState {
    /// Replaces the layouts; every workspace keeps its layout slot if it still holds a
    /// layout and falls back to the first layout otherwise, its zones cut down or padded to
    /// that layout's zone count; then the active workspace is snapped again.
    pub fn reload_layouts(&mut self, layouts: Vec<Option<Layout>>)
        requires
            old(self).wf(),
        ensures
            final(self).wf(),
            final(self).layouts == layouts,
            final(self).monitor == old(self).monitor,
            final(self).active_ws == old(self).active_ws,
            final(self).monitor_locked == old(self).monitor_locked,
            final(self).owners() == old(self).owners(),
            final(self).pre_snap() == old(self).pre_snap(),
            forall|w: int| 0 <= w < WORKSPACE_COUNT ==> {
                let e = effective_layout(layouts@, old(self).ws(w).layout_idx);
                &&& (#[trigger] final(self).ws(w)).layout_idx == e
                &&& final(self).ws(w).zones() == resized(old(self).ws(w).zones(), len_or_zero(spec_layout_len(layouts@, e as int)))
                &&& final(self).ws(w).floating == old(self).ws(w).floating
                &&& final(self).ws(w).last_focused == old(self).ws(w).last_focused
                &&& final(self).ws(w).fullscreen == old(self).ws(w).fullscreen
            },
            final(self).snapped() == reflow_zones(
                old(self).snapped(),
                final(self).active().zones(),
                final(self).layout_of(final(self).active_ws as int),
            ),
            final(self).commands@ == old(self).commands@ + reflow_zone_calls(
                old(self).snapped(),
                final(self).active().zones(),
                final(self).layout_of(final(self).active_ws as int),
            ),
    {
        self.layouts = layouts;
        let fallback = first_layout_idx(&self.layouts);
        let ghost o = *old(self);
        let mut i: usize = 0;
        while i < WORKSPACE_COUNT
            invariant
                i <= WORKSPACE_COUNT,
                self.workspaces@.len() == WORKSPACE_COUNT,
                self.layouts == layouts,
                fallback == first_layout(layouts@),
                self.monitor == o.monitor,
                self.active_ws == o.active_ws,
                self.monitor_locked == o.monitor_locked,
                self.hwnd_ws == o.hwnd_ws,
                self.snap_cache == o.snap_cache,
                self.pre_snap_rects == o.pre_snap_rects,
                self.commands == o.commands,
                o.wf(),
                forall|w: int| i <= w < WORKSPACE_COUNT ==> #[trigger] self.ws(w) == o.ws(w),
                forall|w: int| 0 <= w < i ==> {
                    let e = effective_layout(layouts@, o.ws(w).layout_idx);
                    &&& (#[trigger] self.ws(w)).layout_idx == e
                    &&& self.ws(w).zones() == resized(o.ws(w).zones(), len_or_zero(spec_layout_len(layouts@, e as int)))
                    &&& self.ws(w).floating == o.ws(w).floating
                    &&& self.ws(w).last_focused == o.ws(w).last_focused
                    &&& self.ws(w).fullscreen == o.ws(w).fullscreen
                },
            decreases WORKSPACE_COUNT - i,
        {
            let ghost before = *self;
            let idx = self.workspaces[i].layout_idx;
            let effective = if layout_len_of(&self.layouts, idx).is_some() { idx } else { fallback };
            self.workspaces[i].layout_idx = effective;
            let zone_count = match layout_len_of(&self.layouts, effective) {
                Some(n) => n,
                None => 0,
            };
            resize_zones(&mut self.workspaces[i].zoned, zone_count);
            proof {
                assert(before.ws(i as int) == o.ws(i as int));
                assert(effective == effective_layout(layouts@, o.ws(i as int).layout_idx));
                assert(zone_count as nat == len_or_zero(spec_layout_len(layouts@, effective as int)));
                assert(self.ws(i as int).zones() =~= resized(before.ws(i as int).zones(), zone_count as nat));
                assert forall|w: int| 0 <= w < WORKSPACE_COUNT && w != i implies #[trigger] self.ws(w) == before.ws(w) by {}
            }
            i = i + 1;
        }
        let ghost pre = *self;
        self.reflow();
        assert forall|w: int| 0 <= w < WORKSPACE_COUNT implies #[trigger] self.ws(w) == pre.ws(w) by {}
    }

    /// Queues an uncloak call for every window of every workspace, workspace after
    /// workspace.
    pub fn uncloak_all(&mut self)
        ensures
            final(self).commands@ == old(self).commands@ + uncloak_calls(old(self).workspaces@, old(self).workspaces@.len() as int),
            *final(self) == old(self).with_commands(final(self).commands),
    {
        let mut w: usize = 0;
        while w < self.workspaces.len()
            invariant
                w <= self.workspaces@.len(),
                *self == old(self).with_commands(self.commands),
                self.commands@ == old(self).commands@ + uncloak_calls(old(self).workspaces@, w as int),
            decreases self.workspaces@.len() - w,
        {
            let hs = self.workspaces[w].all_windows();
            let ghost before = self.commands@;
            let mut i: usize = 0;
            while i < hs.len()
                invariant
                    i <= hs@.len(),
                    *self == old(self).with_commands(self.commands),
                    self.commands@ == before + cloak_calls(hs@.take(i as int), false),
                decreases hs@.len() - i,
            {
                self.commands.push(SysCall::Cloak(hs[i], false));
                assert(cloak_calls(hs@.take(i as int + 1), false) =~= cloak_calls(hs@.take(i as int), false).push(SysCall::Cloak(hs@[i as int], false)));
                i = i + 1;
            }
            assert(hs@.take(hs@.len() as int) =~= hs@);
            assert(self.commands@ =~= old(self).commands@ + uncloak_calls(old(self).workspaces@, w + 1));
            w = w + 1;
        }
    }
}

/// Uncloak calls for every window of the first `m` workspaces of `wss`, workspace after
/// workspace.
pub open spec fn uncloak_calls(wss: Seq<Workspace>, m: int) -> Seq<SysCall>
    decreases m,
{
    if m <= 0 {
        Seq::empty()
    } else {
        uncloak_calls(wss, m - 1) + cloak_calls(wss[m - 1].spec_all_windows(), false)
    }
}

/// Records for the windows of `hs`, at positions from the bottom.
pub open spec fn records_of(hs: Seq<Hwnd>, ws_idx: usize, state: WindowState) -> Seq<WindowRecord> {
    Seq::new(hs.len(), |k: int| WindowRecord { hwnd: hs[k], ws_idx, state, z_order: k as usize })
}

/// Records for the first `m` zones of `zs`, zone after zone.
pub open spec fn zone_records(zs: Seq<Seq<Hwnd>>, ws_idx: usize, m: int) -> Seq<WindowRecord>
    decreases m,
{
    if m <= 0 {
        Seq::empty()
    } else {
        zone_records(zs, ws_idx, m - 1) + records_of(zs[m - 1], ws_idx, WindowState::Zoned((m - 1) as usize))
    }
}

/// Records for the first `m` workspaces of `wss`: zoned windows zone after zone, then the
/// floating ones.
pub open spec fn all_records(wss: Seq<Workspace>, m: int) -> Seq<WindowRecord>
    decreases m,
{
    if m <= 0 {
        Seq::empty()
    } else {
        all_records(wss, m - 1) + zone_records(wss[m - 1].zones(), (m - 1) as usize, wss[m - 1].zones().len() as int)
            + records_of(wss[m - 1].floating@, (m - 1) as usize, WindowState::Floating)
    }
}

fn push_records(out: &mut Vec<WindowRecord>, hs: &Vec<Hwnd>, ws_idx: usize, state: WindowState)
    ensures
        final(out)@ == old(out)@ + records_of(hs@, ws_idx, state),
{
    let ghost start = out@;
    let mut k: usize = 0;
    while k < hs.len()
        invariant
            k <= hs@.len(),
            out@ == start + records_of(hs@.take(k as int), ws_idx, state),
        decreases hs@.len() - k,
    {
        out.push(WindowRecord { hwnd: hs[k], ws_idx, state, z_order: k });
        assert(records_of(hs@.take(k as int + 1), ws_idx, state) =~= records_of(hs@.take(k as int), ws_idx, state).push(
            WindowRecord { hwnd: hs@[k as int], ws_idx, state, z_order: k },
        ));
        k = k + 1;
    }
    assert(hs@.take(k as int) =~= hs@);
}

impl MonitorState {
    /// All tracked windows across every workspace, with placement metadata for display.
    pub fn all_window_records(&self) -> (r: Vec<WindowRecord>)
        ensures
            r@ == all_records(self.workspaces@, self.workspaces@.len() as int),
    {
        let mut records: Vec<WindowRecord> = Vec::new();
        let mut w: usize = 0;
        while w < self.workspaces.len()
            invariant
                w <= self.workspaces@.len(),
                records@ == all_records(self.workspaces@, w as int),
            decreases self.workspaces@.len() - w,
        {
            let ws = &self.workspaces[w];
            let ghost before = records@;
            let mut z: usize = 0;
            while z < ws.zoned.len()
                invariant
                    z <= ws.zoned@.len(),
                    records@ == before + zone_records(ws.zones(), w, z as int),
                decreases ws.zoned@.len() - z,
            {
                push_records(&mut records, &ws.zoned[z], w, WindowState::Zoned(z));
                z = z + 1;
            }
            push_records(&mut records, &ws.floating, w, WindowState::Floating);
            assert(records@ =~= all_records(self.workspaces@, w as int + 1));
            w = w + 1;
        }
        records
    }
}

} // verus!

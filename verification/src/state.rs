pub mod window_state;
pub mod workspace;
pub mod monitor_state;

use vstd::prelude::*;

use crate::config::SavedState;
use crate::models::monitor::Monitor;
use crate::config::settings::{DEFAULT_COLOR_FLOATING, DEFAULT_COLOR_ZONED};
use crate::models::system::{Hwnd, SysCall};
use crate::state::window_state::WindowState;
use crate::models::zone::Layout;
use crate::state::monitor_state::MonitorState;

verus! {

/// Index of an entry of `es` with key `k`, if any.
pub open spec fn key_index(es: Seq<(isize, MonitorState)>, k: isize) -> Option<int> {
    if exists|i: int| 0 <= i < es.len() && es[i].0 == k {
        Some(choose|i: int| 0 <= i < es.len() && es[i].0 == k)
    } else {
        None
    }
}

/// `es` with `ms` stored under `k`, replacing what was there.
pub open spec fn seq_insert(es: Seq<(isize, MonitorState)>, k: isize, ms: MonitorState) -> Seq<(isize, MonitorState)> {
    match key_index(es, k) {
        Some(i) => es.update(i, (k, ms)),
        None => es.push((k, ms)),
    }
}

/// The state of every monitor, keyed by monitor handle value.
pub struct StateMap {
    pub entries: Vec<(isize, MonitorState)>,
}

impl StateMap {
    /// Keys are distinct and every monitor state is well formed.
    pub open spec fn wf(self) -> bool {
        &&& forall|i: int, j: int| 0 <= i < j < self.entries@.len() ==> self.entries@[i].0 != self.entries@[j].0
        &&& forall|i: int| 0 <= i < self.entries@.len() ==> (#[trigger] self.entries@[i]).1.wf()
    }

    /// Index of the entry with key `k`, if any.
    pub open spec fn index_of_key(self, k: isize) -> Option<int> {
        key_index(self.entries@, k)
    }

    pub fn new() -> (m: Self)
        ensures
            m.wf(),
            m.entries@.len() == 0,
    {
        StateMap { entries: Vec::new() }
    }

    pub fn len(&self) -> (n: usize)
        ensures
            n == self.entries@.len(),
    {
        self.entries.len()
    }

    /// Index of the entry with key `k`.
    pub fn find(&self, k: isize) -> (r: Option<usize>)
        requires
            self.wf(),
        ensures
            match r {
                Some(i) => i < self.entries@.len() && self.entries@[i as int].0 == k && self.index_of_key(k) == Some(i as int),
                None => self.index_of_key(k) is None,
            },
    {
        let mut i: usize = 0;
        while i < self.entries.len()
            invariant
                i <= self.entries@.len(),
                self.wf(),
                forall|j: int| 0 <= j < i ==> self.entries@[j].0 != k,
            decreases self.entries@.len() - i,
        {
            if self.entries[i].0 == k {
                proof {
                    let c = choose|c: int| 0 <= c < self.entries@.len() && self.entries@[c].0 == k;
                    if c < i {
                        assert(self.entries@[c].0 != k);
                    } else if c > i {
                        assert(self.entries@[i as int].0 != self.entries@[c].0);
                    }
                }
                return Some(i);
            }
            i = i + 1;
        }
        None
    }

    /// The state kept under key `k`.
    pub fn get(&self, k: isize) -> (r: Option<&MonitorState>)
        requires
            self.wf(),
        ensures
            match r {
                Some(ms) => self.index_of_key(k) matches Some(i) && *ms == self.entries@[i].1,
                None => self.index_of_key(k) is None,
            },
    {
        match self.find(k) {
            Some(i) => Some(&self.entries[i].1),
            None => None,
        }
    }

    /// Stores `ms` under `k`, replacing what was there.
    pub fn insert(&mut self, k: isize, ms: MonitorState)
        requires
            old(self).wf(),
            ms.wf(),
        ensures
            final(self).wf(),
            final(self).entries@ == seq_insert(old(self).entries@, k, ms),
    {
        match self.find(k) {
            Some(i) => {
                self.entries.set(i, (k, ms));
            },
            None => {
                self.entries.push((k, ms));
            },
        }
    }

    /// Takes out the state kept under `k`.
    pub fn remove(&mut self, k: isize) -> (r: Option<MonitorState>)
        requires
            old(self).wf(),
        ensures
            final(self).wf(),
            match old(self).index_of_key(k) {
                Some(i) => r == Some(old(self).entries@[i].1) && final(self).entries@ == old(self).entries@.remove(i),
                None => r is None && final(self).entries@ == old(self).entries@,
            },
    {
        match self.find(k) {
            Some(i) => {
                let (_, ms) = self.entries.remove(i);
                Some(ms)
            },
            None => None,
        }
    }
}


/// `ms` with its monitor lock flipped.
pub open spec fn lock_flipped(ms: MonitorState) -> MonitorState {
    MonitorState { monitor_locked: !ms.monitor_locked, ..ms }
}

/// `new` is `old` with the monitor lock of every entry flipped.
pub open spec fn locks_toggled(old: Seq<(isize, MonitorState)>, new: Seq<(isize, MonitorState)>) -> bool {
    &&& new.len() == old.len()
    &&& forall|i: int| 0 <= i < old.len() ==> #[trigger] new[i] == (old[i].0, lock_flipped(old[i].1))
}

impl StateMap {
    /// Flips the monitor lock of every monitor.
    pub fn toggle_monitor_lock(&mut self)
        requires
            old(self).wf(),
        ensures
            final(self).wf(),
            locks_toggled(old(self).entries@, final(self).entries@),
    {
        let mut i: usize = 0;
        while i < self.entries.len()
            invariant
                i <= self.entries@.len(),
                self.entries@.len() == old(self).entries@.len(),
                forall|k: int| 0 <= k < i ==> #[trigger] self.entries@[k] == (old(self).entries@[k].0, lock_flipped(old(self).entries@[k].1)),
                forall|k: int| i <= k < self.entries@.len() ==> #[trigger] self.entries@[k] == old(self).entries@[k],
                old(self).wf(),
            decreases self.entries@.len() - i,
        {
            let locked = self.entries[i].1.monitor_locked;
            self.entries[i].1.monitor_locked = !locked;
            i = i + 1;
        }
        assert forall|a: int, b: int| 0 <= a < b < self.entries@.len() implies self.entries@[a].0 != self.entries@[b].0 by {
            assert(self.entries@[a].0 == old(self).entries@[a].0);
            assert(self.entries@[b].0 == old(self).entries@[b].0);
        }
        assert forall|k: int| 0 <= k < self.entries@.len() implies (#[trigger] self.entries@[k]).1.wf() by {
            assert(old(self).entries@[k].1.wf());
        }
    }
}

/// Toggling the monitor lock twice gives back the states as they were.
pub proof fn lemma_toggle_lock_twice(a: Seq<(isize, MonitorState)>, b: Seq<(isize, MonitorState)>, c: Seq<(isize, MonitorState)>)
    requires
        locks_toggled(a, b),
        locks_toggled(b, c),
    ensures
        c == a,
{
    assert forall|i: int| 0 <= i < a.len() implies #[trigger] c[i] == a[i] by {
        assert(b[i] == (a[i].0, lock_flipped(a[i].1)));
        assert(c[i] == (b[i].0, lock_flipped(b[i].1)));
    }
    assert(c =~= a);
}

/// The border colour for the focused window `focused` on the monitor keyed `mon_key`
/// (floating or zoned), and the previously focused window, whose border is cleared, when
/// the focus moved; nothing when no monitor has that key.
pub fn focus_border_style(states: &StateMap, mon_key: isize, focused: Hwnd, prev_focused: Hwnd) -> (r: Option<(u32, Option<Hwnd>)>)
    requires
        states.wf(),
    ensures
        match key_index(states.entries@, mon_key) {
            None => r is None,
            Some(i) => r == Some((
                if states.entries@[i].1.spec_window_state(focused) is Floating {
                    DEFAULT_COLOR_FLOATING
                } else {
                    DEFAULT_COLOR_ZONED
                },
                if prev_focused != focused {
                    Some(prev_focused)
                } else {
                    None
                },
            )),
        },
{
    let ms = match states.get(mon_key) {
        Some(ms) => ms,
        None => return None,
    };
    let color = match ms.window_state(focused) {
        WindowState::Floating => DEFAULT_COLOR_FLOATING,
        _ => DEFAULT_COLOR_ZONED,
    };
    let clear = if prev_focused != focused {
        Some(prev_focused)
    } else {
        None
    };
    Some((color, clear))
}

/// The entry whose monitor has device id `dev` that comes first.
pub open spec fn first_with_device(es: Seq<(isize, MonitorState)>, dev: Seq<char>) -> Option<int> {
    if exists|i: int| 0 <= i < es.len() && es[i].1.monitor.device_id@ == dev {
        Some(choose|i: int|
            0 <= i < es.len() && es[i].1.monitor.device_id@ == dev && forall|k: int|
                0 <= k < i ==> (#[trigger] es[k]).1.monitor.device_id@ != dev)
    } else {
        None
    }
}

/// `es2` is `es` once monitor `m` (whose layouts are `layouts`) is taken into account: a
/// monitor already known by its device id keeps its windows, moves to `m`'s handle and
/// work area and is snapped again; an unknown one starts afresh, on its saved layout slot
/// if there is one.
pub open spec fn reconcile_step(
    es: Seq<(isize, MonitorState)>,
    m: Monitor,
    layouts: Vec<Option<Layout>>,
    saved: SavedState,
    es2: Seq<(isize, MonitorState)>,
) -> bool {
    match first_with_device(es, m.device_id@) {
        Some(i) => exists|ms2: MonitorState| {
            &&& (MonitorState { monitor: m, layouts: layouts, ..es[i].1 }).reflowed_to(ms2)
            &&& es2 == #[trigger] seq_insert(es.remove(i), m.handle.0, ms2)
        },
        None => exists|base: MonitorState, ms2: MonitorState|
            #![trigger base.is_initial(m, layouts), seq_insert(es, m.handle.0, ms2)]
            {
            &&& base.is_initial(m, layouts)
            &&& match saved.spec_layout_for(m.device_id@) {
                None => ms2 == base,
                Some(idx) => base.switched_layout(idx, ms2),
            }
            &&& es2 == seq_insert(es, m.handle.0, ms2)
        },
    }
}

/// Monitor `m` is known by `es`, with the same device id, handle and work area.
pub open spec fn known(es: Seq<(isize, MonitorState)>, m: Monitor) -> bool {
    exists|i: int| 0 <= i < es.len() && same_monitor((#[trigger] es[i]).1.monitor, m)
}

pub open spec fn same_monitor(a: Monitor, b: Monitor) -> bool {
    a.device_id@ == b.device_id@ && a.handle == b.handle && a.work_area == b.work_area
}

/// Every monitor of `ms` is already known, by device id, handle and work area.
pub open spec fn nothing_changed(es: Seq<(isize, MonitorState)>, ms: Seq<(Monitor, Vec<Option<Layout>>)>) -> bool {
    forall|j: int| 0 <= j < ms.len() ==> #[trigger] known(es, ms[j].0)
}

/// Entry `e` holds the fresh state of the last of the first `n` listings of `ms` under
/// its key.
pub open spec fn from_last_listing(e: (isize, MonitorState), ms: Seq<(Monitor, Vec<Option<Layout>>)>, n: int) -> bool {
    exists|j: int| {
        &&& 0 <= j < n
        &&& e.0 == (#[trigger] ms[j]).0.handle.0
        &&& e.1.is_initial(ms[j].0, ms[j].1)
        &&& forall|k: int| j < k < n ==> (#[trigger] ms[k]).0.handle.0 != e.0
    }
}

/// One monitor state per monitor, keyed by handle value; a monitor listed twice under
/// one handle leaves the state of its last listing.
pub fn build(monitors: Vec<(Monitor, Vec<Option<Layout>>)>) -> (m: StateMap)
    ensures
        m.wf(),
        forall|j: int| 0 <= j < monitors@.len() ==> key_index(m.entries@, (#[trigger] monitors@[j]).0.handle.0) is Some,
        forall|i: int| 0 <= i < m.entries@.len() ==> from_last_listing(#[trigger] m.entries@[i], monitors@, monitors@.len() as int),
{
    let ghost orig = monitors@;
    let total = monitors.len();
    let mut rest = monitors;
    let mut m = StateMap::new();
    let mut n: usize = 0;
    while rest.len() > 0
        invariant
            n <= orig.len(),
            orig.len() == total,
            rest@ == orig.skip(n as int),
            m.wf(),
            forall|j: int| 0 <= j < n ==> key_index(m.entries@, (#[trigger] orig[j]).0.handle.0) is Some,
            forall|i: int| 0 <= i < m.entries@.len() ==> from_last_listing(#[trigger] m.entries@[i], orig, n as int),
        decreases rest@.len(),
    {
        assert(n < orig.len());
        let (mon, lays) = rest.remove(0);
        assert(orig[n as int] == (mon, lays));
        assert(rest@ =~= orig.skip(n as int + 1));
        let key = mon.handle.0;
        let ms = MonitorState::new(mon, lays);
        let ghost before = m.entries@;
        m.insert(key, ms);
        proof {
            assert forall|j: int| 0 <= j < n + 1 implies key_index(m.entries@, (#[trigger] orig[j]).0.handle.0) is Some by {
                let kj = orig[j].0.handle.0;
                if j < n {
                    let i = key_index(before, kj)->0;
                    assert(before[i].0 == kj);
                    if m.entries@.len() > before.len() {
                        assert(m.entries@[i].0 == kj);
                    } else {
                        assert(m.entries@[i].0 == kj);
                    }
                } else {
                    let i = if key_index(before, key) is Some { key_index(before, key)->0 } else { before.len() as int };
                    assert(m.entries@[i].0 == kj);
                }
            }
            assert forall|i: int| 0 <= i < m.entries@.len() implies from_last_listing(#[trigger] m.entries@[i], orig, n + 1) by {
                if m.entries@[i].0 == key {
                    assert(m.entries@[i].1 == ms);
                    assert(orig[n as int].0.handle.0 == key);
                } else {
                    assert(m.entries@[i] == before[i]);
                    assert(from_last_listing(before[i], orig, n as int));
                    let j = choose|j: int| {
                        &&& 0 <= j < n
                        &&& before[i].0 == (#[trigger] orig[j]).0.handle.0
                        &&& before[i].1.is_initial(orig[j].0, orig[j].1)
                        &&& forall|k: int| j < k < n ==> (#[trigger] orig[k]).0.handle.0 != before[i].0
                    };
                    assert(orig[n as int].0.handle.0 != m.entries@[i].0);
                    assert(forall|k: int| j < k < n + 1 ==> (#[trigger] orig[k]).0.handle.0 != m.entries@[i].0);
                }
            }
        }
        n = n + 1;
    }
    assert(n == orig.len());
    m
}

impl StateMap {
    fn position_of_device(&self, dev: &String) -> (r: Option<usize>)
        ensures
            match r {
                Some(i) => first_with_device(self.entries@, dev@) == Some(i as int) && i < self.entries@.len(),
                None => first_with_device(self.entries@, dev@) is None,
            },
    {
        let mut i: usize = 0;
        while i < self.entries.len()
            invariant
                i <= self.entries@.len(),
                forall|k: int| 0 <= k < i ==> (#[trigger] self.entries@[k]).1.monitor.device_id@ != dev@,
            decreases self.entries@.len() - i,
        {
            if self.entries[i].1.monitor.device_id == *dev {
                proof {
                    let es = self.entries@;
                    let c = choose|c: int|
                        0 <= c < es.len() && es[c].1.monitor.device_id@ == dev@ && forall|k: int|
                            0 <= k < c ==> (#[trigger] es[k]).1.monitor.device_id@ != dev@;
                    assert(0 <= i < es.len() && es[i as int].1.monitor.device_id@ == dev@ && forall|k: int|
                        0 <= k < i ==> (#[trigger] es[k]).1.monitor.device_id@ != dev@);
                    if c < i {
                        assert(es[c].1.monitor.device_id@ != dev@);
                    } else if c > i {
                        assert(es[i as int].1.monitor.device_id@ != dev@);
                    }
                }
                return Some(i);
            }
            i = i + 1;
        }
        None
    }

    fn unchanged(&self, monitors: &Vec<(Monitor, Vec<Option<Layout>>)>) -> (b: bool)
        ensures
            b == nothing_changed(self.entries@, monitors@),
    {
        let mut j: usize = 0;
        while j < monitors.len()
            invariant
                j <= monitors@.len(),
                forall|jj: int| 0 <= jj < j ==> #[trigger] known(self.entries@, monitors@[jj].0),
            decreases monitors@.len() - j,
        {
            let m = &monitors[j].0;
            let mut found = false;
            let mut i: usize = 0;
            while i < self.entries.len() && !found
                invariant
                    i <= self.entries@.len(),
                    *m == monitors@[j as int].0,
                    found ==> known(self.entries@, *m),
                    !found ==> forall|ii: int| 0 <= ii < i ==> !same_monitor((#[trigger] self.entries@[ii]).1.monitor, *m),
                decreases self.entries@.len() - i, if found { 0int } else { 1int },
            {
                let e = &self.entries[i].1.monitor;
                if e.device_id == m.device_id && e.handle == m.handle && e.work_area == m.work_area {
                    assert(same_monitor(self.entries@[i as int].1.monitor, *m));
                    found = true;
                } else {
                    i = i + 1;
                }
            }
            if !found {
                assert(!known(self.entries@, *m)) by {
                    if known(self.entries@, *m) {
                        let ii = choose|ii: int| 0 <= ii < self.entries@.len() && same_monitor((#[trigger] self.entries@[ii]).1.monitor, *m);
                        assert(!same_monitor(self.entries@[ii].1.monitor, *m));
                    }
                }
                assert(!nothing_changed(self.entries@, monitors@)) by {
                    assert(monitors@[j as int].0 == *m);
                    assert(!known(self.entries@, monitors@[j as int].0));
                }
                return false;
            }
            assert(monitors@[j as int].0 == *m);
            j = j + 1;
        }
        true
    }

    fn reconcile_one(&mut self, m: Monitor, layouts: Vec<Option<Layout>>, saved: &SavedState)
        requires
            old(self).wf(),
        ensures
            final(self).wf(),
            reconcile_step(old(self).entries@, m, layouts, *saved, final(self).entries@),
    {
        let ghost es = self.entries@;
        let ghost m0 = m;
        let ghost l0 = layouts;
        match self.position_of_device(&m.device_id) {
            Some(i) => {
                let old_key = self.entries[i].0;
                proof {
                    let c = key_index(es, old_key)->0;
                    assert(es[i as int].0 == old_key);
                    if c != i {
                        assert(es[c].0 == old_key);
                    }
                }
                let mut ms = match self.remove(old_key) {
                    Some(ms) => ms,
                    None => return,
                };
                ms.monitor = m;
                ms.layouts = layouts;
                let ghost moved = ms;
                ms.reflow();
                let k = ms.monitor.handle.0;
                self.insert(k, ms);
                assert(seq_insert(es.remove(i as int), m0.handle.0, ms) == self.entries@);
            },
            None => {
                let mut ms = MonitorState::new(m, layouts);
                let ghost base = ms;
                let key = ms.monitor_key();
                match saved.layout_for(&key) {
                    Some(idx) => ms.switch_layout(idx),
                    None => {},
                }
                let k = ms.monitor.handle.0;
                self.insert(k, ms);
                assert(seq_insert(es, m0.handle.0, ms) == self.entries@);
            },
        }
    }
}

/// Brings the monitor states in line with the monitors now attached, each given with its
/// layouts placed on its work area. Nothing happens when every monitor is already known
/// with the same handle and work area; otherwise the monitors are taken into account one
/// after the other (see `reconcile_step`).
pub fn reconcile(
    states: &mut StateMap,
    monitors: Vec<(Monitor, Vec<Option<Layout>>)>,
    saved: &SavedState,
)
    requires
        old(states).wf(),
    ensures
        final(states).wf(),
        nothing_changed(old(states).entries@, monitors@) ==> final(states).entries@ == old(states).entries@,
        !nothing_changed(old(states).entries@, monitors@) ==> exists|steps: Seq<Seq<(isize, MonitorState)>>| {
            &&& steps.len() == monitors@.len() + 1
            &&& steps[0] == old(states).entries@
            &&& steps[monitors@.len() as int] == final(states).entries@
            &&& forall|i: int| 0 <= i < monitors@.len() ==> #[trigger] reconcile_step(steps[i], monitors@[i].0, monitors@[i].1, *saved, steps[i + 1])
        },
{
    if states.unchanged(&monitors) {
        return;
    }
    let ghost orig = monitors@;
    let total = monitors.len();
    let ghost mut steps: Seq<Seq<(isize, MonitorState)>> = seq![states.entries@];
    let mut rest = monitors;
    let mut n: usize = 0;
    while rest.len() > 0
        invariant
            n <= orig.len(),
            orig.len() == total,
            rest@ == orig.skip(n as int),
            states.wf(),
            steps.len() == n + 1,
            steps[0] == old(states).entries@,
            steps[n as int] == states.entries@,
            forall|i: int| 0 <= i < n ==> #[trigger] reconcile_step(steps[i], orig[i].0, orig[i].1, *saved, steps[i + 1]),
        decreases rest@.len(),
    {
        assert(n < orig.len());
        let (mon, lays) = rest.remove(0);
        assert(orig[n as int] == (mon, lays));
        assert(rest@ =~= orig.skip(n as int + 1));
        states.reconcile_one(mon, lays, saved);
        proof {
            steps = steps.push(states.entries@);
        }
        n = n + 1;
    }
    assert(orig.skip(n as int).len() == 0);
}

/// The system calls queued on the first `m` monitor entries of `es`, entry after entry.
pub open spec fn queued_calls(es: Seq<(isize, MonitorState)>, m: int) -> Seq<SysCall>
    decreases m,
{
    if m <= 0 {
        Seq::empty()
    } else {
        queued_calls(es, m - 1) + es[m - 1].1.commands@
    }
}

impl StateMap {
    /// Hands out the system calls queued on every monitor, monitor after monitor, and
    /// empties the queues; nothing else changes.
    pub fn take_commands(&mut self) -> (r: Vec<SysCall>)
        requires
            old(self).wf(),
        ensures
            final(self).wf(),
            r@ == queued_calls(old(self).entries@, old(self).entries@.len() as int),
            final(self).entries@.len() == old(self).entries@.len(),
            forall|i: int| 0 <= i < old(self).entries@.len() ==> {
                &&& (#[trigger] final(self).entries@[i]).0 == old(self).entries@[i].0
                &&& final(self).entries@[i].1 == old(self).entries@[i].1.with_commands(final(self).entries@[i].1.commands)
                &&& final(self).entries@[i].1.commands@ == Seq::<SysCall>::empty()
            },
    {
        let mut out: Vec<SysCall> = Vec::new();
        let mut i: usize = 0;
        while i < self.entries.len()
            invariant
                i <= self.entries@.len(),
                self.entries@.len() == old(self).entries@.len(),
                old(self).wf(),
                out@ == queued_calls(old(self).entries@, i as int),
                forall|k: int| 0 <= k < i ==> {
                    &&& (#[trigger] self.entries@[k]).0 == old(self).entries@[k].0
                    &&& self.entries@[k].1 == old(self).entries@[k].1.with_commands(self.entries@[k].1.commands)
                    &&& self.entries@[k].1.commands@ == Seq::<SysCall>::empty()
                },
                forall|k: int| i <= k < self.entries@.len() ==> #[trigger] self.entries@[k] == old(self).entries@[k],
            decreases self.entries@.len() - i,
        {
            let mut c = self.entries[i].1.take_commands();
            out.append(&mut c);
            i = i + 1;
        }
        assert forall|a: int, b: int| 0 <= a < b < self.entries@.len() implies self.entries@[a].0 != self.entries@[b].0 by {
            assert(old(self).entries@[a].0 != old(self).entries@[b].0);
        }
        assert forall|k: int| 0 <= k < self.entries@.len() implies (#[trigger] self.entries@[k]).1.wf() by {
            assert(old(self).entries@[k].1.wf());
        }
        out
    }
}

} // verus!

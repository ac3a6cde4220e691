use vstd::prelude::*;

use crate::models::system::Hwnd;

verus! {

broadcast use vstd::seq_lib::group_seq_properties;

pub const WORKSPACE_COUNT: usize = 9;

/// `s` with every occurrence of `h` taken out, order kept.
pub open spec fn without(s: Seq<Hwnd>, h: Hwnd) -> Seq<Hwnd> {
    s.filter(differs_from(h))
}

pub open spec fn differs_from(h: Hwnd) -> spec_fn(Hwnd) -> bool {
    |x: Hwnd| x != h
}

/// The windows of every zone, zone after zone.
pub open spec fn concat_all(zs: Seq<Seq<Hwnd>>) -> Seq<Hwnd>
    decreases zs.len(),
{
    if zs.len() == 0 {
        Seq::empty()
    } else {
        concat_all(zs.drop_last()) + zs.last()
    }
}

/// Index of the first zone that holds `h`, if any.
pub open spec fn zone_of(zs: Seq<Seq<Hwnd>>, h: Hwnd) -> Option<int> {
    if exists|i: int| 0 <= i < zs.len() && zs[i].contains(h) && forall|k: int|
        0 <= k < i ==> !(#[trigger] zs[k]).contains(h) {
        Some(
            choose|i: int|
                0 <= i < zs.len() && zs[i].contains(h) && forall|k: int|
                    0 <= k < i ==> !(#[trigger] zs[k]).contains(h),
        )
    } else {
        None
    }
}

pub proof fn lemma_zone_of_is(zs: Seq<Seq<Hwnd>>, h: Hwnd, i: int)
    requires
        0 <= i < zs.len(),
        zs[i].contains(h),
        forall|k: int| 0 <= k < i ==> !(#[trigger] zs[k]).contains(h),
    ensures
        zone_of(zs, h) == Some(i),
{
    let c = choose|c: int|
        0 <= c < zs.len() && zs[c].contains(h) && forall|k: int|
            0 <= k < c ==> !(#[trigger] zs[k]).contains(h);
    if c < i {
        assert(!zs[c].contains(h));
    } else if i < c {
        assert(!zs[i].contains(h));
    }
}

pub proof fn lemma_zone_of_none(zs: Seq<Seq<Hwnd>>, h: Hwnd)
    requires
        forall|k: int| 0 <= k < zs.len() ==> !(#[trigger] zs[k]).contains(h),
    ensures
        zone_of(zs, h) is None,
{
}

/// Index of the first occurrence of `h` in `s`, if any.
pub open spec fn first_pos(s: Seq<Hwnd>, h: Hwnd) -> Option<int> {
    if s.contains(h) {
        Some(choose|i: int| 0 <= i < s.len() && s[i] == h && forall|k: int| 0 <= k < i ==> s[k] != h)
    } else {
        None
    }
}

pub proof fn lemma_first_pos_is(s: Seq<Hwnd>, h: Hwnd, i: int)
    requires
        0 <= i < s.len(),
        s[i] == h,
        forall|k: int| 0 <= k < i ==> s[k] != h,
    ensures
        first_pos(s, h) == Some(i),
{
    assert(s.contains(h));
    let c = choose|c: int| 0 <= c < s.len() && s[c] == h && forall|k: int| 0 <= k < c ==> s[k] != h;
    if c < i {
        assert(s[c] != h);
    } else if i < c {
        assert(s[i] != h);
    }
}

/// Removes every occurrence of `h` from `v`, keeping the order of the rest.
pub fn remove_all(v: &mut Vec<Hwnd>, h: Hwnd)
    ensures
        final(v)@ == without(old(v)@, h),
{
    let ghost s = v@;
    let mut kept: Vec<Hwnd> = Vec::new();
    let mut i: usize = 0;
    while i < v.len()
        invariant
            v@ == s,
            i <= s.len(),
            kept@ == without(s.take(i as int), h),
        decreases s.len() - i,
    {
        let x = v[i];
        assert(s.take(i as int + 1) =~= s.take(i as int).push(x));
        proof {
            s.take(i as int).lemma_filter_push(x, differs_from(h));
        }
        if x != h {
            kept.push(x);
        }
        i = i + 1;
    }
    assert(s.take(s.len() as int) =~= s);
    *v = kept;
}

pub fn vec_contains(v: &Vec<Hwnd>, h: Hwnd) -> (b: bool)
    ensures
        b == v@.contains(h),
{
    let mut i: usize = 0;
    while i < v.len()
        invariant
            i <= v@.len(),
            forall|k: int| 0 <= k < i ==> v@[k] != h,
        decreases v@.len() - i,
    {
        if v[i] == h {
            return true;
        }
        i = i + 1;
    }
    false
}

/// Index of the first occurrence of `h` in `v`.
pub fn vec_position(v: &Vec<Hwnd>, h: Hwnd) -> (r: Option<usize>)
    ensures
        match r {
            Some(i) => i < v@.len() && v@[i as int] == h && forall|k: int| 0 <= k < i ==> v@[k] != h,
            None => !v@.contains(h),
        },
{
    let mut i: usize = 0;
    while i < v.len()
        invariant
            i <= v@.len(),
            forall|k: int| 0 <= k < i ==> v@[k] != h,
        decreases v@.len() - i,
    {
        if v[i] == h {
            return Some(i);
        }
        i = i + 1;
    }
    None
}

#[derive(Clone, Copy, Debug, PartialEq, Eq, Structural)]
pub struct LastFocused {
    pub window: Option<Hwnd>,
    pub zone: Option<usize>,
}

impl Default for LastFocused {
    fn default() -> (r: Self)
        ensures
            r.window is None,
            r.zone is None,
    {
        LastFocused { window: None, zone: None }
    }
}

pub struct Workspace {
    pub layout_idx: usize,
    /// Zoned windows. Index = zone slot; inner Vec = Z-ordered windows
    /// (index 0 = bottom, last = top).
    pub zoned: Vec<Vec<Hwnd>>,
    /// Windows that belong to this workspace but aren't snapped to any zone.
    pub floating: Vec<Hwnd>,
    pub last_focused: LastFocused,
    /// Slot for fullscreen display.
    pub fullscreen: Option<Hwnd>,
}

impl Workspace {
    /// The windows of each zone, bottom to top.
    pub open spec fn zones(self) -> Seq<Seq<Hwnd>> {
        self.zoned@.map_values(|z: Vec<Hwnd>| z@)
    }

    /// Every window of the workspace: zone after zone, then the floating ones.
    pub open spec fn spec_all_windows(self) -> Seq<Hwnd> {
        concat_all(self.zones()) + self.floating@
    }

    pub fn new(zone_count: usize) -> (w: Self)
        ensures
            w.layout_idx == 0,
            w.zones() == Seq::new(zone_count as nat, |i: int| Seq::<Hwnd>::empty()),
            w.floating@ == Seq::<Hwnd>::empty(),
            w.last_focused.window is None,
            w.last_focused.zone is None,
            w.fullscreen is None,
    {
        let mut zoned: Vec<Vec<Hwnd>> = Vec::new();
        let mut i: usize = 0;
        while i < zone_count
            invariant
                i <= zone_count,
                zoned@.len() == i,
                forall|k: int| 0 <= k < i ==> (#[trigger] zoned@[k])@ == Seq::<Hwnd>::empty(),
            decreases zone_count - i,
        {
            zoned.push(Vec::new());
            i = i + 1;
        }
        let w = Workspace {
            layout_idx: 0,
            zoned,
            floating: Vec::new(),
            last_focused: LastFocused { window: None, zone: None },
            fullscreen: None,
        };
        assert(w.zones() =~= Seq::new(zone_count as nat, |i: int| Seq::<Hwnd>::empty()));
        w
    }

    pub fn all_windows(&self) -> (r: Vec<Hwnd>)
        ensures
            r@ == self.spec_all_windows(),
    {
        let mut out: Vec<Hwnd> = Vec::new();
        let mut i: usize = 0;
        while i < self.zoned.len()
            invariant
                i <= self.zoned@.len(),
                out@ == concat_all(self.zones().take(i as int)),
            decreases self.zoned@.len() - i,
        {
            assert(self.zones().take(i as int + 1).drop_last() =~= self.zones().take(i as int));
            let ghost before = out@;
            let mut j: usize = 0;
            while j < self.zoned[i].len()
                invariant
                    i < self.zoned@.len(),
                    j <= self.zoned@[i as int]@.len(),
                    out@ == before + self.zoned@[i as int]@.take(j as int),
                decreases self.zoned@[i as int]@.len() - j,
            {
                out.push(self.zoned[i][j]);
                assert(self.zoned@[i as int]@.take(j as int + 1) =~= self.zoned@[i as int]@.take(
                    j as int,
                ).push(self.zoned@[i as int]@[j as int]));
                j = j + 1;
            }
            assert(self.zoned@[i as int]@.take(j as int) =~= self.zoned@[i as int]@);
            assert(out@ =~= concat_all(self.zones().take(i as int + 1)));
            i = i + 1;
        }
        assert(self.zones().take(self.zoned@.len() as int) =~= self.zones());
        let mut k: usize = 0;
        let ghost mid = out@;
        while k < self.floating.len()
            invariant
                k <= self.floating@.len(),
                out@ == mid + self.floating@.take(k as int),
            decreases self.floating@.len() - k,
        {
            out.push(self.floating[k]);
            assert(self.floating@.take(k as int + 1) =~= self.floating@.take(k as int).push(
                self.floating@[k as int],
            ));
            k = k + 1;
        }
        assert(self.floating@.take(k as int) =~= self.floating@);
        out
    }

    /// Takes `hwnd` out of every zone and out of the floating list.
    pub fn remove(&mut self, hwnd: Hwnd)
        ensures
            final(self).zones() == old(self).zones().map_values(|z: Seq<Hwnd>| without(z, hwnd)),
            final(self).floating@ == without(old(self).floating@, hwnd),
            final(self).layout_idx == old(self).layout_idx,
            final(self).last_focused == old(self).last_focused,
            final(self).fullscreen == old(self).fullscreen,
    {
        let ghost z0 = self.zones();
        let mut i: usize = 0;
        while i < self.zoned.len()
            invariant
                i <= self.zoned@.len(),
                self.zoned@.len() == z0.len(),
                forall|k: int| 0 <= k < i ==> (#[trigger] self.zoned@[k])@ == without(z0[k], hwnd),
                forall|k: int| i <= k < z0.len() ==> (#[trigger] self.zoned@[k])@ == z0[k],
                self.layout_idx == old(self).layout_idx,
                self.last_focused == old(self).last_focused,
                self.fullscreen == old(self).fullscreen,
                self.floating == old(self).floating,
            decreases z0.len() - i,
        {
            remove_all(&mut self.zoned[i], hwnd);
            i = i + 1;
        }
        remove_all(&mut self.floating, hwnd);
        assert(self.zones() =~= z0.map_values(|z: Seq<Hwnd>| without(z, hwnd)));
    }

    pub fn get_zone_index(&self, hwnd: Hwnd) -> (r: Option<usize>)
        ensures
            match r {
                Some(i) => zone_of(self.zones(), hwnd) == Some(i as int),
                None => zone_of(self.zones(), hwnd) is None,
            },
    {
        let mut i: usize = 0;
        while i < self.zoned.len()
            invariant
                i <= self.zoned@.len(),
                forall|k: int| 0 <= k < i ==> !(#[trigger] self.zones()[k]).contains(hwnd),
            decreases self.zoned@.len() - i,
        {
            if vec_contains(&self.zoned[i], hwnd) {
                proof { lemma_zone_of_is(self.zones(), hwnd, i as int); }
                return Some(i);
            }
            i = i + 1;
        }
        proof { lemma_zone_of_none(self.zones(), hwnd); }
        None
    }
}

} // verus!

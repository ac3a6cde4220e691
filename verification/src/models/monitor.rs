use vstd::prelude::*;

use crate::models::system::Hmonitor;

verus! {

/// An axis-aligned rectangle in screen pixels; `right` and `bottom` are exclusive.
#[derive(Debug, Clone, Copy, PartialEq, Eq, Structural)]
pub struct Rect {
    pub left: i32,
    pub top: i32,
    pub right: i32,
    pub bottom: i32,
}

impl Rect {
    pub open spec fn spec_width(self) -> int {
        self.right - self.left
    }

    pub open spec fn spec_height(self) -> int {
        self.bottom - self.top
    }

    /// Both extents fit in an `i32`.
    pub open spec fn extents_fit(self) -> bool {
        i32::MIN <= self.spec_width() <= i32::MAX && i32::MIN <= self.spec_height() <= i32::MAX
    }

    pub fn width(self) -> (w: i32)
        requires
            i32::MIN <= self.spec_width() <= i32::MAX,
        ensures
            w == self.spec_width(),
    {
        self.right - self.left
    }

    pub fn height(self) -> (h: i32)
        requires
            i32::MIN <= self.spec_height() <= i32::MAX,
        ensures
            h == self.spec_height(),
    {
        self.bottom - self.top
    }
}

impl Default for Rect {
    fn default() -> (r: Self)
        ensures
            r == (Rect { left: 0, top: 0, right: 0, bottom: 0 }),
    {
        Rect { left: 0, top: 0, right: 0, bottom: 0 }
    }
}

/// A display monitor as enumerated by the system.
#[derive(Debug, Clone)]
pub struct Monitor {
    pub handle: Hmonitor,
    pub work_area: Rect,
    /// GDI adapter name (e.g. `\\.\DISPLAY1`). Reassigned by Windows across
    /// topology changes, so only useful for matching within one enumeration.
    pub device_name: String,
    /// EDID-derived hardware identity, stable across replugs/reboots. Falls
    /// back to `device_name` when no device interface is available (e.g.
    /// virtual/RDP displays).
    pub device_id: String,
}

/// What `String::from_utf16_lossy` makes of UTF-16 code units `units`: the text they
/// encode, with U+FFFD for each part that is not valid UTF-16.
pub uninterp spec fn utf16_lossy(units: Seq<u16>) -> Seq<char>;

/// Decodes UTF-16 code units as `String::from_utf16_lossy` (std) does. Its result is
/// taken to depend on the units alone, named `utf16_lossy`; nothing more is stated of
/// the decoding.
#[verifier::external_body]
fn from_utf16_lossy(units: &[u16]) -> (s: String)
    ensures
        s@ == utf16_lossy(units@),
{
    String::from_utf16_lossy(units)
}

/// How many code units of `wide` come before its first NUL (all of them without one).
pub open spec fn nul_position(wide: Seq<u16>) -> int {
    if exists|i: int| 0 <= i < wide.len() && wide[i] == 0 {
        choose|i: int| 0 <= i < wide.len() && wide[i] == 0 && forall|k: int| 0 <= k < i ==> wide[k] != 0
    } else {
        wide.len() as int
    }
}

/// The text of a NUL-terminated UTF-16 buffer: the code units before the first NUL,
/// decoded.
pub fn wide_to_string(wide: &[u16]) -> (s: String)
    ensures
        s@ == utf16_lossy(wide@.take(nul_position(wide@))),
{
    let mut end: usize = 0;
    while end < wide.len() && wide[end] != 0
        invariant
            end <= wide@.len(),
            forall|k: int| 0 <= k < end ==> wide@[k] != 0,
        decreases wide@.len() - end,
    {
        end = end + 1;
    }
    proof {
        if end < wide@.len() {
            let c = choose|c: int| 0 <= c < wide@.len() && wide@[c] == 0 && forall|k: int| 0 <= k < c ==> wide@[k] != 0;
            assert(0 <= end < wide@.len() && wide@[end as int] == 0 && forall|k: int| 0 <= k < end ==> wide@[k] != 0);
            if c < end {
                assert(wide@[c] != 0);
            } else if c > end {
                assert(wide@[end as int] != 0);
            }
        }
    }
    let part = vstd::slice::slice_subrange(wide, 0, end);
    assert(part@ == wide@.take(end as int));
    from_utf16_lossy(part)
}

} // verus!

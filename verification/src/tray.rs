//! The tray icon's picture.
use vstd::prelude::*;

verus! {

/// Width and height of the tray icon, in pixels.
pub const ICON_SIZE: u32 = 16;

/// The colour of every pixel of the tray icon, as red, green, blue, alpha.
pub open spec fn icon_pixel() -> Seq<u8> {
    seq![0x20u8, 0x80u8, 0xd0u8, 0xffu8]
}

/// The tray icon's pixels, row by row, four bytes (red, green, blue, alpha) each: one
/// solid colour.
pub fn icon_rgba() -> (v: Vec<u8>)
    ensures
        v@.len() == 4 * ICON_SIZE * ICON_SIZE,
        forall|i: int| 0 <= i < v@.len() ==> #[trigger] v@[i] == icon_pixel()[i % 4],
{
    let n: usize = (ICON_SIZE * ICON_SIZE) as usize;
    let mut v: Vec<u8> = Vec::new();
    let mut k: usize = 0;
    while k < n
        invariant
            n == ICON_SIZE * ICON_SIZE,
            k <= n,
            v@.len() == 4 * k,
            forall|i: int| 0 <= i < v@.len() ==> #[trigger] v@[i] == icon_pixel()[i % 4],
        decreases n - k,
    {
        v.push(0x20);
        v.push(0x80);
        v.push(0xd0);
        v.push(0xff);
        k = k + 1;
    }
    v
}

} // verus!

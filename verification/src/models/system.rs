use vstd::prelude::*;

use crate::models::monitor::Rect;

verus! {

/// Pixels left free on each side of a window snapped to a zone.
pub const SNAP_GAP: i32 = 2;

/// Identity of a top-level window, as the operating system hands it out.
#[derive(Debug, Clone, Copy, PartialEq, Eq, Hash, Structural)]
pub struct Hwnd(pub isize);

/// Identity of a display monitor, as the operating system hands it out.
#[derive(Debug, Clone, Copy, PartialEq, Eq, Hash, Structural)]
pub struct Hmonitor(pub isize);

/// Something the window manager asks the windowing system to do to a window. The library
/// queues these in order; the application carries them out.
#[derive(Debug, Clone, Copy, PartialEq, Eq, Structural)]
pub enum SysCall {
    /// Move and resize the window so that it fills the rect (less the snap gap).
    Snap(Hwnd, Rect),
    /// Put the window back at the size and place of the rect.
    Restore(Hwnd, Rect),
    /// Hide (`true`) or show (`false`) the window without minimising it.
    Cloak(Hwnd, bool),
    /// Raise the window to the top of the z-order without activating it.
    BringToFront(Hwnd),
}

/// What the window manager asks the windowing system. Nothing is promised about the
/// answers: they come from the live desktop (or from a test double).
pub trait WindowSystem {
    /// The manageable, visible, uncloaked windows on `hmon`.
    fn enumerate_on_monitor(&self, hmon: Hmonitor) -> Vec<Hwnd>;

    fn is_minimized(&self, hwnd: Hwnd) -> bool;

    /// The window's outer rect, if the system can tell it.
    fn window_rect(&self, hwnd: Hwnd) -> Option<Rect>;

    /// The window that currently has the keyboard focus.
    fn foreground_window(&self) -> Hwnd;
}

} // verus!

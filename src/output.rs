use vstd::prelude::*;

use crate::crtc::{rotated_size, Rotation};
use crate::error::{Time, Xid};

verus! {

/// A physical connector of the graphics hardware.
#[derive(Clone, Debug)]
pub struct Output {
    pub xid: Xid,
    pub timestamp: Time,
    pub is_primary: bool,
    /// The CRTC driving this output; 0 when there is none.
    pub crtc: Xid,
    pub name: String,
    pub mm_width: u64,
    pub mm_height: u64,
    pub connected: bool,
    pub crtcs: Vec<Xid>,
    pub clones: Vec<Xid>,
    pub modes: Vec<Xid>,
    /// Modes the display prefers, best first.
    pub preferred_modes: Vec<Xid>,
    /// The mode shown now; `None` when the output is disabled.
    pub current_mode: Option<Xid>,
}

/// A resolution the server can drive.
#[derive(Clone, Debug)]
pub struct Mode {
    pub xid: Xid,
    pub width: u32,
    pub height: u32,
    pub dot_clock: u64,
    pub flags: u64,
    pub name: String,
}

impl Mode {
    /// Width and height of this mode when shown in rotation `rot`.
    pub fn rot_size(&self, rot: Rotation) -> (r: (u32, u32))
        ensures
            r == rotated_size(self.width, self.height, Rotation::Normal, rot),
    {
        match rot {
            Rotation::Normal | Rotation::Inverted => (self.width, self.height),
            Rotation::Left | Rotation::Right => (self.height, self.width),
        }
    }
}

/// Where one output is placed against another.
#[derive(Copy, Clone, Debug, PartialEq, Eq, Structural)]
pub enum Relation {
    LeftOf,
    RightOf,
    Above,
    Below,
    SameAs,
}

/// A logical monitor as the server lists it.
#[derive(Clone, Debug)]
pub struct Monitor {
    pub name: String,
    pub is_primary: bool,
    pub is_automatic: bool,
    pub x: i32,
    pub y: i32,
    pub width_px: i32,
    pub height_px: i32,
    pub width_mm: i32,
    pub height_mm: i32,
    /// The physical outputs that make up this monitor.
    pub outputs: Vec<Output>,
}

} // verus!

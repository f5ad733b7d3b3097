//! Display-output layout logic for the X RandR extension: CRTC geometry,
//! coordinate normalization, screen-size derivation, the planners that turn
//! a request on one output into a new layout, and the ordered steps that
//! move the display server from one layout to another.

mod crtc;
mod error;
mod layout;
mod output;
mod plan;

pub use crate::crtc::{normalize_positions, Crtc, CrtcConfig, CrtcView, Rotation};
pub use crate::error::{Time, Xid, XrandrError};
pub use crate::layout::{apply_new_crtcs, new_screen_size, physical_size, LayoutStep, ScreenSize};
pub use crate::output::{Mode, Monitor, Output, Relation};
pub use crate::plan::{
    active_crtcs, plan_disable, plan_enable, plan_mode, plan_position, plan_rotation, LayoutChange,
};

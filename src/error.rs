use vstd::prelude::*;

verus! {

/// Server timestamp of a configuration change.
pub type Time = u64;

/// Identity of a server resource (CRTC, output, mode, atom).
pub type Xid = u64;

/// Failures of the layout operations.
#[derive(Debug, Clone)]
pub enum XrandrError {
    /// The connection to the display server could not be opened.
    Open,
    /// The monitor list could not be read.
    GetMonitors,
    /// No CRTC can drive the output that is being enabled.
    NoCrtcAvailable,
    /// The screen resources, or a CRTC among them, could not be found.
    GetResources,
    /// The named output has no current mode.
    OutputDisabled(String),
    /// The server reported a rotation outside the four known values.
    InvalidRotation(u16),
    /// The mode with this identity could not be read.
    GetMode(Xid),
    /// The CRTC with this identity could not be read.
    GetCrtc(Xid),
    /// The output with this identity could not be read.
    GetOutputInfo(Xid),
    /// No mode with this identity is known.
    GetModeInfo(Xid),
    /// The properties of the output with this identity could not be read.
    GetOutputProp(Xid),
    /// The name of this atom could not be read.
    GetAtomName(Xid),
    /// A planned layout has coordinates that are negative or do not fit
    /// the coordinate range.
    InvalidLayout,
}

} // verus!

use vstd::prelude::*;

use crate::error::{Time, Xid, XrandrError};

verus! {

/// Orientation of a CRTC's scan-out.
#[derive(Copy, Clone, Debug, PartialEq, Eq, Structural)]
pub enum Rotation {
    Normal,
    Left,
    Inverted,
    Right,
}

impl Rotation {
    /// The rotation that the server encodes as `bits`, if any.
    pub open spec fn from_bits_spec(bits: u16) -> Option<Rotation> {
        if bits == 1 {
            Some(Rotation::Normal)
        } else if bits == 2 {
            Some(Rotation::Left)
        } else if bits == 4 {
            Some(Rotation::Inverted)
        } else if bits == 8 {
            Some(Rotation::Right)
        } else {
            None
        }
    }

    /// The server's encoding of this rotation.
    pub open spec fn bits_spec(self) -> u16 {
        match self {
            Rotation::Normal => 1,
            Rotation::Left => 2,
            Rotation::Inverted => 4,
            Rotation::Right => 8,
        }
    }

    /// Left and Right turn the picture on its side.
    pub open spec fn is_portrait(self) -> bool {
        self == Rotation::Left || self == Rotation::Right
    }

    /// Decodes a rotation reported by the server.
    pub fn try_from(r: u16) -> (res: Result<Rotation, XrandrError>)
        ensures
            Rotation::from_bits_spec(r) matches Some(rot) ==> res == Ok::<Rotation, XrandrError>(rot),
            Rotation::from_bits_spec(r) is None ==> (res matches Err(XrandrError::InvalidRotation(b)) && b == r),
    {
        match r {
            1 => Ok(Rotation::Normal),
            2 => Ok(Rotation::Left),
            4 => Ok(Rotation::Inverted),
            8 => Ok(Rotation::Right),
            _ => Err(XrandrError::InvalidRotation(r)),
        }
    }

    /// Encodes this rotation for the server.
    pub fn bits(self) -> (r: u16)
        ensures
            r == self.bits_spec(),
            Rotation::from_bits_spec(r) == Some(self),
    {
        match self {
            Rotation::Normal => 1,
            Rotation::Left => 2,
            Rotation::Inverted => 4,
            Rotation::Right => 8,
        }
    }
}

/// Size `(w, h)` of a picture in rotation `from`, seen in rotation `to`:
/// width and height swap exactly when one rotation is portrait and the
/// other is not.
pub open spec fn rotated_size(w: u32, h: u32, from: Rotation, to: Rotation) -> (u32, u32) {
    if from.is_portrait() == to.is_portrait() {
        (w, h)
    } else {
        (h, w)
    }
}

/// Turning a picture to another rotation and back restores its size.
pub proof fn lemma_rotation_round_trip(w: u32, h: u32, from: Rotation, to: Rotation)
    ensures
        ({
            let (w1, h1) = rotated_size(w, h, from, to);
            rotated_size(w1, h1, to, from) == (w, h)
        }),
{
}

/// One hardware scan-out slot and the outputs it drives.
#[derive(Clone, Debug)]
pub struct Crtc {
    pub xid: Xid,
    pub timestamp: Time,
    pub x: i32,
    pub y: i32,
    pub width: u32,
    pub height: u32,
    pub mode: Xid,
    pub rotation: Rotation,
    pub outputs: Vec<Xid>,
    pub rotations: u16,
    pub possible: Vec<Xid>,
}

/// Mathematical value of a [`Crtc`].
pub struct CrtcView {
    pub xid: Xid,
    pub timestamp: Time,
    pub x: i32,
    pub y: i32,
    pub width: u32,
    pub height: u32,
    pub mode: Xid,
    pub rotation: Rotation,
    pub outputs: Seq<Xid>,
    pub rotations: u16,
    pub possible: Seq<Xid>,
}

impl CrtcView {
    /// The same CRTC moved to `(x, y)`.
    pub open spec fn placed_at(self, x: i32, y: i32) -> CrtcView {
        CrtcView { x, y, ..self }
    }

    /// Lower right corner of the rectangle the CRTC occupies.
    pub open spec fn max_x(self) -> int {
        self.x + self.width
    }

    pub open spec fn max_y(self) -> int {
        self.y + self.height
    }

    /// Top-left corner non-negative and occupied rectangle within the
    /// coordinate range of the server.
    pub open spec fn on_screen(self) -> bool {
        &&& self.x >= 0
        &&& self.y >= 0
        &&& self.max_x() <= i32::MAX
        &&& self.max_y() <= i32::MAX
    }

    /// Whether the CRTC drives a mode (a mode of 0 means disabled).
    pub open spec fn is_active(self) -> bool {
        self.mode != 0
    }
}

impl View for Crtc {
    type V = CrtcView;

    open spec fn view(&self) -> CrtcView {
        CrtcView {
            xid: self.xid,
            timestamp: self.timestamp,
            x: self.x,
            y: self.y,
            width: self.width,
            height: self.height,
            mode: self.mode,
            rotation: self.rotation,
            outputs: self.outputs@,
            rotations: self.rotations,
            possible: self.possible@,
        }
    }
}

/// Views of a sequence of CRTCs.
pub open spec fn views(s: Seq<Crtc>) -> Seq<CrtcView> {
    s.map_values(|c: Crtc| c@)
}

/// Arguments of the server's "set CRTC configuration" request.
#[derive(Clone, Debug)]
pub struct CrtcConfig {
    pub xid: Xid,
    pub x: i32,
    pub y: i32,
    pub mode: Xid,
    pub rotation: Rotation,
    pub outputs: Vec<Xid>,
}

fn copy_ids(v: &Vec<Xid>) -> (r: Vec<Xid>)
    ensures
        r@ == v@,
{
    let mut r: Vec<Xid> = Vec::new();
    let mut i: usize = 0;
    while i < v.len()
        invariant
            i <= v.len(),
            r@ == v@.subrange(0, i as int),
        decreases v.len() - i,
    {
        r.push(v[i]);
        i = i + 1;
        assert(r@ == v@.subrange(0, i as int));
    }
    assert(v@.subrange(0, v.len() as int) == v@);
    r
}

impl Crtc {
    /// Builds a CRTC from the fields the server reports for `xid`;
    /// `rotation` is the server's encoding. `None` stands for a CRTC the
    /// server could not describe.
    pub fn from_xid(
        xid: Xid,
        timestamp: Time,
        geometry: (i32, i32, u32, u32),
        mode: Xid,
        rotation: u16,
        outputs: Vec<Xid>,
        rotations: u16,
        possible: Vec<Xid>,
        found: bool,
    ) -> (r: Result<Crtc, XrandrError>)
        ensures
            !found ==> (r matches Err(XrandrError::GetCrtc(id)) && id == xid),
            found && Rotation::from_bits_spec(rotation) is None ==> (r matches Err(
                XrandrError::InvalidRotation(b),
            ) && b == rotation),
            found && Rotation::from_bits_spec(rotation) is Some ==> (r matches Ok(c) && c@
                == (CrtcView {
                xid,
                timestamp,
                x: geometry.0,
                y: geometry.1,
                width: geometry.2,
                height: geometry.3,
                mode,
                rotation: Rotation::from_bits_spec(rotation)->Some_0,
                outputs: outputs@,
                rotations,
                possible: possible@,
            })),
    {
        if !found {
            return Err(XrandrError::GetCrtc(xid));
        }
        let rotation = match Rotation::try_from(rotation) {
            Ok(rot) => rot,
            Err(e) => return Err(e),
        };
        Ok(Crtc {
            xid,
            timestamp,
            x: geometry.0,
            y: geometry.1,
            width: geometry.2,
            height: geometry.3,
            mode,
            rotation,
            outputs,
            rotations,
            possible,
        })
    }

    /// A copy whose view equals this one's.
    pub fn duplicate(&self) -> (r: Crtc)
        ensures
            r@ == self@,
    {
        Crtc {
            xid: self.xid,
            timestamp: self.timestamp,
            x: self.x,
            y: self.y,
            width: self.width,
            height: self.height,
            mode: self.mode,
            rotation: self.rotation,
            outputs: copy_ids(&self.outputs),
            rotations: self.rotations,
            possible: copy_ids(&self.possible),
        }
    }

    /// The request that puts this CRTC's position, mode, rotation and
    /// outputs into effect.
    pub fn apply(&self) -> (r: CrtcConfig)
        ensures
            r.xid == self.xid,
            r.x == self.x,
            r.y == self.y,
            r.mode == self.mode,
            r.rotation == self.rotation,
            r.outputs@ == self.outputs@,
    {
        CrtcConfig {
            xid: self.xid,
            x: self.x,
            y: self.y,
            mode: self.mode,
            rotation: self.rotation,
            outputs: copy_ids(&self.outputs),
        }
    }

    /// The request that switches this CRTC off: origin position, no mode,
    /// normal rotation and no outputs.
    pub fn disable(&self) -> (r: CrtcConfig)
        ensures
            r.xid == self.xid,
            r.x == 0,
            r.y == 0,
            r.mode == 0,
            r.rotation == Rotation::Normal,
            r.outputs@.len() == 0,
    {
        CrtcConfig {
            xid: self.xid,
            x: 0,
            y: 0,
            mode: 0,
            rotation: Rotation::Normal,
            outputs: Vec::new(),
        }
    }

    /// Width and height of this CRTC when shown in rotation `rot`.
    pub fn rot_size(&self, rot: Rotation) -> (r: (u32, u32))
        ensures
            r == rotated_size(self.width, self.height, self.rotation, rot),
    {
        let (w, h) = (self.width, self.height);
        let (old_w, old_h) = match self.rotation {
            Rotation::Normal | Rotation::Inverted => (w, h),
            Rotation::Left | Rotation::Right => (h, w),
        };
        match rot {
            Rotation::Normal | Rotation::Inverted => (old_w, old_h),
            Rotation::Left | Rotation::Right => (old_h, old_w),
        }
    }

    /// Lower right corner of the occupied rectangle.
    pub fn max_coordinates(&self) -> (r: (u32, u32))
        requires
            self@.x >= 0,
            self@.y >= 0,
            self@.max_x() <= u32::MAX,
            self@.max_y() <= u32::MAX,
        ensures
            r.0 == self@.max_x(),
            r.1 == self@.max_y(),
    {
        (self.x as u32 + self.width, self.y as u32 + self.height)
    }

    /// The same CRTC shifted by `offset`.
    pub fn offset(&self, offset: (i32, i32)) -> (r: Crtc)
        requires
            0 <= self.x + offset.0 < i32::MAX,
            0 <= self.y + offset.1 < i32::MAX,
        ensures
            r@ == self@.placed_at((self.x + offset.0) as i32, (self.y + offset.1) as i32),
    {
        let x = self.x as i64 + offset.0 as i64;
        let y = self.y as i64 + offset.1 as i64;
        let mut new = self.duplicate();
        new.x = x as i32;
        new.y = y as i32;
        new
    }
}

/// Smallest element of a non-empty sequence.
pub open spec fn seq_min(s: Seq<int>) -> int
    decreases s.len(),
{
    if s.len() <= 1 {
        if s.len() == 1 {
            s[0]
        } else {
            0
        }
    } else {
        let m = seq_min(s.drop_last());
        if s.last() < m {
            s.last()
        } else {
            m
        }
    }
}

/// The minimum is below every element and is one of them.
pub proof fn lemma_seq_min(s: Seq<int>)
    requires
        s.len() > 0,
    ensures
        forall|i: int| 0 <= i < s.len() ==> seq_min(s) <= s[i],
        exists|i: int| 0 <= i < s.len() && s[i] == seq_min(s),
    decreases s.len(),
{
    if s.len() > 1 {
        lemma_seq_min(s.drop_last());
        let m = seq_min(s.drop_last());
        let k = choose|i: int| 0 <= i < s.drop_last().len() && s.drop_last()[i] == m;
        assert(s[k] == m);
        if s.last() < m {
            assert(s[s.len() - 1] == seq_min(s));
        }
        assert forall|i: int| 0 <= i < s.len() implies seq_min(s) <= s[i] by {
            if i < s.len() - 1 {
                assert(s[i] == s.drop_last()[i]);
            }
        }
    } else {
        assert(s[0] == seq_min(s));
    }
}

/// A lower bound that some element reaches is the minimum.
pub proof fn lemma_seq_min_is(s: Seq<int>, m: int, k: int)
    requires
        0 <= k < s.len(),
        s[k] == m,
        forall|i: int| 0 <= i < s.len() ==> m <= s[i],
    ensures
        seq_min(s) == m,
{
    lemma_seq_min(s);
}

/// Horizontal positions of a layout.
pub open spec fn xs(s: Seq<CrtcView>) -> Seq<int> {
    s.map_values(|c: CrtcView| c.x as int)
}

/// Vertical positions of a layout.
pub open spec fn ys(s: Seq<CrtcView>) -> Seq<int> {
    s.map_values(|c: CrtcView| c.y as int)
}

/// Every shift that normalization makes stays below `i32::MAX`.
pub open spec fn normalizable(s: Seq<CrtcView>) -> bool {
    &&& s.len() > 0
    &&& forall|i: int, j: int|
        0 <= i < s.len() && 0 <= j < s.len() ==> s[i].x - s[j].x < i32::MAX && s[i].y - s[j].y
            < i32::MAX
}

/// The layout moved so that its leftmost and topmost edges lie at 0.
pub open spec fn normalized(s: Seq<CrtcView>) -> Seq<CrtcView> {
    let left = seq_min(xs(s));
    let top = seq_min(ys(s));
    s.map_values(|c: CrtcView| c.placed_at((c.x - left) as i32, (c.y - top) as i32))
}

/// After normalization every CRTC has non-negative coordinates, and both
/// the leftmost and the topmost edge of the layout lie at 0.
pub proof fn lemma_normalized_at_origin(s: Seq<CrtcView>)
    requires
        normalizable(s),
    ensures
        forall|i: int|
            0 <= i < s.len() ==> #[trigger] normalized(s)[i].x >= 0 && normalized(s)[i].y >= 0,
        exists|i: int| 0 <= i < s.len() && #[trigger] normalized(s)[i].x == 0,
        exists|i: int| 0 <= i < s.len() && #[trigger] normalized(s)[i].y == 0,
{
    lemma_seq_min(xs(s));
    lemma_seq_min(ys(s));
    let kx = choose|k: int| 0 <= k < s.len() && xs(s)[k] == seq_min(xs(s));
    let ky = choose|k: int| 0 <= k < s.len() && ys(s)[k] == seq_min(ys(s));
    assert(normalized(s)[kx].x == 0);
    assert(normalized(s)[ky].y == 0);
    assert forall|i: int| 0 <= i < s.len() implies #[trigger] normalized(s)[i].x >= 0
        && normalized(s)[i].y >= 0 by {
        assert(xs(s)[i] >= seq_min(xs(s)));
        assert(ys(s)[i] >= seq_min(ys(s)));
        assert(s[i].x - s[kx].x < i32::MAX);
        assert(s[i].y - s[ky].y < i32::MAX);
    }
}

/// Normalizing a normalized layout changes nothing.
pub proof fn lemma_normalize_idempotent(s: Seq<CrtcView>)
    requires
        normalizable(s),
    ensures
        normalizable(normalized(s)),
        normalized(normalized(s)) == normalized(s),
{
    let n = normalized(s);
    lemma_normalized_at_origin(s);
    lemma_seq_min(xs(s));
    lemma_seq_min(ys(s));
    let kx = choose|k: int| 0 <= k < s.len() && xs(s)[k] == seq_min(xs(s));
    let ky = choose|k: int| 0 <= k < s.len() && ys(s)[k] == seq_min(ys(s));
    assert forall|i: int| 0 <= i < s.len() implies n[i].x == s[i].x - seq_min(xs(s)) && n[i].y
        == s[i].y - seq_min(ys(s)) by {
        assert(xs(s)[i] >= seq_min(xs(s)));
        assert(ys(s)[i] >= seq_min(ys(s)));
        assert(s[i].x - s[kx].x < i32::MAX);
        assert(s[i].y - s[ky].y < i32::MAX);
    }
    assert forall|i: int| 0 <= i < n.len() implies 0 <= #[trigger] xs(n)[i] && 0 <= ys(n)[i] by {
        assert(n[i].x >= 0 && n[i].y >= 0);
    }
    assert(xs(n)[kx] == 0);
    assert(ys(n)[ky] == 0);
    lemma_seq_min_is(xs(n), 0, kx);
    lemma_seq_min_is(ys(n), 0, ky);
    assert(normalized(n) =~= n);
}

/// Moves the CRTCs together so that the top left pixel of the layout is
/// at (0, 0).
pub fn normalize_positions(crtcs: &[Crtc]) -> (r: Vec<Crtc>)
    requires
        normalizable(views(crtcs@)),
    ensures
        views(r@) == normalized(views(crtcs@)),
{
    let ghost s = views(crtcs@);
    let mut left: i32 = crtcs[0].x;
    let mut top: i32 = crtcs[0].y;
    let mut i: usize = 1;
    proof {
        assert(xs(s).subrange(0, 1) =~= seq![s[0].x as int]);
        assert(ys(s).subrange(0, 1) =~= seq![s[0].y as int]);
    }
    while i < crtcs.len()
        invariant
            s == views(crtcs@),
            1 <= i <= crtcs.len(),
            left == seq_min(xs(s).subrange(0, i as int)),
            top == seq_min(ys(s).subrange(0, i as int)),
        decreases crtcs.len() - i,
    {
        let c = &crtcs[i];
        proof {
            assert(xs(s).subrange(0, i + 1).drop_last() =~= xs(s).subrange(0, i as int));
            assert(ys(s).subrange(0, i + 1).drop_last() =~= ys(s).subrange(0, i as int));
        }
        if c.x < left {
            left = c.x;
        }
        if c.y < top {
            top = c.y;
        }
        i = i + 1;
    }
    proof {
        assert(xs(s).subrange(0, crtcs.len() as int) =~= xs(s));
        assert(ys(s).subrange(0, crtcs.len() as int) =~= ys(s));
        lemma_seq_min(xs(s));
        lemma_seq_min(ys(s));
    }
    let mut r: Vec<Crtc> = Vec::new();
    let mut j: usize = 0;
    while j < crtcs.len()
        invariant
            s == views(crtcs@),
            normalizable(s),
            j <= crtcs.len(),
            left == seq_min(xs(s)),
            top == seq_min(ys(s)),
            exists|k: int| 0 <= k < s.len() && xs(s)[k] == left,
            exists|k: int| 0 <= k < s.len() && ys(s)[k] == top,
            forall|k: int| 0 <= k < s.len() ==> left <= #[trigger] xs(s)[k],
            forall|k: int| 0 <= k < s.len() ==> top <= #[trigger] ys(s)[k],
            views(r@) == normalized(s).subrange(0, j as int),
        decreases crtcs.len() - j,
    {
        proof {
            let kx = choose|k: int| 0 <= k < s.len() && xs(s)[k] == left;
            let ky = choose|k: int| 0 <= k < s.len() && ys(s)[k] == top;
            assert(xs(s)[j as int] >= left);
            assert(ys(s)[j as int] >= top);
            assert(s[j as int].x - s[kx].x < i32::MAX);
            assert(s[j as int].y - s[ky].y < i32::MAX);
        }
        let mut moved = crtcs[j].duplicate();
        moved.x = (crtcs[j].x as i64 - left as i64) as i32;
        moved.y = (crtcs[j].y as i64 - top as i64) as i32;
        assert(moved@ == normalized(s)[j as int]);
        let ghost prev = r@;
        r.push(moved);
        assert(views(r@) =~= views(prev).push(moved@));
        j = j + 1;
        assert(views(r@) =~= normalized(s).subrange(0, j as int));
    }
    assert(normalized(s).subrange(0, crtcs.len() as int) =~= normalized(s));
    r
}

} // verus!

use vstd::prelude::*;

use crate::crtc::{views, Crtc, CrtcView};
use crate::error::XrandrError;

verus! {

/// Pixel and physical dimensions of the virtual screen.
#[derive(Copy, Clone, Debug, PartialEq, Eq, Structural)]
pub struct ScreenSize {
    pub width: i32,
    pub width_mm: i32,
    pub height: i32,
    pub height_mm: i32,
}

/// One request to the display server, in the order a layout change must
/// issue them. Indices refer to the old and the new CRTC lists.
#[derive(Copy, Clone, Debug, PartialEq, Eq, Structural)]
pub enum LayoutStep {
    /// Switch off the old CRTC at this index.
    DisableOld(usize),
    /// Resize the virtual screen.
    SetScreenSize(ScreenSize),
    /// Put the new CRTC at this index into effect.
    ApplyNew(usize),
}

/// Right edge of the bounding box of a layout (0 for none).
pub open spec fn bound_w(s: Seq<CrtcView>) -> int
    decreases s.len(),
{
    if s.len() == 0 {
        0
    } else {
        let w = bound_w(s.drop_last());
        if s.last().max_x() > w {
            s.last().max_x()
        } else {
            w
        }
    }
}

/// Bottom edge of the bounding box of a layout (0 for none).
pub open spec fn bound_h(s: Seq<CrtcView>) -> int
    decreases s.len(),
{
    if s.len() == 0 {
        0
    } else {
        let h = bound_h(s.drop_last());
        if s.last().max_y() > h {
            s.last().max_y()
        } else {
            h
        }
    }
}

/// Every CRTC of the layout is [`CrtcView::on_screen`].
pub open spec fn all_on_screen(s: Seq<CrtcView>) -> bool {
    forall|i: int| 0 <= i < s.len() ==> #[trigger] s[i].on_screen()
}

/// Millimetres for `px` pixels at the density of a display `cur_px` pixels
/// and `cur_mm` millimetres high, rounded toward zero and capped at
/// `i32::MAX`; 0 when that display reports no size.
pub open spec fn mm_of(px: int, cur_px: i32, cur_mm: i32) -> int {
    if cur_px > 0 && cur_mm > 0 {
        let mm = px * cur_mm / (cur_px as int);
        if mm > i32::MAX {
            i32::MAX as int
        } else {
            mm
        }
    } else {
        0
    }
}

/// The screen that snugly holds a layout, at the current density.
pub open spec fn screen_size_of(s: Seq<CrtcView>, cur_px: i32, cur_mm: i32) -> ScreenSize {
    ScreenSize {
        width: bound_w(s) as i32,
        width_mm: mm_of(bound_w(s), cur_px, cur_mm) as i32,
        height: bound_h(s) as i32,
        height_mm: mm_of(bound_h(s), cur_px, cur_mm) as i32,
    }
}

proof fn lemma_bound_range(s: Seq<CrtcView>)
    requires
        all_on_screen(s),
    ensures
        0 <= bound_w(s) <= i32::MAX,
        0 <= bound_h(s) <= i32::MAX,
    decreases s.len(),
{
    if s.len() > 0 {
        assert(s.last().on_screen());
        assert(all_on_screen(s.drop_last())) by {
            assert forall|i: int| 0 <= i < s.drop_last().len() implies #[trigger] s.drop_last()[i].on_screen() by {
                assert(s[i].on_screen());
            }
        }
        lemma_bound_range(s.drop_last());
    }
}

/// Adding a CRTC to a layout never shrinks its bounding screen size.
pub proof fn lemma_bounding_size_monotone(s: Seq<CrtcView>, c: CrtcView)
    ensures
        bound_w(s.push(c)) >= bound_w(s),
        bound_h(s.push(c)) >= bound_h(s),
{
    assert(s.push(c).drop_last() == s);
}

/// Converts a pixel length to millimetres, keeping the density of the
/// display that is `cur_px_height` pixels and `cur_mm_height` millimetres
/// high.
pub fn physical_size(px: i32, cur_px_height: i32, cur_mm_height: i32) -> (r: i32)
    requires
        px >= 0,
    ensures
        r == mm_of(px as int, cur_px_height, cur_mm_height),
{
    if cur_px_height > 0 && cur_mm_height > 0 {
        assert(0 <= px as int * cur_mm_height as int <= i32::MAX as int * i32::MAX as int) by (nonlinear_arith)
            requires
                0 <= px <= i32::MAX,
                0 < cur_mm_height <= i32::MAX,
        ;
        let prod: i64 = px as i64 * cur_mm_height as i64;
        let mm = prod / cur_px_height as i64;
        if mm > i32::MAX as i64 {
            i32::MAX
        } else {
            mm as i32
        }
    } else {
        0
    }
}

/// The screen size that snugly fits a layout, with its physical size taken
/// at the density of the current display.
pub fn new_screen_size(crtcs: &[Crtc], cur_px_height: i32, cur_mm_height: i32) -> (r: ScreenSize)
    requires
        all_on_screen(views(crtcs@)),
    ensures
        r == screen_size_of(views(crtcs@), cur_px_height, cur_mm_height),
{
    let ghost s = views(crtcs@);
    let mut width: i32 = 0;
    let mut height: i32 = 0;
    let mut i: usize = 0;
    while i < crtcs.len()
        invariant
            s == views(crtcs@),
            all_on_screen(s),
            i <= crtcs.len(),
            width == bound_w(s.subrange(0, i as int)),
            height == bound_h(s.subrange(0, i as int)),
            0 <= width,
            0 <= height,
        decreases crtcs.len() - i,
    {
        assert(s[i as int].on_screen());
        assert(s.subrange(0, i + 1).drop_last() =~= s.subrange(0, i as int));
        let (mx, my) = crtcs[i].max_coordinates();
        if mx as i32 > width {
            width = mx as i32;
        }
        if my as i32 > height {
            height = my as i32;
        }
        i = i + 1;
    }
    assert(s.subrange(0, crtcs.len() as int) =~= s);
    ScreenSize {
        width,
        width_mm: physical_size(width, cur_px_height, cur_mm_height),
        height,
        height_mm: physical_size(height, cur_px_height, cur_mm_height),
    }
}

/// Whether an old CRTC reaches past a screen of `size`.
pub open spec fn exceeds(c: CrtcView, size: ScreenSize) -> bool {
    c.max_x() > size.width || c.max_y() > size.height
}

/// Disable steps for those of the first `n` old CRTCs that exceed `size`,
/// in list order.
pub open spec fn disable_steps(old: Seq<CrtcView>, size: ScreenSize, n: int) -> Seq<LayoutStep>
    decreases n,
{
    if n <= 0 {
        seq![]
    } else {
        let before = disable_steps(old, size, n - 1);
        if exceeds(old[n - 1], size) {
            before.push(LayoutStep::DisableOld((n - 1) as usize))
        } else {
            before
        }
    }
}

/// Apply steps for those of the first `n` new CRTCs that have a mode, in
/// list order.
pub open spec fn apply_steps(new: Seq<CrtcView>, n: int) -> Seq<LayoutStep>
    decreases n,
{
    if n <= 0 {
        seq![]
    } else {
        let before = apply_steps(new, n - 1);
        if new[n - 1].is_active() {
            before.push(LayoutStep::ApplyNew((n - 1) as usize))
        } else {
            before
        }
    }
}

/// Layouts the server can be moved between: a non-empty new layout, and
/// both layouts inside the coordinate range with non-negative positions.
pub open spec fn layout_ok(old: Seq<CrtcView>, new: Seq<CrtcView>) -> bool {
    &&& new.len() > 0
    &&& all_on_screen(old)
    &&& all_on_screen(new)
}

/// The full sequence of requests that moves the server from `old` to `new`.
pub open spec fn layout_steps(old: Seq<CrtcView>, new: Seq<CrtcView>, cur_px: i32, cur_mm: i32) -> Seq<
    LayoutStep,
> {
    let size = screen_size_of(new, cur_px, cur_mm);
    disable_steps(old, size, old.len() as int) + seq![LayoutStep::SetScreenSize(size)]
        + apply_steps(new, new.len() as int)
}

/// Plans the change from the layout `old_crtcs` to `new_crtcs`: old CRTCs
/// that would fall outside the new screen are disabled first, then the
/// screen is resized, then every new CRTC with a mode is applied.
pub fn apply_new_crtcs(
    old_crtcs: &[Crtc],
    new_crtcs: &[Crtc],
    cur_px_height: i32,
    cur_mm_height: i32,
) -> (r: Result<Vec<LayoutStep>, XrandrError>)
    ensures
        r is Ok <==> layout_ok(views(old_crtcs@), views(new_crtcs@)),
        r matches Ok(steps) ==> steps@ == layout_steps(
            views(old_crtcs@),
            views(new_crtcs@),
            cur_px_height,
            cur_mm_height,
        ),
        r matches Err(e) ==> e is InvalidLayout,
{
    if new_crtcs.len() == 0 || !check_on_screen(old_crtcs) || !check_on_screen(new_crtcs) {
        return Err(XrandrError::InvalidLayout);
    }
    let ghost old_v = views(old_crtcs@);
    let ghost new_v = views(new_crtcs@);
    let new_size = new_screen_size(new_crtcs, cur_px_height, cur_mm_height);
    let mut steps: Vec<LayoutStep> = Vec::new();
    let mut i: usize = 0;
    while i < old_crtcs.len()
        invariant
            old_v == views(old_crtcs@),
            all_on_screen(old_v),
            i <= old_crtcs.len(),
            steps@ == disable_steps(old_v, new_size, i as int),
        decreases old_crtcs.len() - i,
    {
        assert(old_v[i as int].on_screen());
        let (max_x, max_y) = old_crtcs[i].max_coordinates();
        if max_x as i64 > new_size.width as i64 || max_y as i64 > new_size.height as i64 {
            steps.push(LayoutStep::DisableOld(i));
        }
        i = i + 1;
    }
    let ghost disabled = steps@;
    steps.push(LayoutStep::SetScreenSize(new_size));
    let mut j: usize = 0;
    while j < new_crtcs.len()
        invariant
            new_v == views(new_crtcs@),
            j <= new_crtcs.len(),
            steps@ == disabled + seq![LayoutStep::SetScreenSize(new_size)] + apply_steps(new_v, j as int),
        decreases new_crtcs.len() - j,
    {
        if new_crtcs[j].mode != 0 {
            steps.push(LayoutStep::ApplyNew(j));
        }
        j = j + 1;
        assert(steps@ =~= disabled + seq![LayoutStep::SetScreenSize(new_size)] + apply_steps(new_v, j as int));
    }
    Ok(steps)
}

/// Whether every CRTC lies inside the coordinate range with a
/// non-negative position.
fn check_on_screen(crtcs: &[Crtc]) -> (r: bool)
    ensures
        r == all_on_screen(views(crtcs@)),
{
    let mut i: usize = 0;
    while i < crtcs.len()
        invariant
            i <= crtcs.len(),
            forall|k: int| 0 <= k < i ==> #[trigger] views(crtcs@)[k].on_screen(),
        decreases crtcs.len() - i,
    {
        let c = &crtcs[i];
        if c.x < 0 || c.y < 0 || c.x as i64 + c.width as i64 > i32::MAX as i64 || c.y as i64
            + c.height as i64 > i32::MAX as i64 {
            assert(!views(crtcs@)[i as int].on_screen());
            return false;
        }
        i = i + 1;
    }
    true
}

proof fn lemma_disable_steps(old: Seq<CrtcView>, size: ScreenSize, n: int)
    requires
        0 <= n <= old.len(),
        n <= usize::MAX,
    ensures
        forall|k: int|
            0 <= k < disable_steps(old, size, n).len() ==> (#[trigger] disable_steps(
                old,
                size,
                n,
            )[k] matches LayoutStep::DisableOld(i) && i < n && exceeds(old[i as int], size)),
        forall|i: int|
            0 <= i < n && exceeds(old[i], size) ==> disable_steps(old, size, n).contains(
                LayoutStep::DisableOld(i as usize),
            ),
    decreases n,
{
    if n > 0 {
        lemma_disable_steps(old, size, n - 1);
        let before = disable_steps(old, size, n - 1);
        let cur = disable_steps(old, size, n);
        assert forall|k: int| 0 <= k < cur.len() implies (#[trigger] cur[k] matches LayoutStep::DisableOld(i) && i < n && exceeds(old[i as int], size)) by {
            if k < before.len() {
                assert(cur[k] == before[k]);
            }
        }
        assert forall|i: int|
            0 <= i < n && exceeds(old[i], size) implies disable_steps(old, size, n).contains(
            LayoutStep::DisableOld(i as usize),
        ) by {
            if i < n - 1 {
                let k = choose|k: int| 0 <= k < before.len() && before[k] == LayoutStep::DisableOld(i as usize);
                if exceeds(old[n - 1], size) {
                    assert(disable_steps(old, size, n)[k] == LayoutStep::DisableOld(i as usize));
                }
            } else {
                assert(disable_steps(old, size, n)[before.len() as int] == LayoutStep::DisableOld(
                    i as usize,
                ));
            }
        }
    }
}

proof fn lemma_apply_steps(new: Seq<CrtcView>, n: int)
    requires
        0 <= n <= new.len(),
        n <= usize::MAX,
    ensures
        forall|k: int|
            0 <= k < apply_steps(new, n).len() ==> (#[trigger] apply_steps(new, n)[k] matches LayoutStep::ApplyNew(
                i,
            ) && i < n && new[i as int].is_active()),
    decreases n,
{
    if n > 0 {
        lemma_apply_steps(new, n - 1);
        let before = apply_steps(new, n - 1);
        let cur = apply_steps(new, n);
        assert forall|k: int| 0 <= k < cur.len() implies (#[trigger] cur[k] matches LayoutStep::ApplyNew(i) && i < n && new[i as int].is_active()) by {
            if k < before.len() {
                assert(cur[k] == before[k]);
            }
        }
    }
}

/// In a planned layout change, every old CRTC that reaches past the new
/// screen is disabled, and each such disable comes before the screen is
/// resized; nothing else is disabled, and only CRTCs of the new layout
/// that have a mode are applied, all after the resize.
pub proof fn lemma_disable_before_resize(
    old: Seq<CrtcView>,
    new: Seq<CrtcView>,
    cur_px: i32,
    cur_mm: i32,
)
    requires
        old.len() <= usize::MAX,
        new.len() <= usize::MAX,
    ensures
        ({
            let size = screen_size_of(new, cur_px, cur_mm);
            let steps = layout_steps(old, new, cur_px, cur_mm);
            let d = disable_steps(old, size, old.len() as int).len();
            &&& d < steps.len()
            &&& steps[d as int] == LayoutStep::SetScreenSize(size)
            &&& forall|i: int|
                0 <= i < old.len() ==> (exceeds(old[i], size) <==> exists|k: int|
                    0 <= k < d && #[trigger] steps[k] == LayoutStep::DisableOld(i as usize))
            &&& forall|k: int|
                0 <= k < d ==> (#[trigger] steps[k] matches LayoutStep::DisableOld(i) && i
                    < old.len())
            &&& forall|k: int|
                d < k < steps.len() ==> (#[trigger] steps[k] matches LayoutStep::ApplyNew(i) && i
                    < new.len() && new[i as int].is_active())
        }),
{
    let size = screen_size_of(new, cur_px, cur_mm);
    let steps = layout_steps(old, new, cur_px, cur_mm);
    let dis = disable_steps(old, size, old.len() as int);
    let app = apply_steps(new, new.len() as int);
    let d = dis.len();
    lemma_disable_steps(old, size, old.len() as int);
    lemma_apply_steps(new, new.len() as int);
    assert forall|k: int| 0 <= k < d implies #[trigger] steps[k] == dis[k] by {}
    assert forall|k: int| d < k < steps.len() implies #[trigger] steps[k] == app[k - d - 1] by {}
    assert forall|i: int|
        0 <= i < old.len() implies (exceeds(old[i], size) <==> exists|k: int|
        0 <= k < d && #[trigger] steps[k] == LayoutStep::DisableOld(i as usize)) by {
        if exceeds(old[i], size) {
            let k = choose|k: int| 0 <= k < d && dis[k] == LayoutStep::DisableOld(i as usize);
            assert(steps[k] == LayoutStep::DisableOld(i as usize));
        }
        if exists|k: int| 0 <= k < d && #[trigger] steps[k] == LayoutStep::DisableOld(i as usize) {
            let k = choose|k: int| 0 <= k < d && #[trigger] steps[k] == LayoutStep::DisableOld(i as usize);
            assert(dis[k] == LayoutStep::DisableOld(i as usize));
        }
    }
}

} // verus!

use vstd::prelude::*;

use crate::crtc::{
    normalizable, normalize_positions, normalized, rotated_size, views, Crtc, CrtcConfig,
    CrtcView, Rotation,
};
use crate::error::{Xid, XrandrError};
use crate::output::{Mode, Output, Relation};

verus! {

/// A layout before and after a planned change. Both hold only CRTCs that
/// have a mode.
#[derive(Clone, Debug)]
pub struct LayoutChange {
    pub old: Vec<Crtc>,
    pub new: Vec<Crtc>,
}

/// The CRTCs of a layout that have a mode, in order.
pub open spec fn active(s: Seq<CrtcView>) -> Seq<CrtcView>
    decreases s.len(),
{
    if s.len() == 0 {
        seq![]
    } else {
        let a = active(s.drop_last());
        if s.last().is_active() {
            a.push(s.last())
        } else {
            a
        }
    }
}

/// `i` is the first position of a CRTC with identity `xid`.
pub open spec fn is_first_crtc(s: Seq<CrtcView>, xid: Xid, i: int) -> bool {
    &&& 0 <= i < s.len()
    &&& s[i].xid == xid
    &&& forall|j: int| 0 <= j < i ==> s[j].xid != xid
}

/// Position of the first CRTC with identity `xid`, or -1.
pub open spec fn crtc_index(s: Seq<CrtcView>, xid: Xid) -> int {
    if exists|i: int| is_first_crtc(s, xid, i) {
        choose|i: int| is_first_crtc(s, xid, i)
    } else {
        -1
    }
}

/// `i` is the first position of a mode with identity `xid`.
pub open spec fn is_first_mode(s: Seq<Mode>, xid: Xid, i: int) -> bool {
    &&& 0 <= i < s.len()
    &&& s[i].xid == xid
    &&& forall|j: int| 0 <= j < i ==> s[j].xid != xid
}

/// Position of the first mode with identity `xid`, or -1.
pub open spec fn mode_index(s: Seq<Mode>, xid: Xid) -> int {
    if exists|i: int| is_first_mode(s, xid, i) {
        choose|i: int| is_first_mode(s, xid, i)
    } else {
        -1
    }
}

/// A CRTC that may drive output `o` and drives nothing now.
pub open spec fn is_available(c: CrtcView, o: Xid) -> bool {
    c.possible.contains(o) && c.outputs.len() == 0
}

/// `i` is the first position of a CRTC available to output `o`.
pub open spec fn is_first_available(s: Seq<CrtcView>, o: Xid, i: int) -> bool {
    &&& 0 <= i < s.len()
    &&& is_available(s[i], o)
    &&& forall|j: int| 0 <= j < i ==> !is_available(s[j], o)
}

/// Position of the first CRTC available to output `o`, or -1.
pub open spec fn available_index(s: Seq<CrtcView>, o: Xid) -> int {
    if exists|i: int| is_first_available(s, o, i) {
        choose|i: int| is_first_available(s, o, i)
    } else {
        -1
    }
}

/// Top-left corner for a picture of size `(w, h)` placed in `relation` to
/// the rectangle at `(rel_x, rel_y)` of size `(rel_w, rel_h)`.
pub open spec fn relative_position(
    relation: Relation,
    rel_x: int,
    rel_y: int,
    rel_w: int,
    rel_h: int,
    w: int,
    h: int,
) -> (int, int) {
    match relation {
        Relation::LeftOf => (rel_x - w, rel_y),
        Relation::RightOf => (rel_x + rel_w, rel_y),
        Relation::Above => (rel_x, rel_y - h),
        Relation::Below => (rel_x, rel_y + rel_h),
        Relation::SameAs => (rel_x, rel_y),
    }
}

/// Both coordinates of `p` are representable as `i32`.
pub open spec fn fits_i32(p: (int, int)) -> bool {
    i32::MIN <= p.0 <= i32::MAX && i32::MIN <= p.1 <= i32::MAX
}

/// Where the CRTC at `i` of `act`, showing `mode`, goes when placed in
/// `relation` to `rel`, which shows `rel_mode`.
pub open spec fn target_position(
    act: Seq<CrtcView>,
    i: int,
    mode: Mode,
    rel: CrtcView,
    rel_mode: Mode,
    relation: Relation,
) -> (int, int) {
    let (w, h) = rotated_size(mode.width, mode.height, Rotation::Normal, act[i].rotation);
    let (rel_w, rel_h) = rotated_size(rel_mode.width, rel_mode.height, Rotation::Normal, rel.rotation);
    relative_position(relation, rel.x as int, rel.y as int, rel_w as int, rel_h as int, w as int, h as int)
}

/// The CRTC at `i` of `act` moved to `p`.
pub open spec fn moved_layout(act: Seq<CrtcView>, i: int, p: (int, int)) -> Seq<CrtcView> {
    act.update(i, act[i].placed_at(p.0 as i32, p.1 as i32))
}

/// The CRTCs that have a mode, copied in order.
pub fn active_crtcs(crtcs: &[Crtc]) -> (r: Vec<Crtc>)
    ensures
        views(r@) == active(views(crtcs@)),
{
    let ghost s = views(crtcs@);
    let mut r: Vec<Crtc> = Vec::new();
    let mut i: usize = 0;
    while i < crtcs.len()
        invariant
            s == views(crtcs@),
            i <= crtcs.len(),
            views(r@) == active(s.subrange(0, i as int)),
        decreases crtcs.len() - i,
    {
        assert(s.subrange(0, i + 1).drop_last() =~= s.subrange(0, i as int));
        assert(s.subrange(0, i + 1).last() == crtcs[i as int]@);
        if crtcs[i].mode != 0 {
            let ghost prev = r@;
            r.push(crtcs[i].duplicate());
            assert(views(r@) =~= views(prev).push(crtcs[i as int]@));
        }
        i = i + 1;
    }
    assert(s.subrange(0, crtcs.len() as int) =~= s);
    r
}

/// Position of the first CRTC with identity `xid`.
fn find_crtc(crtcs: &[Crtc], xid: Xid) -> (r: Option<usize>)
    ensures
        r matches Some(i) ==> is_first_crtc(views(crtcs@), xid, i as int) && crtc_index(
            views(crtcs@),
            xid,
        ) == i,
        r is None ==> crtc_index(views(crtcs@), xid) == -1,
{
    let ghost s = views(crtcs@);
    let mut i: usize = 0;
    while i < crtcs.len()
        invariant
            s == views(crtcs@),
            i <= crtcs.len(),
            forall|j: int| 0 <= j < i ==> s[j].xid != xid,
        decreases crtcs.len() - i,
    {
        if crtcs[i].xid == xid {
            assert(is_first_crtc(s, xid, i as int));
            let ghost c = choose|k: int| is_first_crtc(s, xid, k);
            assert(c == i as int) by {
                if c < i {
                    assert(s[c].xid != xid);
                } else if c > i {
                    assert(s[i as int].xid != xid);
                }
            }
            return Some(i);
        }
        i = i + 1;
    }
    assert(!exists|k: int| is_first_crtc(s, xid, k)) by {
        if exists|k: int| is_first_crtc(s, xid, k) {
            let k = choose|k: int| is_first_crtc(s, xid, k);
            assert(s[k].xid != xid);
        }
    }
    None
}

/// Position of the first mode with identity `xid`.
fn find_mode(modes: &[Mode], xid: Xid) -> (r: Option<usize>)
    ensures
        r matches Some(i) ==> is_first_mode(modes@, xid, i as int) && mode_index(modes@, xid)
            == i,
        r is None ==> mode_index(modes@, xid) == -1,
{
    let mut i: usize = 0;
    while i < modes.len()
        invariant
            i <= modes.len(),
            forall|j: int| 0 <= j < i ==> modes@[j].xid != xid,
        decreases modes.len() - i,
    {
        if modes[i].xid == xid {
            assert(is_first_mode(modes@, xid, i as int));
            let ghost c = choose|k: int| is_first_mode(modes@, xid, k);
            assert(c == i as int) by {
                if c < i {
                    assert(modes@[c].xid != xid);
                } else if c > i {
                    assert(modes@[i as int].xid != xid);
                }
            }
            return Some(i);
        }
        i = i + 1;
    }
    assert(!exists|k: int| is_first_mode(modes@, xid, k)) by {
        if exists|k: int| is_first_mode(modes@, xid, k) {
            let k = choose|k: int| is_first_mode(modes@, xid, k);
            assert(modes@[k].xid != xid);
        }
    }
    None
}

/// A copy of `crtcs` with the CRTC at `idx` replaced by `c`.
fn replaced(crtcs: &[Crtc], idx: usize, c: Crtc) -> (r: Vec<Crtc>)
    requires
        idx < crtcs.len(),
    ensures
        views(r@) == views(crtcs@).update(idx as int, c@),
{
    let ghost c_view = c@;
    let ghost target = views(crtcs@).update(idx as int, c@);
    let mut r: Vec<Crtc> = Vec::new();
    let mut c = Some(c);
    let mut i: usize = 0;
    while i < crtcs.len()
        invariant
            target == views(crtcs@).update(idx as int, c_view),
            idx < crtcs.len(),
            i <= crtcs.len(),
            i <= idx ==> (c matches Some(v) && v@ == c_view),
            views(r@) == target.subrange(0, i as int),
        decreases crtcs.len() - i,
    {
        let ghost prev = r@;
        if i == idx {
            let v = c.take().unwrap();
            r.push(v);
        } else {
            r.push(crtcs[i].duplicate());
        }
        assert(views(r@) =~= views(prev).push(target[i as int]));
        i = i + 1;
        assert(views(r@) =~= target.subrange(0, i as int));
    }
    assert(target.subrange(0, crtcs.len() as int) =~= target);
    r
}

/// Whether every shift that normalization makes stays below `i32::MAX`.
fn check_normalizable(crtcs: &[Crtc]) -> (r: bool)
    ensures
        r == normalizable(views(crtcs@)),
{
    let ghost s = views(crtcs@);
    if crtcs.len() == 0 {
        return false;
    }
    let mut i: usize = 0;
    while i < crtcs.len()
        invariant
            s == views(crtcs@),
            i <= crtcs.len(),
            forall|a: int, b: int|
                0 <= a < i && 0 <= b < s.len() ==> s[a].x - s[b].x < i32::MAX && s[a].y - s[b].y
                    < i32::MAX,
        decreases crtcs.len() - i,
    {
        let mut j: usize = 0;
        while j < crtcs.len()
            invariant
                s == views(crtcs@),
                i < crtcs.len(),
                j <= crtcs.len(),
                forall|a: int, b: int|
                    0 <= a < i && 0 <= b < s.len() ==> s[a].x - s[b].x < i32::MAX && s[a].y
                        - s[b].y < i32::MAX,
                forall|b: int|
                    0 <= b < j ==> s[i as int].x - s[b].x < i32::MAX && s[i as int].y - s[b].y
                        < i32::MAX,
            decreases crtcs.len() - j,
        {
            if crtcs[i].x as i64 - crtcs[j].x as i64 >= i32::MAX as i64 || crtcs[i].y as i64
                - crtcs[j].y as i64 >= i32::MAX as i64 {
                assert(!(s[i as int].x - s[j as int].x < i32::MAX && s[i as int].y - s[j as int].y
                    < i32::MAX));
                return false;
            }
            j = j + 1;
        }
        i = i + 1;
    }
    true
}

/// Plans placing `output` in `relation` to `rel_output`, from the server's
/// CRTCs and modes. The old layout holds the CRTCs that have a mode; the
/// new one is the old with `output`'s CRTC moved, then normalized.
pub fn plan_position(
    crtcs: &[Crtc],
    modes: &[Mode],
    output: &Output,
    relation: Relation,
    rel_output: &Output,
) -> (r: Result<LayoutChange, XrandrError>)
    ensures
        ({
            let all = views(crtcs@);
            let act = active(all);
            let i = crtc_index(act, output.crtc);
            let j = crtc_index(all, rel_output.crtc);
            let m = mode_index(modes@, output.current_mode->Some_0);
            let rm = mode_index(modes@, rel_output.current_mode->Some_0);
            let p = target_position(act, i, modes@[m], all[j], modes@[rm], relation);
            &&& i < 0 ==> (r matches Err(XrandrError::GetResources))
            &&& i >= 0 && j < 0 ==> (r matches Err(XrandrError::GetCrtc(id)) && id
                == rel_output.crtc)
            &&& i >= 0 && j >= 0 && output.current_mode is None ==> (r matches Err(
                XrandrError::OutputDisabled(n),
            ) && n@ == output.name@)
            &&& i >= 0 && j >= 0 && output.current_mode is Some && rel_output.current_mode is None
                ==> (r matches Err(XrandrError::OutputDisabled(n)) && n@ == rel_output.name@)
            &&& i >= 0 && j >= 0 && output.current_mode is Some && rel_output.current_mode is Some
                && m < 0 ==> (r matches Err(XrandrError::GetModeInfo(id)) && id
                == output.current_mode->Some_0)
            &&& i >= 0 && j >= 0 && output.current_mode is Some && rel_output.current_mode is Some
                && m >= 0 && rm < 0 ==> (r matches Err(XrandrError::GetModeInfo(id)) && id
                == rel_output.current_mode->Some_0)
            &&& i >= 0 && j >= 0 && output.current_mode is Some && rel_output.current_mode is Some
                && m >= 0 && rm >= 0 ==> {
                if fits_i32(p) && normalizable(moved_layout(act, i, p)) {
                    (r matches Ok(ch) && views(ch.old@) == act && views(ch.new@) == normalized(
                        moved_layout(act, i, p),
                    ))
                } else {
                    (r matches Err(XrandrError::InvalidLayout))
                }
            }
        }),
{
    let old = active_crtcs(crtcs);
    let idx = match find_crtc(&old, output.crtc) {
        Some(k) => k,
        None => return Err(XrandrError::GetResources),
    };
    let rel_idx = match find_crtc(crtcs, rel_output.crtc) {
        Some(k) => k,
        None => return Err(XrandrError::GetCrtc(rel_output.crtc)),
    };
    let mode_id = match output.current_mode {
        Some(id) => id,
        None => return Err(XrandrError::OutputDisabled(output.name.clone())),
    };
    let rel_mode_id = match rel_output.current_mode {
        Some(id) => id,
        None => return Err(XrandrError::OutputDisabled(rel_output.name.clone())),
    };
    let m = match find_mode(modes, mode_id) {
        Some(k) => k,
        None => return Err(XrandrError::GetModeInfo(mode_id)),
    };
    let rm = match find_mode(modes, rel_mode_id) {
        Some(k) => k,
        None => return Err(XrandrError::GetModeInfo(rel_mode_id)),
    };
    let (w, h) = modes[m].rot_size(old[idx].rotation);
    let rel = &crtcs[rel_idx];
    let (rel_w, rel_h) = modes[rm].rot_size(rel.rotation);
    let (rel_x, rel_y) = (rel.x as i64, rel.y as i64);
    let (new_x, new_y): (i64, i64) = match relation {
        Relation::LeftOf => (rel_x - w as i64, rel_y),
        Relation::RightOf => (rel_x + rel_w as i64, rel_y),
        Relation::Above => (rel_x, rel_y - h as i64),
        Relation::Below => (rel_x, rel_y + rel_h as i64),
        Relation::SameAs => (rel_x, rel_y),
    };
    if new_x < i32::MIN as i64 || new_x > i32::MAX as i64 || new_y < i32::MIN as i64 || new_y
        > i32::MAX as i64 {
        return Err(XrandrError::InvalidLayout);
    }
    let mut moved = old[idx].duplicate();
    moved.x = new_x as i32;
    moved.y = new_y as i32;
    let crtcs_moved = replaced(&old, idx, moved);
    if !check_normalizable(&crtcs_moved) {
        return Err(XrandrError::InvalidLayout);
    }
    let new = normalize_positions(&crtcs_moved);
    Ok(LayoutChange { old, new })
}

/// The CRTC turned to rotation `rot`, its size seen in the new rotation.
pub open spec fn rotated_view(c: CrtcView, rot: Rotation) -> CrtcView {
    let (w, h) = rotated_size(c.width, c.height, c.rotation, rot);
    CrtcView { width: w, height: h, rotation: rot, ..c }
}

/// Turning a CRTC to any rotation and then back to the one it had
/// restores it, size included.
pub proof fn lemma_rotate_back(c: CrtcView, rot: Rotation)
    ensures
        rotated_view(rotated_view(c, rot), c.rotation) == c,
{
}

/// Plans turning `output` to `rotation`. The old layout holds the CRTCs
/// that have a mode; the new one is the old with `output`'s CRTC turned,
/// positions unchanged.
pub fn plan_rotation(crtcs: &[Crtc], output: &Output, rotation: Rotation) -> (r: Result<
    LayoutChange,
    XrandrError,
>)
    ensures
        ({
            let act = active(views(crtcs@));
            let i = crtc_index(act, output.crtc);
            &&& i < 0 ==> (r matches Err(XrandrError::NoCrtcAvailable))
            &&& i >= 0 ==> (r matches Ok(ch) && views(ch.old@) == act && views(ch.new@)
                == act.update(i, rotated_view(act[i], rotation)))
        }),
{
    let old = active_crtcs(crtcs);
    let idx = match find_crtc(&old, output.crtc) {
        Some(k) => k,
        None => return Err(XrandrError::NoCrtcAvailable),
    };
    let mut turned = old[idx].duplicate();
    let (w, h) = turned.rot_size(rotation);
    turned.width = w;
    turned.height = h;
    turned.rotation = rotation;
    let new = replaced(&old, idx, turned);
    Ok(LayoutChange { old, new })
}

/// The request that shows `mode` on `c` with `outputs`, keeping its
/// position and rotation.
pub open spec fn config_matches(r: CrtcConfig, c: CrtcView, mode: Xid, outputs: Seq<Xid>) -> bool {
    &&& r.xid == c.xid
    &&& r.x == c.x
    &&& r.y == c.y
    &&& r.rotation == c.rotation
    &&& r.mode == mode
    &&& r.outputs@ == outputs
}

/// Position of the first CRTC that may drive output `o` and drives nothing.
fn find_available(crtcs: &[Crtc], o: Xid) -> (r: Option<usize>)
    ensures
        r matches Some(i) ==> is_first_available(views(crtcs@), o, i as int) && available_index(
            views(crtcs@),
            o,
        ) == i,
        r is None ==> available_index(views(crtcs@), o) == -1,
{
    let ghost s = views(crtcs@);
    let mut i: usize = 0;
    while i < crtcs.len()
        invariant
            s == views(crtcs@),
            i <= crtcs.len(),
            forall|j: int| 0 <= j < i ==> !is_available(s[j], o),
        decreases crtcs.len() - i,
    {
        let c = &crtcs[i];
        let mut possible = false;
        let mut k: usize = 0;
        while k < c.possible.len()
            invariant
                c@ == s[i as int],
                k <= c.possible.len(),
                possible == exists|q: int| 0 <= q < k && c.possible@[q] == o,
            decreases c.possible.len() - k,
        {
            if c.possible[k] == o {
                possible = true;
            }
            k = k + 1;
        }
        if possible && c.outputs.len() == 0 {
            assert(is_first_available(s, o, i as int));
            let ghost f = choose|q: int| is_first_available(s, o, q);
            assert(f == i as int) by {
                if f < i {
                    assert(!is_available(s[f], o));
                } else if f > i {
                    assert(!is_available(s[i as int], o));
                }
            }
            return Some(i);
        }
        i = i + 1;
    }
    assert(!exists|q: int| is_first_available(s, o, q)) by {
        if exists|q: int| is_first_available(s, o, q) {
            let q = choose|q: int| is_first_available(s, o, q);
            assert(!is_available(s[q], o));
        }
    }
    None
}

/// Plans enabling `output` in its first preferred mode on the first CRTC
/// that may drive it and drives nothing. `None` when the output is already
/// enabled: nothing is to be sent.
pub fn plan_enable(crtcs: &[Crtc], modes: &[Mode], output: &Output) -> (r: Result<
    Option<CrtcConfig>,
    XrandrError,
>)
    ensures
        ({
            let all = views(crtcs@);
            let target = output.preferred_modes@[0];
            let c = available_index(all, output.xid);
            let m = mode_index(modes@, target);
            &&& output.current_mode is Some ==> (r matches Ok(None))
            &&& output.current_mode is None && output.preferred_modes@.len() == 0 ==> (r matches Err(
                XrandrError::GetOutputInfo(id),
            ) && id == output.xid)
            &&& output.current_mode is None && output.preferred_modes@.len() > 0 && c < 0 ==> (r matches Err(
                XrandrError::NoCrtcAvailable,
            ))
            &&& output.current_mode is None && output.preferred_modes@.len() > 0 && c >= 0 && m < 0
                ==> (r matches Err(XrandrError::GetModeInfo(id)) && id == target)
            &&& output.current_mode is None && output.preferred_modes@.len() > 0 && c >= 0 && m
                >= 0 ==> (r matches Ok(Some(cfg)) && config_matches(
                cfg,
                all[c],
                modes@[m].xid,
                seq![output.xid],
            ))
        }),
{
    if output.current_mode.is_some() {
        return Ok(None);
    }
    if output.preferred_modes.len() == 0 {
        return Err(XrandrError::GetOutputInfo(output.xid));
    }
    let target = output.preferred_modes[0];
    let c = match find_available(crtcs, output.xid) {
        Some(k) => k,
        None => return Err(XrandrError::NoCrtcAvailable),
    };
    let m = match find_mode(modes, target) {
        Some(k) => k,
        None => return Err(XrandrError::GetModeInfo(target)),
    };
    let mut cfg = crtcs[c].apply();
    cfg.mode = modes[m].xid;
    cfg.outputs = vec![output.xid];
    assert(cfg.outputs@ =~= seq![output.xid]);
    Ok(Some(cfg))
}

/// Plans disabling `output`: the request that switches off its CRTC.
pub fn plan_disable(crtcs: &[Crtc], output: &Output) -> (r: Result<CrtcConfig, XrandrError>)
    ensures
        ({
            let all = views(crtcs@);
            let i = crtc_index(all, output.crtc);
            &&& output.crtc == 0 ==> (r matches Err(XrandrError::OutputDisabled(n)) && n@
                == output.name@)
            &&& output.crtc != 0 && i < 0 ==> (r matches Err(XrandrError::GetCrtc(id)) && id
                == output.crtc)
            &&& output.crtc != 0 && i >= 0 ==> (r matches Ok(cfg) && cfg.xid == output.crtc
                && cfg.x == 0 && cfg.y == 0 && cfg.mode == 0 && cfg.rotation == Rotation::Normal
                && cfg.outputs@.len() == 0)
        }),
{
    if output.crtc == 0 {
        return Err(XrandrError::OutputDisabled(output.name.clone()));
    }
    match find_crtc(crtcs, output.crtc) {
        Some(i) => {
            Ok(crtcs[i].disable())
        },
        None => Err(XrandrError::GetCrtc(output.crtc)),
    }
}

/// Plans showing `mode` on the CRTC that drives `output`, keeping its
/// position, rotation and outputs.
pub fn plan_mode(crtcs: &[Crtc], output: &Output, mode: &Mode) -> (r: Result<
    CrtcConfig,
    XrandrError,
>)
    ensures
        ({
            let all = views(crtcs@);
            let i = crtc_index(all, output.crtc);
            &&& i < 0 ==> (r matches Err(XrandrError::GetCrtc(id)) && id == output.crtc)
            &&& i >= 0 ==> (r matches Ok(cfg) && config_matches(cfg, all[i], mode.xid, all[i].outputs))
        }),
{
    match find_crtc(crtcs, output.crtc) {
        Some(i) => {
            let mut cfg = crtcs[i].apply();
            cfg.mode = mode.xid;
            Ok(cfg)
        },
        None => Err(XrandrError::GetCrtc(output.crtc)),
    }
}

} // verus!

use xrandr::{
    active_crtcs, apply_new_crtcs, new_screen_size, normalize_positions, physical_size,
    plan_disable, plan_enable, plan_mode, plan_position, plan_rotation, Crtc, LayoutStep, Mode,
    Output, Relation, Rotation, ScreenSize, XrandrError,
};

fn crtc(xid: u64, x: i32, y: i32, width: u32, height: u32, mode: u64) -> Crtc {
    Crtc {
        xid,
        timestamp: 0,
        x,
        y,
        width,
        height,
        mode,
        rotation: Rotation::Normal,
        outputs: if mode != 0 { vec![xid + 100] } else { vec![] },
        rotations: 15,
        possible: vec![xid + 100],
    }
}

fn output(xid: u64, crtc: u64, current_mode: Option<u64>) -> Output {
    Output {
        xid,
        timestamp: 0,
        is_primary: false,
        crtc,
        name: format!("OUT-{}", xid),
        mm_width: 0,
        mm_height: 0,
        connected: true,
        crtcs: vec![],
        clones: vec![],
        modes: vec![],
        preferred_modes: vec![],
        current_mode,
    }
}

fn mode(xid: u64, width: u32, height: u32) -> Mode {
    Mode { xid, width, height, dot_clock: 0, flags: 0, name: format!("{}x{}", width, height) }
}

fn positions(crtcs: &[Crtc]) -> Vec<(u64, i32, i32)> {
    crtcs.iter().map(|c| (c.xid, c.x, c.y)).collect()
}

/// A at (0,0) 800x600 driven by CRTC 1, B 1024x768 driven by CRTC 2.
fn two_screens(b_x: i32) -> (Vec<Crtc>, Vec<Mode>, Output, Output) {
    let crtcs = vec![crtc(1, 0, 0, 800, 600, 11), crtc(2, b_x, 0, 1024, 768, 12)];
    let modes = vec![mode(11, 800, 600), mode(12, 1024, 768)];
    (crtcs, modes, output(101, 1, Some(11)), output(102, 2, Some(12)))
}

#[test]
fn rotation_decodes_server_values() {
    assert!(matches!(Rotation::try_from(1), Ok(Rotation::Normal)));
    assert!(matches!(Rotation::try_from(2), Ok(Rotation::Left)));
    assert!(matches!(Rotation::try_from(4), Ok(Rotation::Inverted)));
    assert!(matches!(Rotation::try_from(8), Ok(Rotation::Right)));
    assert!(matches!(Rotation::try_from(3), Err(XrandrError::InvalidRotation(3))));
    assert_eq!(Rotation::Right.bits(), 8);
    assert_eq!(Rotation::Inverted.bits(), 4);
}

#[test]
fn crtc_from_xid_cases() {
    let ok = Crtc::from_xid(5, 9, (10, 20, 800, 600), 11, 2, vec![101], 15, vec![101, 102], true);
    let c = ok.unwrap();
    assert_eq!((c.xid, c.timestamp, c.x, c.y, c.width, c.height), (5, 9, 10, 20, 800, 600));
    assert_eq!(c.rotation, Rotation::Left);
    assert_eq!(c.possible, vec![101, 102]);
    let bad = Crtc::from_xid(5, 9, (0, 0, 1, 1), 11, 16, vec![], 15, vec![], true);
    assert!(matches!(bad, Err(XrandrError::InvalidRotation(16))));
    let missing = Crtc::from_xid(5, 9, (0, 0, 1, 1), 11, 1, vec![], 15, vec![], false);
    assert!(matches!(missing, Err(XrandrError::GetCrtc(5))));
}

#[test]
fn rot_size_swaps_between_pairs() {
    let mut c = crtc(1, 0, 0, 800, 600, 11);
    assert_eq!(c.rot_size(Rotation::Inverted), (800, 600));
    assert_eq!(c.rot_size(Rotation::Left), (600, 800));
    c.rotation = Rotation::Right;
    assert_eq!(c.rot_size(Rotation::Left), (800, 600));
    assert_eq!(c.rot_size(Rotation::Normal), (600, 800));
    assert_eq!(mode(1, 1920, 1080).rot_size(Rotation::Right), (1080, 1920));
}

#[test]
fn rotation_round_trip_restores_size() {
    let crtcs = vec![crtc(1, 0, 0, 800, 600, 11)];
    let out = output(101, 1, Some(11));
    let left = plan_rotation(&crtcs, &out, Rotation::Left).unwrap();
    assert_eq!((left.new[0].width, left.new[0].height), (600, 800));
    assert_eq!(left.new[0].rotation, Rotation::Left);
    let back = plan_rotation(&left.new, &out, Rotation::Normal).unwrap();
    assert_eq!((back.new[0].width, back.new[0].height), (800, 600));
    assert_eq!(back.new[0].rotation, Rotation::Normal);
}

#[test]
fn rotation_of_unknown_output_fails() {
    let crtcs = vec![crtc(1, 0, 0, 800, 600, 11), crtc(2, 0, 0, 0, 0, 0)];
    let r = plan_rotation(&crtcs, &output(102, 2, None), Rotation::Left);
    assert!(matches!(r, Err(XrandrError::NoCrtcAvailable)));
}

#[test]
fn offset_and_corner() {
    let c = crtc(1, 10, 20, 800, 600, 11);
    let moved = c.offset((-10, 5));
    assert_eq!((moved.x, moved.y), (0, 25));
    assert_eq!(moved.width, 800);
    assert_eq!(c.max_coordinates(), (810, 620));
}

#[test]
fn normalize_moves_top_left_to_origin() {
    let crtcs = vec![crtc(1, 0, 0, 800, 600, 11), crtc(2, -1024, 50, 1024, 768, 12)];
    let n = normalize_positions(&crtcs);
    assert_eq!(positions(&n), vec![(1, 1024, 0), (2, 0, 50)]);
    assert!(n.iter().all(|c| c.x >= 0 && c.y >= 0));
    assert_eq!(n.iter().map(|c| c.x).min(), Some(0));
    assert_eq!(n.iter().map(|c| c.y).min(), Some(0));
    let again = normalize_positions(&n);
    assert_eq!(positions(&again), positions(&n));
}

#[test]
fn normalize_single_crtc() {
    let n = normalize_positions(&[crtc(3, 300, -40, 10, 10, 1)]);
    assert_eq!(positions(&n), vec![(3, 0, 0)]);
}

#[test]
fn screen_size_fits_layout() {
    let crtcs = vec![crtc(1, 0, 0, 800, 600, 11), crtc(2, 800, 0, 1024, 768, 12)];
    let size = new_screen_size(&crtcs, 1080, 300);
    assert_eq!(size, ScreenSize { width: 1824, width_mm: 506, height: 768, height_mm: 213 });
}

#[test]
fn screen_size_grows_with_more_crtcs() {
    let one = vec![crtc(1, 0, 0, 800, 600, 11)];
    let mut two = one.clone();
    two.push(crtc(2, 0, 600, 640, 480, 12));
    let a = new_screen_size(&one, 1080, 300);
    let b = new_screen_size(&two, 1080, 300);
    assert!(b.width >= a.width && b.height >= a.height);
    assert_eq!((b.width, b.height), (800, 1080));
}

#[test]
fn physical_size_keeps_density() {
    assert_eq!(physical_size(1920, 1080, 300), 533);
    assert_eq!(physical_size(0, 1080, 300), 0);
    assert_eq!(physical_size(1920, 1080, 0), 0);
    assert_eq!(physical_size(1920, 0, 300), 0);
    assert_eq!(physical_size(i32::MAX, 1, 1000), i32::MAX);
}

#[test]
fn reconciliation_disables_before_resize() {
    let old = vec![crtc(1, 0, 0, 1920, 1080, 11)];
    let new = vec![crtc(1, 0, 0, 800, 600, 12)];
    let steps = apply_new_crtcs(&old, &new, 1080, 300).unwrap();
    let size = ScreenSize { width: 800, width_mm: 222, height: 600, height_mm: 166 };
    assert_eq!(
        steps,
        vec![LayoutStep::DisableOld(0), LayoutStep::SetScreenSize(size), LayoutStep::ApplyNew(0)]
    );
}

#[test]
fn reconciliation_keeps_fitting_and_skips_disabled() {
    let old = vec![crtc(1, 0, 0, 800, 600, 11), crtc(2, 800, 0, 1024, 768, 12)];
    let new = vec![crtc(1, 0, 0, 800, 600, 11), crtc(2, 800, 0, 1024, 768, 0), crtc(3, 0, 600, 800, 600, 13)];
    let steps = apply_new_crtcs(&old, &new, 1200, 0).unwrap();
    let size = ScreenSize { width: 1824, width_mm: 0, height: 1200, height_mm: 0 };
    assert_eq!(
        steps,
        vec![LayoutStep::SetScreenSize(size), LayoutStep::ApplyNew(0), LayoutStep::ApplyNew(2)]
    );
}

#[test]
fn reconciliation_rejects_bad_layouts() {
    let old = vec![crtc(1, 0, 0, 800, 600, 11)];
    assert!(matches!(apply_new_crtcs(&old, &[], 1080, 300), Err(XrandrError::InvalidLayout)));
    let negative = vec![crtc(1, -5, 0, 800, 600, 11)];
    assert!(matches!(apply_new_crtcs(&old, &negative, 1080, 300), Err(XrandrError::InvalidLayout)));
}

#[test]
fn place_right_of() {
    let (crtcs, modes, a, b) = two_screens(0);
    let ch = plan_position(&crtcs, &modes, &b, Relation::RightOf, &a).unwrap();
    assert_eq!(positions(&ch.old), vec![(1, 0, 0), (2, 0, 0)]);
    assert_eq!(positions(&ch.new), vec![(1, 0, 0), (2, 800, 0)]);
}

#[test]
fn place_below() {
    let (crtcs, modes, a, b) = two_screens(0);
    let ch = plan_position(&crtcs, &modes, &b, Relation::Below, &a).unwrap();
    assert_eq!(positions(&ch.new), vec![(1, 0, 0), (2, 0, 600)]);
}

#[test]
fn place_left_of_renormalizes() {
    let (crtcs, modes, a, b) = two_screens(0);
    let ch = plan_position(&crtcs, &modes, &b, Relation::LeftOf, &a).unwrap();
    assert_eq!(positions(&ch.new), vec![(1, 1024, 0), (2, 0, 0)]);
}

#[test]
fn place_above_and_same_as() {
    let (crtcs, modes, a, b) = two_screens(800);
    let ch = plan_position(&crtcs, &modes, &b, Relation::Above, &a).unwrap();
    assert_eq!(positions(&ch.new), vec![(1, 0, 768), (2, 0, 0)]);
    let ch = plan_position(&crtcs, &modes, &b, Relation::SameAs, &a).unwrap();
    assert_eq!(positions(&ch.new), vec![(1, 0, 0), (2, 0, 0)]);
}

#[test]
fn place_uses_rotated_mode_size() {
    let (mut crtcs, modes, a, b) = two_screens(0);
    crtcs[0].rotation = Rotation::Left;
    let ch = plan_position(&crtcs, &modes, &b, Relation::RightOf, &a).unwrap();
    assert_eq!(positions(&ch.new), vec![(1, 0, 0), (2, 600, 0)]);
}

#[test]
fn place_errors() {
    let (mut crtcs, modes, a, b) = two_screens(0);
    let lost = output(103, 9, Some(11));
    assert!(matches!(plan_position(&crtcs, &modes, &lost, Relation::RightOf, &a), Err(XrandrError::GetResources)));
    assert!(matches!(plan_position(&crtcs, &modes, &b, Relation::RightOf, &lost), Err(XrandrError::GetCrtc(9))));
    let off = output(102, 2, None);
    match plan_position(&crtcs, &modes, &off, Relation::RightOf, &a) {
        Err(XrandrError::OutputDisabled(n)) => assert_eq!(n, "OUT-102"),
        other => panic!("unexpected {:?}", other),
    }
    let unknown = output(102, 2, Some(77));
    assert!(matches!(plan_position(&crtcs, &modes, &unknown, Relation::RightOf, &a), Err(XrandrError::GetModeInfo(77))));
    crtcs[0].x = i32::MIN;
    assert!(matches!(plan_position(&crtcs, &modes, &b, Relation::LeftOf, &a), Err(XrandrError::InvalidLayout)));
}

#[test]
fn active_crtcs_drop_disabled() {
    let crtcs = vec![crtc(1, 0, 0, 1, 1, 0), crtc(2, 0, 0, 1, 1, 5), crtc(3, 0, 0, 1, 1, 0)];
    assert_eq!(positions(&active_crtcs(&crtcs)), vec![(2, 0, 0)]);
}

#[test]
fn enable_is_noop_when_enabled() {
    let crtcs = vec![crtc(1, 0, 0, 800, 600, 11)];
    let r = plan_enable(&crtcs, &[mode(11, 800, 600)], &output(101, 1, Some(11)));
    assert!(matches!(r, Ok(None)));
}

#[test]
fn enable_picks_free_crtc_and_preferred_mode() {
    let crtcs = vec![crtc(1, 0, 0, 800, 600, 11), crtc(2, 5, 6, 0, 0, 0)];
    let modes = vec![mode(11, 800, 600), mode(12, 1024, 768)];
    let mut out = output(102, 0, None);
    out.preferred_modes = vec![12, 11];
    let cfg = plan_enable(&crtcs, &modes, &out).unwrap().unwrap();
    assert_eq!((cfg.xid, cfg.x, cfg.y, cfg.mode), (2, 5, 6, 12));
    assert_eq!(cfg.outputs, vec![102]);
}

#[test]
fn enable_errors() {
    let crtcs = vec![crtc(1, 0, 0, 800, 600, 11), crtc(2, 0, 0, 0, 0, 0)];
    let modes = vec![mode(11, 800, 600)];
    let mut out = output(102, 0, None);
    assert!(matches!(plan_enable(&crtcs, &modes, &out), Err(XrandrError::GetOutputInfo(102))));
    out.preferred_modes = vec![12];
    assert!(matches!(plan_enable(&crtcs, &modes, &out), Err(XrandrError::GetModeInfo(12))));
    let busy = output(101, 0, None);
    let mut busy = busy;
    busy.preferred_modes = vec![11];
    assert!(matches!(plan_enable(&crtcs, &modes, &busy), Err(XrandrError::NoCrtcAvailable)));
}

#[test]
fn disable_requires_assigned_crtc() {
    let crtcs = vec![crtc(1, 0, 0, 800, 600, 11)];
    match plan_disable(&crtcs, &output(101, 0, None)) {
        Err(XrandrError::OutputDisabled(n)) => assert_eq!(n, "OUT-101"),
        other => panic!("unexpected {:?}", other),
    }
    assert!(matches!(plan_disable(&crtcs, &output(101, 4, Some(1))), Err(XrandrError::GetCrtc(4))));
    let cfg = plan_disable(&crtcs, &output(101, 1, Some(11))).unwrap();
    assert_eq!((cfg.xid, cfg.x, cfg.y, cfg.mode, cfg.rotation), (1, 0, 0, 0, Rotation::Normal));
    assert!(cfg.outputs.is_empty());
}

#[test]
fn set_mode_keeps_position() {
    let mut c = crtc(1, 30, 40, 800, 600, 11);
    c.rotation = Rotation::Inverted;
    let crtcs = vec![c];
    let cfg = plan_mode(&crtcs, &output(101, 1, Some(11)), &mode(12, 1024, 768)).unwrap();
    assert_eq!((cfg.xid, cfg.x, cfg.y, cfg.mode, cfg.rotation), (1, 30, 40, 12, Rotation::Inverted));
    assert_eq!(cfg.outputs, vec![101]);
    assert!(matches!(plan_mode(&crtcs, &output(101, 2, Some(11)), &mode(12, 1, 1)), Err(XrandrError::GetCrtc(2))));
}

#[test]
fn apply_and_disable_requests() {
    let mut c = crtc(7, 10, 20, 800, 600, 11);
    c.rotation = Rotation::Left;
    let a = c.apply();
    assert_eq!((a.xid, a.x, a.y, a.mode, a.rotation), (7, 10, 20, 11, Rotation::Left));
    assert_eq!(a.outputs, vec![107]);
    let d = c.disable();
    assert_eq!((d.xid, d.x, d.y, d.mode, d.rotation), (7, 0, 0, 0, Rotation::Normal));
    assert!(d.outputs.is_empty());
}

//! The layout and motion formulas, checked on their own numbers.

#[test]
fn test_inertial_settings_fallback_and_ranges() {
    let friction_raw = 90_u16;
    let friction_f32 = (friction_raw as f32 / 100.0).clamp(0.5, 0.99);
    assert!(friction_f32 >= 0.5 && friction_f32 <= 0.99);
    
    let friction_raw_low = 30_u16;
    let friction_f32_low = (friction_raw_low as f32 / 100.0).clamp(0.5, 0.99);
    assert_eq!(friction_f32_low, 0.5);
}

#[test]
fn test_decay_formula() {
    let friction = 0.90_f32;
    let dt_60 = 1.0 / 60.0;
    let decay_60 = friction.powf(dt_60 * 60.0);
    assert!((decay_60 - friction).abs() < 1e-5);

    let decay_0 = friction.powf(0.0 * 60.0);
    assert_eq!(decay_0, 1.0);
}

#[test]
fn test_circular_network_clamping_math() {
    let header_h = 26.0;
    let status_h = 0.0;
    let gap = 18.0;

    let clamp_layout = |width: f32, height: f32, layout_x: f32, layout_y: f32, layout_r: f32| -> (f32, f32, f32) {
        let max_r = ((width - 2.0 * gap).min(height - header_h - status_h - 2.0 * gap) / 2.0).max(50.0);
        let r = layout_r.clamp(50.0, max_r);

        let min_x = gap + r;
        let max_x = (width - gap - r).max(min_x);
        let x = layout_x.clamp(min_x, max_x);

        let min_y = header_h + gap + r;
        let max_y = (height - status_h - gap - r).max(min_y);
        let y = layout_y.clamp(min_y, max_y);

        (x, y, r)
    };

    let (x, y, r) = clamp_layout(1000.0, 800.0, 500.0, 400.0, 180.0);
    assert_eq!(r, 180.0);
    assert_eq!(x, 500.0);
    assert_eq!(y, 400.0);

    let (x, y, r) = clamp_layout(1000.0, 800.0, 50.0, 400.0, 180.0);
    assert_eq!(r, 180.0);
    assert_eq!(x, 198.0);
    assert_eq!(y, 400.0);

    let (x, y, r) = clamp_layout(1000.0, 800.0, 500.0, 100.0, 180.0);
    assert_eq!(r, 180.0);
    assert_eq!(x, 500.0);
    assert_eq!(y, 224.0);

    let (x, y, r) = clamp_layout(1000.0, 800.0, 500.0, 750.0, 180.0);
    assert_eq!(r, 180.0);
    assert_eq!(x, 500.0);
    assert_eq!(y, 602.0);

    let (x, y, r) = clamp_layout(50.0, 50.0, 10.0, 10.0, 180.0);
    assert!(r >= 50.0);
    assert!(x >= 0.0);
    assert!(y >= 0.0);
}

#[test]
fn test_floating_rectangular_pane_clamping() {
    let width = 1000.0_f32;
    let height = 800.0_f32;
    let header_h = 26.0_f32;
    let status_h = 0.0_f32;
    let gap = 18.0_f32;

    let clamp_floating = |_fx: f32, _fy: f32, fw: f32, _fh: f32| -> (f32, f32, f32, f32) {
        let fw = fw.clamp(150.0, (width - 2.0 * gap).max(150.0));
        let fx = gap;
        let fy = header_h + gap;
        let fh = (height - header_h - status_h - 2.0 * gap).max(100.0);
        (fx, fy, fw, fh)
    };

    let expected_h = height - header_h - status_h - 2.0 * gap;

    // Standard center case (fx anchored to gap, fy/fh to full height)
    let (x, y, w, h) = clamp_floating(100.0, 200.0, 400.0, 300.0);
    assert_eq!((x, y, w, h), (gap, header_h + gap, 400.0, expected_h));

    // Off-screen left/top
    let (x, y, w, h) = clamp_floating(-50.0, 0.0, 400.0, 300.0);
    assert_eq!((x, y, w, h), (gap, header_h + gap, 400.0, expected_h));

    // Off-screen right/bottom
    let (x, y, w, h) = clamp_floating(900.0, 700.0, 400.0, 300.0);
    assert_eq!((x, y, w, h), (gap, header_h + gap, 400.0, expected_h));

    let clamp_param = |pw: f32| -> (f32, f32, f32, f32) {
        let pw = pw.clamp(150.0, (width - 2.0 * gap).max(150.0));
        let px = width - gap - pw;
        let py = header_h + gap;
        let ph = (height - header_h - status_h - 2.0 * gap).max(100.0);
        (px, py, pw, ph)
    };

    // Standard param case
    let (px, py, pw, ph) = clamp_param(300.0);
    assert_eq!((px, py, pw, ph), (width - gap - 300.0, header_h + gap, 300.0, expected_h));

    // Off-screen/overflow width param case
    let (px, py, pw, ph) = clamp_param(1200.0);
    let max_w = width - 2.0 * gap;
    assert_eq!((px, py, pw, ph), (gap, header_h + gap, max_w, expected_h));

    let clamp_ss = |ss_h_val: f32, show_net: bool, show_param: bool| -> (f32, f32, f32, f32) {
        let fx = gap;
        let fw = 400.0;
        let param_w = 300.0;
        let param_x = width - gap - param_w;

        let ss_x = if show_net { fx + fw + gap } else { gap };
        let ss_w_end = if show_param { param_x - gap } else { width - gap };
        let ss_w = (ss_w_end - ss_x).max(150.0);
        let ss_y_end = height - status_h - gap;
        let ss_h = ss_h_val.clamp(100.0, (ss_y_end - header_h - gap).max(100.0));
        let ss_y = ss_y_end - ss_h;
        (ss_x, ss_y, ss_w, ss_h)
    };

    // Standard spreadsheet case (both net and param visible)
    let (sx, sy, sw, sh) = clamp_ss(250.0, true, true);
    assert_eq!(sx, gap + 400.0 + gap);
    assert_eq!(sw, (width - gap - 300.0 - gap) - (gap + 400.0 + gap));
    assert_eq!(sh, 250.0);
    assert_eq!(sy, height - status_h - gap - 250.0);

    // Neither net nor param visible
    let (sx2, _sy2, sw2, sh2) = clamp_ss(200.0, false, false);
    assert_eq!(sx2, gap);
    assert_eq!(sw2, width - 2.0 * gap);
    assert_eq!(sh2, 200.0);

    // Clamping height to min (100.0)
    let (_, _, _, sh_min) = clamp_ss(50.0, true, true);
    assert_eq!(sh_min, 100.0);

    // Clamping height to max
    let max_possible_h = height - status_h - gap - header_h - gap;
    let (_, _, _, sh_max) = clamp_ss(1000.0, true, true);
    assert_eq!(sh_max, max_possible_h);
}

#[test]
fn test_paginator_collapsed_layout() {
    let width = 1000.0_f32;

    let get_paginator_w = |page_hidden: bool| -> f32 {
        if page_hidden {
            56.0_f32
        } else {
            236.0_f32
        }
    };

    // Collapsed layout
    let w_collapsed = get_paginator_w(true);
    assert_eq!(w_collapsed, 56.0);

    // Expanded layout
    let w_expanded = get_paginator_w(false);
    assert_eq!(w_expanded, 236.0);

    // Verify how other viewport bounds adjust relative to paginator_w
    let check_viewport_layout = |page_hidden: bool| -> (f32, f32) {
        let paginator_w = get_paginator_w(page_hidden);
        let col_c_x = paginator_w;
        let col_c_w = width - paginator_w;
        (col_c_x, col_c_w)
    };

    // When collapsed, viewport/canvas has more space
    let (vx_c, vw_c) = check_viewport_layout(true);
    assert_eq!(vx_c, 56.0);
    assert_eq!(vw_c, 944.0);

    // When expanded, viewport/canvas has default space
    let (vx_e, vw_e) = check_viewport_layout(false);
    assert_eq!(vx_e, 236.0);
    assert_eq!(vw_e, 764.0);
}

use radial_strip::config::StripConfig;
use radial_strip::encode::{disposal_code, disposal_from_code, to_gif_frame};
use radial_strip::frame::{Disposal, OutputFrame, SourceFrame};
use radial_strip::geometry::crosses_boundary;
use radial_strip::resample::{process_frame, SamplePlan};

/// Sample points of the rays, rounded as the converter rounds them.
fn plan_for(cfg: &StripConfig, frame: &SourceFrame) -> SamplePlan {
    let cx = (frame.width / 2) as f32;
    let cy = (frame.height / 2) as f32;
    let radius = frame.vector_length();
    let mut xs = Vec::new();
    let mut ys = Vec::new();
    for deg in 0..cfg.output_width {
        for i in 0..radius {
            for sub in 0..cfg.deg_oversampling {
                let a = deg as f32 + sub as f32 / cfg.deg_oversampling as f32;
                xs.push((cx + i as f32 * a.to_radians().cos()).round() as u32);
                ys.push((cy + i as f32 * a.to_radians().sin()).round() as u32);
            }
        }
    }
    SamplePlan { xs, ys }
}

fn solid(width: u16, height: u16, rgba: [u8; 4], delay: u16) -> SourceFrame {
    let mut buffer = Vec::new();
    for _ in 0..(width as usize * height as usize) {
        buffer.extend_from_slice(&rgba);
    }
    SourceFrame { width, height, buffer, delay, dispose: Disposal::Any, transparent: None }
}

fn pixel(out: &OutputFrame, deg: usize, row: usize) -> [u8; 4] {
    let k = (row * out.width as usize + deg) * 4;
    [out.buffer[k], out.buffer[k + 1], out.buffer[k + 2], out.buffer[k + 3]]
}

fn run(cfg: &StripConfig, frame: &SourceFrame) -> OutputFrame {
    let plan = plan_for(cfg, frame);
    process_frame(cfg, frame, &plan)
}

#[test]
fn standard_config_values() {
    let cfg = StripConfig::standard();
    assert_eq!(cfg.output_width, 360);
    assert_eq!(cfg.output_height, 32);
    assert_eq!(cfg.deg_oversampling, 10);
    assert_eq!(cfg.center_offset, 3);
    assert_eq!(cfg.output_steps(), 35);
    assert_eq!(StripConfig::default(), cfg);
}

#[test]
fn vector_length_is_smaller_half() {
    assert_eq!(solid(64, 64, [0; 4], 0).vector_length(), 32);
    assert_eq!(solid(1, 1, [0; 4], 0).vector_length(), 0);
    assert_eq!(solid(10, 5, [0; 4], 0).vector_length(), 2);
    assert_eq!(solid(7, 30, [0; 4], 0).vector_length(), 3);
}

#[test]
fn boundary_test_is_exact() {
    // 32 / 35 * 1 is below 1, so step 1 crosses row 1.
    assert!(crosses_boundary(1, 32, 35, 1));
    // 35 * 35 == 35 * 35: equal is not past.
    assert!(!crosses_boundary(35, 35, 35, 35));
    assert!(!crosses_boundary(0, 32, 35, 0));
    assert!(crosses_boundary(36, 35, 35, 35));
}

#[test]
fn two_frame_red_blue_animation() {
    let cfg = StripConfig::standard();
    let frames = [solid(64, 64, [255, 0, 0, 255], 10), solid(64, 64, [0, 0, 255, 255], 10)];
    let colors = [[255u8, 0, 0, 255], [0u8, 0, 255, 255]];
    let mut produced = 0;
    for (frame, color) in frames.iter().zip(colors.iter()) {
        let out = run(&cfg, frame);
        produced += 1;
        assert_eq!(out.width, 360);
        assert_eq!(out.height, 32);
        assert_eq!(out.delay, 10);
        assert_eq!(out.buffer.len(), 360 * 32 * 4);
        // A radius of 32 crosses 31 of the 35 row boundaries: rows 0 to 27 are written.
        for deg in 0..360 {
            for row in 0..28 {
                assert_eq!(pixel(&out, deg, row), *color);
            }
            for row in 28..32 {
                assert_eq!(pixel(&out, deg, row), [0, 0, 0, 0]);
            }
        }
    }
    assert_eq!(produced, 2);
}

#[test]
fn zero_radius_frame_is_blank() {
    let cfg = StripConfig::standard();
    let frame = solid(1, 1, [9, 8, 7, 6], 3);
    let out = run(&cfg, &frame);
    assert_eq!(out.buffer.len(), 360 * 32 * 4);
    assert!(out.buffer.iter().all(|&b| b == 0));
    assert_eq!(out.delay, 3);
}

#[test]
fn large_frame_is_fully_opaque() {
    let cfg = StripConfig::standard();
    let mut frame = solid(100, 100, [1, 2, 3, 0], 0);
    for (k, b) in frame.buffer.iter_mut().enumerate() {
        *b = (k * 7 % 251) as u8;
    }
    let out = run(&cfg, &frame);
    assert_eq!(out.buffer.len(), 360 * 32 * 4);
    for k in (3..out.buffer.len()).step_by(4) {
        assert_eq!(out.buffer[k], 255);
    }
}

#[test]
fn uniform_color_ignores_alpha() {
    let cfg = StripConfig::standard();
    let mut frame = solid(90, 80, [12, 200, 77, 0], 0);
    for (k, b) in frame.buffer.iter_mut().enumerate() {
        if k % 4 == 3 {
            *b = (k % 256) as u8;
        }
    }
    let out = run(&cfg, &frame);
    let mut written = 0;
    for deg in 0..360 {
        for row in 0..32 {
            let p = pixel(&out, deg, row);
            if p[3] == 255 {
                written += 1;
                assert_eq!(p, [12, 200, 77, 255]);
            } else {
                assert_eq!(p, [0, 0, 0, 0]);
            }
        }
    }
    assert_eq!(written, 360 * 32);
}

#[test]
fn halves_map_to_half_turns() {
    let cfg = StripConfig::standard();
    let a = [200u8, 10, 10, 255];
    let b = [10u8, 10, 200, 255];
    let mut frame = solid(100, 100, a, 0);
    for y in 50..100usize {
        for x in 0..100usize {
            let k = (y * 100 + x) * 4;
            frame.buffer[k..k + 4].copy_from_slice(&b);
        }
    }
    let out = run(&cfg, &frame);
    // Angles grow toward increasing y: the first half turn looks at the bottom half.
    for deg in 10..171 {
        for row in 0..32 {
            assert_eq!(pixel(&out, deg, row), b);
        }
    }
    for deg in 200..341 {
        for row in 1..32 {
            assert_eq!(pixel(&out, deg, row), a);
        }
    }
    let mut a_count = 0;
    let mut b_count = 0;
    for deg in 0..360 {
        for row in 0..32 {
            let p = pixel(&out, deg, row);
            if deg >= 180 && p == a {
                a_count += 1;
            }
            if deg < 180 && p == b {
                b_count += 1;
            }
        }
    }
    assert!(a_count * 10 > 180 * 32 * 9);
    assert!(b_count * 10 > 180 * 32 * 9);
}

#[test]
fn metadata_is_carried_over() {
    let cfg = StripConfig::standard();
    for (delay, dispose, transparent) in [
        (0u16, Disposal::Any, None),
        (65535u16, Disposal::Previous, Some(0u8)),
        (7u16, Disposal::Background, Some(255u8)),
        (123u16, Disposal::Keep, Some(42u8)),
    ] {
        let mut frame = solid(20, 20, [1, 2, 3, 4], delay);
        frame.dispose = dispose;
        frame.transparent = transparent;
        let out = run(&cfg, &frame);
        assert_eq!(out.delay, delay);
        assert_eq!(out.dispose, dispose);
        assert_eq!(out.transparent, transparent);
    }
}

fn small_cfg(os: u16, offset: u16) -> StripConfig {
    StripConfig { output_width: 1, output_height: 1, deg_oversampling: os, center_offset: offset }
}

#[test]
fn window_mean_truncates() {
    // 4x4 frame: radius 2, one column, one row, two sub-samples per step.
    let cfg = small_cfg(2, 0);
    let mut frame = solid(4, 4, [0, 0, 0, 0], 0);
    let reds = [10u8, 20, 30, 41];
    for x in 0..4usize {
        frame.buffer[x * 4] = reds[x];
        frame.buffer[x * 4 + 1] = 100;
        frame.buffer[x * 4 + 2] = (x as u8) * 3;
    }
    let plan = SamplePlan { xs: vec![0, 1, 2, 3], ys: vec![0, 0, 0, 0] };
    let out = process_frame(&cfg, &frame, &plan);
    // Step 0 does not cross; step 1 crosses row 1 and writes the mean of four samples.
    assert_eq!(out.buffer, vec![25, 100, 4, 255]);
}

#[test]
fn out_of_range_points_are_clamped() {
    let cfg = small_cfg(1, 0);
    let mut frame = solid(4, 4, [0, 0, 0, 0], 0);
    let last = (15 * 4) as usize;
    frame.buffer[last..last + 4].copy_from_slice(&[50, 60, 70, 80]);
    let plan = SamplePlan { xs: vec![1000, 4], ys: vec![4, u32::MAX] };
    let out = process_frame(&cfg, &frame, &plan);
    assert_eq!(out.buffer, vec![50, 60, 70, 255]);
}

#[test]
fn center_rows_are_discarded() {
    // Steps = 2; the one crossing only passes the discarded center row.
    let cfg = small_cfg(1, 1);
    let frame = solid(4, 4, [5, 5, 5, 5], 0);
    let plan = SamplePlan { xs: vec![0, 0], ys: vec![0, 0] };
    let out = process_frame(&cfg, &frame, &plan);
    assert_eq!(out.buffer, vec![0, 0, 0, 0]);
}

#[test]
fn multi_row_windows() {
    // 12x12 frame: radius 6, steps 3; crossings at steps 1, 3 and 5.
    let cfg = StripConfig { output_width: 1, output_height: 2, deg_oversampling: 1, center_offset: 1 };
    let mut frame = solid(12, 12, [0, 0, 0, 0], 0);
    for x in 0..6usize {
        frame.buffer[x * 4] = (x as u8 + 1) * 10;
    }
    let plan = SamplePlan { xs: vec![0, 1, 2, 3, 4, 5], ys: vec![0; 6] };
    let out = process_frame(&cfg, &frame, &plan);
    // Row 0: steps 0..=3 (10+20+30+40)/4 = 25; row 1: steps 4..=5 (50+60)/2 = 55.
    assert_eq!(out.buffer, vec![25, 0, 0, 255, 55, 0, 0, 255]);
}

#[test]
fn disposal_codes_round_trip() {
    for d in [Disposal::Any, Disposal::Keep, Disposal::Background, Disposal::Previous] {
        assert_eq!(disposal_from_code(disposal_code(d)), Some(d));
    }
    assert_eq!(disposal_code(Disposal::Background), 2);
    assert_eq!(disposal_from_code(4), None);
}

#[test]
fn gif_frame_raises_alpha() {
    let out = OutputFrame {
        width: 2,
        height: 1,
        buffer: vec![1, 2, 3, 7, 4, 5, 6, 0],
        delay: 10,
        dispose: Disposal::Keep,
        transparent: None,
    };
    let (frame, pixels) = to_gif_frame(&out);
    assert_eq!(pixels, vec![1, 2, 3, 255, 4, 5, 6, 0]);
    assert_eq!(frame.width, 2);
    assert_eq!(frame.height, 1);
    assert_eq!(frame.delay, 10);
    assert_eq!(frame.dispose, gif::DisposalMethod::Keep);
}

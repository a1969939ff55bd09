use r_tools::peek::{
    bgra, copy_block, dim, load_logo, mode_title, shade_selection, swap_red_blue, to_bgra,
    window_step, Mode, PeekEvent, PngColor,
};

fn png_bytes(color: png::ColorType, w: u32, h: u32, data: &[u8]) -> Vec<u8> {
    let mut out = Vec::new();
    {
        let mut enc = png::Encoder::new(&mut out, w, h);
        enc.set_color(color);
        enc.set_depth(png::BitDepth::Eight);
        let mut writer = enc.write_header().unwrap();
        writer.write_image_data(data).unwrap();
    }
    out
}

#[test]
fn titles() {
    assert_eq!(mode_title(Mode::Stretch), "r_peek [Stretch]");
    assert_eq!(mode_title(Mode::Fit), "r_peek [Fit]");
}

#[test]
fn pixel_packing() {
    assert_eq!(bgra(&[1, 2, 3, 4]), 0x030201);
    assert_eq!(bgra(&[0xff, 0, 0]), 0x0000ff);
    assert_eq!(swap_red_blue(&[1, 2, 3, 4, 5]), vec![3, 2, 1, 4]);
    assert_eq!(swap_red_blue(&[1, 2, 3, 4, 5, 6, 7, 8]), vec![3, 2, 1, 4, 7, 6, 5, 8]);
    assert_eq!(to_bgra(PngColor::Rgb, &[1, 2, 3, 4, 5, 6]), Some(vec![3, 2, 1, 255, 6, 5, 4, 255]));
    assert_eq!(to_bgra(PngColor::Rgba, &[1, 2, 3, 4]), Some(vec![3, 2, 1, 4]));
    assert_eq!(to_bgra(PngColor::Other, &[1, 2, 3, 4]), None);
}

#[test]
fn dimming_matches_the_float_scale() {
    for v in 0u32..=255 {
        let want = (v as f32 * 0.35) as u32;
        assert_eq!(dim(v), want, "blue {v}");
        assert_eq!(dim(v << 8), want << 8, "green {v}");
        assert_eq!(dim(v << 16), want << 16, "red {v}");
    }
    assert_eq!(dim(0xFFFFFFFF), 0x595959);
}

#[test]
fn logo_decoding() {
    assert!(load_logo(b"not a png").is_none());
    let rgba = png_bytes(png::ColorType::Rgba, 1, 2, &[10, 20, 30, 40, 50, 60, 70, 80]);
    assert_eq!(load_logo(&rgba), Some((1, 2, vec![30, 20, 10, 40, 70, 60, 50, 80])));
    let rgb = png_bytes(png::ColorType::Rgb, 1, 1, &[10, 20, 30]);
    assert_eq!(load_logo(&rgb), Some((1, 1, vec![30, 20, 10, 255])));
}

#[test]
fn window_events() {
    let st = window_step(Mode::Stretch, false, false, false, PeekEvent::CloseRequested);
    assert!(st.exit && !st.redraw);
    let st = window_step(Mode::Stretch, true, true, false, PeekEvent::CursorMoved);
    assert!(st.redraw && !st.exit);
    assert!(!window_step(Mode::Stretch, false, true, false, PeekEvent::CursorMoved).redraw);
    let st = window_step(Mode::Fit, false, true, false, PeekEvent::EscapeKey);
    assert!(st.stop_capture && st.reset_crop && st.redraw && st.mode == Mode::Fit);
    let st = window_step(Mode::Stretch, false, false, false, PeekEvent::FKey);
    assert!(st.set_title && st.mode == Mode::Fit && st.redraw);
    let st = window_step(Mode::Fit, false, false, false, PeekEvent::SKey);
    assert!(st.set_title && st.mode == Mode::Stretch);
    let st = window_step(Mode::Fit, false, false, false, PeekEvent::LeftPressed);
    assert!(st.start_capture && !st.begin_selection);
    let st = window_step(Mode::Fit, false, true, false, PeekEvent::LeftPressed);
    assert!(!st.start_capture && st.begin_selection);
    let st = window_step(Mode::Fit, false, false, true, PeekEvent::LeftPressed);
    assert!(!st.start_capture && !st.begin_selection && !st.redraw);
    let st = window_step(Mode::Fit, true, true, false, PeekEvent::LeftReleased);
    assert!(st.end_selection && st.redraw);
    assert!(!window_step(Mode::Fit, false, true, false, PeekEvent::LeftReleased).end_selection);
    assert!(window_step(Mode::Fit, false, true, false, PeekEvent::RedrawRequested).paint);
    assert!(window_step(Mode::Fit, false, true, false, PeekEvent::Resized).redraw);
    let st = window_step(Mode::Fit, true, true, false, PeekEvent::Other);
    assert!(!st.exit && !st.redraw && !st.paint && st.mode == Mode::Fit);
}

#[test]
fn selection_is_outlined_and_the_rest_dimmed() {
    let mut buf = vec![0x646464u32; 16];
    shade_selection(&mut buf, 4, 4, 1, 1, 3, 3);
    let white = 0xFFFFFF;
    let dimmed = 0x232323;
    for y in 0..4 {
        for x in 0..4 {
            let inside = (1..3).contains(&x) && (1..3).contains(&y);
            assert_eq!(buf[y * 4 + x], if inside { white } else { dimmed }, "pixel {x},{y}");
        }
    }
    let mut buf = vec![0x646464u32; 36];
    shade_selection(&mut buf, 6, 6, 1, 1, 5, 5);
    assert_eq!(buf[2 * 6 + 2], 0x646464);
    assert_eq!(buf[6 + 3], white);
    assert_eq!(buf[4 * 6 + 1], white);
    assert_eq!(buf[0], dimmed);
}

#[test]
fn block_copy_places_source_pixels() {
    let src: Vec<u8> = vec![
        1, 2, 3, 0, 4, 5, 6, 0, //
        7, 8, 9, 0, 10, 11, 12, 0,
    ];
    let mut dst = vec![0u32; 6];
    copy_block(&mut dst, 3, 1, 0, &src, 8, 1, 0, 1, 2);
    assert_eq!(dst, vec![0, 0x060504, 0, 0, 0x0c0b0a, 0]);
    let mut dst = vec![7u32; 4];
    copy_block(&mut dst, 2, 0, 0, &src, 8, 0, 0, 2, 2);
    assert_eq!(dst, vec![0x030201, 0x060504, 0x090807, 0x0c0b0a]);
}

use openflow::icon::{icon_from_frame, png_icon_pixels, rgb_to_rgba, scale_nearest, DecodedImage, MENU_BAR_ICON_SIZE};

fn encode(width: u32, height: u32, color: png::ColorType, data: &[u8]) -> Vec<u8> {
    let mut out = Vec::new();
    {
        let mut enc = png::Encoder::new(&mut out, width, height);
        enc.set_color(color);
        enc.set_depth(png::BitDepth::Eight);
        let mut writer = enc.write_header().unwrap();
        writer.write_image_data(data).unwrap();
    }
    out
}

#[test]
fn rgb_gains_an_opaque_alpha() {
    assert_eq!(rgb_to_rgba(&[1, 2, 3, 4, 5, 6]), vec![1, 2, 3, 255, 4, 5, 6, 255]);
    assert_eq!(rgb_to_rgba(&[1, 2, 3, 4]), vec![1, 2, 3, 255, 4, 255]);
    assert_eq!(rgb_to_rgba(&[]), Vec::<u8>::new());
}

#[test]
fn nearest_neighbour_picks_the_left_top_source_pixel() {
    // 4x2 RGBA: pixel i has bytes [i, i, i, 255].
    let src: Vec<u8> = (0..8u8).flat_map(|i| [i, i, i, 255]).collect();
    assert_eq!(scale_nearest(&src, 4, 2, 2, 1), vec![0, 0, 0, 255, 2, 2, 2, 255]);
    assert_eq!(scale_nearest(&src, 4, 2, 1, 2), vec![0, 0, 0, 255, 4, 4, 4, 255]);
    assert_eq!(scale_nearest(&src, 4, 2, 4, 2), src);
}

#[test]
fn empty_target_gives_no_pixels() {
    let src = vec![9, 8, 7, 6];
    assert!(scale_nearest(&src, 1, 1, 0, 3).is_empty());
    assert!(scale_nearest(&src, 1, 1, 3, 0).is_empty());
    assert!(scale_nearest(&[], 0, 0, 0, 0).is_empty());
}

#[test]
fn upscaling_repeats_pixels() {
    let src = vec![9, 8, 7, 6];
    assert_eq!(scale_nearest(&src, 1, 1, 2, 2), vec![9, 8, 7, 6, 9, 8, 7, 6, 9, 8, 7, 6, 9, 8, 7, 6]);
}

#[test]
fn rgb_png_is_widened_and_scaled() {
    let data = [10, 20, 30, 40, 50, 60, 70, 80, 90, 100, 110, 120];
    let bytes = encode(2, 2, png::ColorType::Rgb, &data);
    assert_eq!(
        png_icon_pixels(&bytes, 2),
        Ok(vec![10, 20, 30, 255, 40, 50, 60, 255, 70, 80, 90, 255, 100, 110, 120, 255])
    );
    assert_eq!(png_icon_pixels(&bytes, 1), Ok(vec![10, 20, 30, 255]));
}

#[test]
fn rgba_png_keeps_its_alpha() {
    let data: Vec<u8> = (0..16u8).collect();
    let bytes = encode(2, 2, png::ColorType::Rgba, &data);
    let px = png_icon_pixels(&bytes, MENU_BAR_ICON_SIZE).unwrap();
    assert_eq!(px.len(), 22 * 22 * 4);
    assert_eq!(&px[0..4], &[0, 1, 2, 3]);
    assert_eq!(&px[px.len() - 4..], &[12, 13, 14, 15]);
}

#[test]
fn grayscale_png_is_refused() {
    let bytes = encode(1, 1, png::ColorType::Grayscale, &[200]);
    assert_eq!(png_icon_pixels(&bytes, 22), Err("unsupported color type Grayscale".to_string()));
}

#[test]
fn garbage_is_a_decoder_error() {
    let r = png_icon_pixels(b"not a png", 22);
    assert!(matches!(r, Err(ref m) if !m.is_empty()));
}

#[test]
fn frames_that_lie_about_their_size_are_refused() {
    let frame = DecodedImage { width: 1, height: 1, color_code: 6, bit_depth: 8, frame_len: 8, data: vec![0; 4] };
    assert_eq!(icon_from_frame(frame, 1), Err("decoded frame is larger than its buffer".to_string()));
    let small = DecodedImage { width: 4, height: 4, color_code: 6, bit_depth: 8, frame_len: 4, data: vec![0; 4] };
    assert_eq!(icon_from_frame(small, 4), Err("decoded frame does not fit the icon size".to_string()));
}

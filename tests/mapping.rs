use vroom_client::{AsciiRenderer, Cell, Color, Image, Pixel};

fn uniform(width: u32, height: u32, r: u8, g: u8, b: u8) -> Image {
    let pixels = vec![Pixel { r, g, b }; (width * height) as usize];
    Image { width, height, pixels }
}

fn ab_renderer() -> AsciiRenderer {
    AsciiRenderer::from_ramp(vec!['A', 'B']).unwrap()
}

#[test]
fn two_glyph_ramp_black_and_white() {
    let r = ab_renderer();
    let black = uniform(1, 1, 0, 0, 0);
    assert_eq!(r.to_ascii(&black, 1, 1), vec![Cell { ch: 'A', color: Color::Rgb(0, 0, 0) }]);
    let white = uniform(1, 1, 255, 255, 255);
    assert_eq!(
        r.to_ascii(&white, 1, 1),
        vec![Cell { ch: 'B', color: Color::Rgb(255, 255, 255) }]
    );
}

#[test]
fn mapping_twice_gives_the_same_frame() {
    let r = AsciiRenderer::new();
    let img = Image::from_rgba(2, 2, &[10, 20, 30, 0, 200, 100, 50, 0, 0, 0, 0, 0, 255, 255, 255, 0])
        .unwrap();
    assert_eq!(r.to_ascii(&img, 2, 2), r.to_ascii(&img, 2, 2));
}

#[test]
fn frame_length_is_width_times_height() {
    let r = AsciiRenderer::new();
    let img = uniform(7, 3, 90, 90, 90);
    assert_eq!(r.to_ascii(&img, 7, 3).len(), 21);
    assert_eq!(r.to_ascii(&img, 4, 2).len(), 8);
    assert_eq!(r.to_ascii(&img, 0, 3).len(), 0);
}

#[test]
fn black_maps_to_darkest_and_white_to_brightest() {
    let r = AsciiRenderer::new();
    let black = r.to_ascii(&uniform(3, 2, 0, 0, 0), 3, 2);
    assert!(black.iter().all(|c| c.ch == 't'));
    let white = r.to_ascii(&uniform(3, 2, 255, 255, 255), 3, 2);
    assert!(white.iter().all(|c| c.ch == '$'));
}

#[test]
fn brighter_gray_never_gets_an_earlier_glyph() {
    let ramp: Vec<char> = "tfjrxnuvczXYUJCLQ0OZmwqpdbkhao*#MW&8%B@$".chars().collect();
    let r = AsciiRenderer::new();
    let mut last = 0;
    for v in 0..=255u8 {
        let frame = r.to_ascii(&uniform(2, 2, v, v, v), 2, 2);
        let pos = ramp.iter().position(|&c| c == frame[0].ch).unwrap();
        assert!(frame.iter().all(|c| c.ch == frame[0].ch));
        assert!(pos >= last);
        last = pos;
    }
    assert_eq!(last, 39);
}

#[test]
fn mid_gray_and_red_select_exact_glyphs() {
    let r = AsciiRenderer::default();
    let gray = r.to_ascii(&uniform(1, 1, 128, 128, 128), 1, 1);
    assert_eq!(gray, vec![Cell { ch: 'Z', color: Color::Rgb(128, 128, 128) }]);
    let red = r.to_ascii(&uniform(1, 1, 255, 0, 0), 1, 1);
    assert_eq!(red, vec![Cell { ch: 'Y', color: Color::Rgb(255, 0, 0) }]);
}

#[test]
fn cells_follow_row_major_order_of_a_sub_block() {
    let r = ab_renderer();
    // 3 wide, 2 high; the mapped block is the left 2 columns.
    let px = |v: u8| Pixel { r: v, g: v, b: v };
    let img = Image {
        width: 3,
        height: 2,
        pixels: vec![px(0), px(255), px(1), px(254), px(2), px(3)],
    };
    let frame = r.to_ascii(&img, 2, 2);
    let chars: Vec<char> = frame.iter().map(|c| c.ch).collect();
    assert_eq!(chars, vec!['A', 'B', 'A', 'A']);
    assert_eq!(frame[2].color, Color::Rgb(254, 254, 254));
}

#[test]
fn empty_ramp_is_refused() {
    assert!(AsciiRenderer::from_ramp(Vec::new()).is_none());
    assert!(AsciiRenderer::from_ramp(vec!['x']).is_some());
}

#[test]
fn rgba_buffer_drops_alpha() {
    let img = Image::from_rgba(2, 1, &[1, 2, 3, 4, 5, 6, 7, 8]).unwrap();
    assert_eq!(img.width, 2);
    assert_eq!(img.height, 1);
    assert_eq!(img.pixels, vec![Pixel { r: 1, g: 2, b: 3 }, Pixel { r: 5, g: 6, b: 7 }]);
}

#[test]
fn rgba_buffer_too_short_gives_none() {
    assert!(Image::from_rgba(2, 1, &[1, 2, 3, 4, 5, 6, 7]).is_none());
    assert!(Image::from_rgba(1, 1, &[]).is_none());
}

#[test]
fn rgba_buffer_with_trailing_bytes_is_accepted() {
    let img = Image::from_rgba(1, 1, &[9, 8, 7, 6, 5, 4]).unwrap();
    assert_eq!(img.pixels, vec![Pixel { r: 9, g: 8, b: 7 }]);
    let empty = Image::from_rgba(0, 5, &[]).unwrap();
    assert!(empty.pixels.is_empty());
}

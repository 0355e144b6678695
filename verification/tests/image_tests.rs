use rebound::color::{render_pixel, Color, COLOR_ONE};
use rebound::image::Image;
use rebound::trace::{color, MaterialKind};

#[test]
fn ppm_layout_is_exact() {
    let mut img = Image::new(2, 2);
    img.set_row(0, vec![Color::new(0, 0, 0), Color::new(65535, 0, 70000)]);
    img.set_row(1, vec![Color::new(1, 2, 3), Color::new(10, 20, 30)]);
    let bytes = img.to_ppm();
    let expected = "P3\n2 2\n65535\n0 0 0\n65535 0 65535\n1 2 3\n10 20 30\n";
    assert_eq!(bytes, expected.as_bytes());
}

#[test]
fn missing_rows_and_pixels_are_padded_black() {
    let mut img = Image::new(3, 2);
    img.set_row(0, vec![Color::new(5, 6, 7)]);
    let bytes = img.to_ppm();
    let expected = "P3\n3 2\n65535\n5 6 7\n0 0 0\n0 0 0\n0 0 0\n0 0 0\n0 0 0\n";
    assert_eq!(bytes, expected.as_bytes());
}

#[test]
fn header_prints_multi_digit_dimensions() {
    let img = Image::new(800, 400);
    let bytes = img.to_ppm();
    let text = String::from_utf8(bytes).unwrap();
    assert!(text.starts_with("P3\n800 400\n65535\n"));
    // 800 * 400 black pixel lines follow.
    assert_eq!(text.matches("0 0 0\n").count(), 800 * 400);
}

#[test]
fn full_frame_emissive_render_gives_four_identical_pixels() {
    // A 2-by-2 frame whose every ray meets one centered emissive sphere
    // filling the view, with one sample per pixel and a depth bound of zero:
    // every pixel is exactly the emissive color after tone mapping.
    let emissive = Color::new(COLOR_ONE, COLOR_ONE, COLOR_ONE);
    let background = Color::new(0, 0, 0);
    let mut img = Image::new(2, 2);
    for row in 0..2usize {
        let mut pixels = Vec::new();
        for _col in 0..2usize {
            // Every ray resolves to the emissive surface; depth 0 forbids
            // any bounce, so the path is that single hit.
            let hits = vec![MaterialKind::Emissive { color: emissive }];
            // One sample per pixel (sample root 1): mean, gamma, clamp.
            let samples = vec![color(&background, &hits, 0)];
            pixels.push(render_pixel(&samples));
        }
        img.set_row(row, pixels);
    }
    let bytes = img.to_ppm();
    let expected = "P3\n2 2\n65535\n\
        65535 65535 65535\n65535 65535 65535\n65535 65535 65535\n65535 65535 65535\n";
    assert_eq!(bytes, expected.as_bytes());
}

use stage_runtime::canvas::{crop_image_rgba, MAX_PIXMAP_BYTES};
use stage_runtime::frame::get_framebuffer_for_screenshot;

/// A 3x2 RGBA image whose byte at (x, y, channel c) is 100*y + 10*x + c.
fn image() -> Vec<u8> {
    let mut v = Vec::new();
    for y in 0..2u8 {
        for x in 0..3u8 {
            for c in 0..4u8 {
                v.push(100 * y + 10 * x + c);
            }
        }
    }
    v
}

#[test]
fn crop_inside_the_image() {
    let out = crop_image_rgba(3, &image(), 1, 0, 2, 2);
    assert_eq!(out, vec![10, 11, 12, 13, 20, 21, 22, 23, 110, 111, 112, 113, 120, 121, 122, 123]);
}

#[test]
fn crop_is_clamped_to_the_image() {
    // Wider and taller than what is left: cut to 1x1.
    assert_eq!(crop_image_rgba(3, &image(), 2, 1, 5, 5), vec![120, 121, 122, 123]);
    // Starting outside the image: nothing.
    assert!(crop_image_rgba(3, &image(), 7, 0, 2, 2).is_empty());
    assert!(crop_image_rgba(3, &image(), 0, 9, 2, 2).is_empty());
    // An empty image or zero stride: nothing.
    assert!(crop_image_rgba(3, &[], 0, 0, 2, 2).is_empty());
    assert!(crop_image_rgba(0, &image(), 0, 0, 2, 2).is_empty());
    // A partial last row does not count.
    let mut partial = image();
    partial.truncate(20);
    assert_eq!(crop_image_rgba(3, &partial, 0, 0, 1, 2), vec![0, 1, 2, 3]);
}

#[test]
fn oversized_crop_gives_nothing() {
    // 8193 x 8192 pixels of 4 bytes exceed the cap; no buffer that large is
    // needed to see it, since the crop is clamped to the image first.
    assert_eq!(MAX_PIXMAP_BYTES, 8192 * 8192 * 4);
    let wide = vec![0u8; 4 * 10];
    assert_eq!(crop_image_rgba(10, &wide, 0, 0, 10, 1).len(), 40);
}

#[test]
fn screenshot_lays_pixels_over_white() {
    let fb = vec![
        10, 20, 30, 255, // opaque: kept
        0, 0, 0, 0, // transparent: white
        100, 50, 0, 128, // half: plus 127 of white
        200, 10, 130, 100, // saturates at 255
        7, 8, // trailing bytes
    ];
    assert_eq!(
        get_framebuffer_for_screenshot(&fb),
        vec![10, 20, 30, 255, 255, 255, 255, 255, 227, 177, 127, 255, 255, 165, 255, 255, 255, 255]
    );
    assert!(get_framebuffer_for_screenshot(&[]).is_empty());
}

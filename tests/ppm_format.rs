use raytrace::image::Image;
use raytrace::ppm::{encode, push_decimal, push_header, push_pixel_line, Rgb};

fn text(bytes: Vec<u8>) -> String {
    String::from_utf8(bytes).unwrap()
}

#[test]
fn decimal_digits() {
    for (n, s) in [(0u64, "0"), (7, "7"), (10, "10"), (255, "255"), (1000, "1000")] {
        let mut out = Vec::new();
        push_decimal(&mut out, n);
        assert_eq!(text(out), s);
    }
    let mut out = b"x".to_vec();
    push_decimal(&mut out, u64::MAX);
    assert_eq!(text(out), format!("x{}", u64::MAX));
}

#[test]
fn header_line() {
    let mut out = Vec::new();
    push_header(&mut out, 256, 144);
    assert_eq!(text(out), "P3\n256 144\n255\n");
}

#[test]
fn pixel_line_format() {
    let mut out = Vec::new();
    push_pixel_line(&mut out, Rgb { r: 255, g: 0, b: 37 });
    assert_eq!(text(out), "255 0 37\n");
}

#[test]
fn encode_in_given_order() {
    let pixels = vec![Rgb { r: 1, g: 2, b: 3 }, Rgb { r: 40, g: 50, b: 60 }];
    assert_eq!(text(encode(2, 1, &pixels)), "P3\n2 1\n255\n1 2 3\n40 50 60\n");
}

#[test]
fn encode_empty_image() {
    assert_eq!(text(encode(0, 0, &Vec::new())), "P3\n0 0\n255\n");
}

#[test]
fn new_image_is_black() {
    let img = Image::new(2, 2);
    assert_eq!(img.width(), 2);
    assert_eq!(img.height(), 2);
    assert_eq!(img.get(1, 1), Rgb { r: 0, g: 0, b: 0 });
    assert_eq!(text(img.to_ppm()), "P3\n2 2\n255\n0 0 0\n0 0 0\n0 0 0\n0 0 0\n");
}

#[test]
fn top_row_is_written_first() {
    let mut img = Image::new(2, 2);
    // row 0 is the bottom of the picture
    img.set(0, 0, Rgb { r: 1, g: 1, b: 1 });
    img.set(1, 0, Rgb { r: 2, g: 2, b: 2 });
    img.set(0, 1, Rgb { r: 3, g: 3, b: 3 });
    img.set(1, 1, Rgb { r: 4, g: 4, b: 4 });
    assert_eq!(img.get(1, 0), Rgb { r: 2, g: 2, b: 2 });
    assert_eq!(text(img.to_ppm()), "P3\n2 2\n255\n3 3 3\n4 4 4\n1 1 1\n2 2 2\n");
}

#[test]
fn set_overwrites_one_pixel() {
    let mut img = Image::new(3, 1);
    img.set(2, 0, Rgb { r: 9, g: 8, b: 7 });
    img.set(2, 0, Rgb { r: 6, g: 5, b: 4 });
    assert_eq!(text(img.to_ppm()), "P3\n3 1\n255\n0 0 0\n0 0 0\n6 5 4\n");
}

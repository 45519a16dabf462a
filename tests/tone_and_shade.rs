use raytrace::shade::{advance, begin, Bounce, PathEnd, Step};
use raytrace::tone::{image_height, quantize};

#[test]
fn height_from_width() {
    assert_eq!(image_height(256), 144);
    assert_eq!(image_height(400), 225);
    assert_eq!(image_height(15), 8);
    assert_eq!(image_height(0), 0);
    assert_eq!(image_height(u64::MAX), ((u64::MAX as u128) * 9 / 16) as u64);
}

#[test]
fn quantize_clamps() {
    assert_eq!(quantize(-300), 0);
    assert_eq!(quantize(0), 0);
    assert_eq!(quantize(128), 128);
    assert_eq!(quantize(255), 255);
    assert_eq!(quantize(256), 255);
    assert_eq!(quantize(i64::MAX), 255);
}

#[test]
fn quantize_of_gamma_corrected_half() {
    // a sum of 25.0 over 100 samples: sqrt(0.25) = 0.5, 256 * 0.5 = 128
    let g = (25.0f64 / 100.0).sqrt();
    assert_eq!(quantize((256.0 * g) as i64), 128);
}

#[test]
fn no_depth_is_dark() {
    assert_eq!(begin(0), Step::Finish(PathEnd::Dark));
    assert_eq!(begin(1), Step::Trace);
    assert_eq!(begin(5), Step::Trace);
}

#[test]
fn advance_on_each_bounce() {
    assert_eq!(advance(3, Bounce::Missed), (Step::Finish(PathEnd::Sky), 3));
    assert_eq!(advance(3, Bounce::Absorbed), (Step::Finish(PathEnd::Dark), 3));
    assert_eq!(advance(3, Bounce::Scattered), (Step::Trace, 2));
    assert_eq!(advance(1, Bounce::Scattered), (Step::Finish(PathEnd::Dark), 0));
}

#[test]
fn scattering_forever_stops_at_depth() {
    let mut depth: u64 = 5;
    let mut step = begin(depth);
    let mut traced = 0;
    while step == Step::Trace {
        traced += 1;
        let (s, d) = advance(depth, Bounce::Scattered);
        step = s;
        depth = d;
    }
    assert_eq!(traced, 5);
    assert_eq!(step, Step::Finish(PathEnd::Dark));
}

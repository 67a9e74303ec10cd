use imgconv::codec::{resize_to_limit, ImageBuf};
use imgconv::model::resolve_thread_count;

#[test]
fn imagebuf_accepts_matching_pixel_data() {
    let b = ImageBuf::new(2, 3, vec![7u8; 18]).expect("matching length");
    assert_eq!(b.width, 2);
    assert_eq!(b.height, 3);
    assert_eq!(b.pixels.len(), 18);
}

#[test]
fn imagebuf_rejects_mismatched_pixel_data() {
    assert!(ImageBuf::new(2, 2, vec![0u8; 5]).is_none());
}

#[test]
fn resize_halves_long_side() {
    let img = ImageBuf::new(100, 50, vec![128u8; 100 * 50 * 3]).expect("matching length");
    let out = resize_to_limit(img, 50).expect("well formed input");
    assert_eq!(out.width, 50);
    assert_eq!(out.height, 25);
    assert_eq!(out.pixels.len(), 50 * 25 * 3);
}

#[test]
fn resize_refuses_a_block_too_large_to_average() {
    // Shrinking 24 megapixels to a single pixel would make the resampler
    // sum one block of 24 million pixels, past its 32-bit accumulator.
    let img = ImageBuf::new(6000, 4000, vec![0u8; 6000 * 4000 * 3]).expect("matching length");
    assert!(resize_to_limit(img, 1).is_none());
}

#[test]
fn resize_accepts_an_ordinary_downscale_of_a_large_photo() {
    let img = ImageBuf::new(6000, 4000, vec![0u8; 6000 * 4000 * 3]).expect("matching length");
    let out = resize_to_limit(img, 1500).expect("blocks stay small");
    assert_eq!(out.width, 1500);
    assert_eq!(out.height, 1000);
    assert_eq!(out.pixels.len(), 1500 * 1000 * 3);
}

#[test]
fn resize_without_limit_keeps_dimensions() {
    let img = ImageBuf::new(3, 2, vec![9u8; 18]).expect("matching length");
    let out = resize_to_limit(img, 0).expect("well formed input");
    assert_eq!(out.width, 3);
    assert_eq!(out.height, 2);
    assert_eq!(out.pixels.len(), 18);
}

#[test]
fn config_new_checks_its_fields() {
    let fp = |parts: &[&str]| {
        let components: Vec<Vec<u8>> = parts.iter().map(|p| p.as_bytes().to_vec()).collect();
        imgconv::paths::FilePath::new(true, components).expect("valid components")
    };
    let good = imgconv::model::Config::new(
        fp(&["in"]),
        fp(&["out"]),
        false,
        0,
        50,
        10,
        80,
        imgconv::model::Mode::Oneshot,
        2,
    );
    assert!(good.is_some());
    let no_workers = imgconv::model::Config::new(
        fp(&["in"]),
        fp(&["out"]),
        false,
        0,
        50,
        10,
        80,
        imgconv::model::Mode::Oneshot,
        0,
    );
    assert!(no_workers.is_none());
    let quality_out_of_range = imgconv::model::Config::new(
        fp(&["in"]),
        fp(&["out"]),
        false,
        0,
        50,
        10,
        101,
        imgconv::model::Mode::Oneshot,
        1,
    );
    assert!(quality_out_of_range.is_none());
}

#[test]
fn thread_count_explicit_value_is_kept() {
    assert_eq!(resolve_thread_count(3), 3);
}

#[test]
fn thread_count_zero_autodetects_at_least_one() {
    assert!(resolve_thread_count(0) >= 1);
}

use tch_image::image::{chw_to_hwc, hwc_to_chw, load, resize, save, ImageError, Tensor};

/// A 2x2 image with 3 channels, as a height-width-channel buffer:
/// pixel (y, x) holds channel c at position (y * 2 + x) * 3 + c.
fn sample_hwc() -> Vec<u8> {
    vec![
        10, 11, 12, // (0, 0)
        20, 21, 22, // (0, 1)
        30, 31, 32, // (1, 0)
        40, 41, 42, // (1, 1)
    ]
}

#[test]
fn new_accepts_matching_buffer() {
    let t = Tensor::new(2, 2, 3, sample_hwc()).unwrap();
    assert_eq!(t.size(), (2, 2, 3));
    assert_eq!(t.get(0, 0, 0), 10);
    assert_eq!(t.get(0, 1, 2), 22);
    assert_eq!(t.get(1, 1, 1), 41);
}

#[test]
fn new_rejects_short_buffer() {
    assert!(matches!(
        Tensor::new(2, 2, 3, vec![0; 11]),
        Err(ImageError::SizeMismatch)
    ));
}

#[test]
fn new_rejects_long_buffer() {
    assert!(matches!(
        Tensor::new(2, 2, 3, vec![0; 13]),
        Err(ImageError::SizeMismatch)
    ));
}

#[test]
fn new_accepts_empty_shape() {
    let t = Tensor::new(usize::MAX, 0, 7, Vec::new()).unwrap();
    assert_eq!(t.size(), (usize::MAX, 0, 7));
}

#[test]
fn new_rejects_overflowing_shape() {
    assert!(matches!(
        Tensor::new(usize::MAX, 2, 2, vec![0; 16]),
        Err(ImageError::SizeMismatch)
    ));
}

#[test]
fn into_data_returns_buffer() {
    let t = Tensor::new(2, 2, 3, sample_hwc()).unwrap();
    assert_eq!(t.into_data(), sample_hwc());
}

#[test]
fn hwc_to_chw_permutes_axes() {
    let t = Tensor::new(2, 2, 3, sample_hwc()).unwrap();
    let r = hwc_to_chw(&t);
    assert_eq!(r.size(), (3, 2, 2));
    // Channel planes come out whole: plane c holds the pixels in row-major
    // order.
    assert_eq!(
        r.into_data(),
        vec![
            10, 20, 30, 40, // channel 0
            11, 21, 31, 41, // channel 1
            12, 22, 32, 42, // channel 2
        ]
    );
}

#[test]
fn chw_to_hwc_permutes_axes() {
    let chw = vec![
        10, 20, 30, 40, // channel 0
        11, 21, 31, 41, // channel 1
        12, 22, 32, 42, // channel 2
    ];
    let t = Tensor::new(3, 2, 2, chw).unwrap();
    let r = chw_to_hwc(&t);
    assert_eq!(r.size(), (2, 2, 3));
    assert_eq!(r.into_data(), sample_hwc());
}

#[test]
fn conversions_roundtrip() {
    let t = Tensor::new(2, 2, 3, sample_hwc()).unwrap();
    let back = chw_to_hwc(&hwc_to_chw(&t));
    assert_eq!(back.size(), (2, 2, 3));
    assert_eq!(back.into_data(), sample_hwc());
}

#[test]
fn load_builds_chw_tensor() {
    let t = load(2, 2, 3, sample_hwc()).unwrap();
    assert_eq!(t.size(), (3, 2, 2));
    let hwc = sample_hwc();
    for y in 0..2 {
        for x in 0..2 {
            for c in 0..3 {
                assert_eq!(t.get(c, y, x), hwc[(y * 2 + x) * 3 + c]);
            }
        }
    }
}

#[test]
fn load_rejects_size_mismatch() {
    assert!(matches!(load(2, 2, 3, vec![0; 5]), Err(ImageError::SizeMismatch)));
}

#[test]
fn load_accepts_empty_image() {
    let t = load(0, 4, 3, Vec::new()).unwrap();
    assert_eq!(t.size(), (3, 0, 4));
}

#[test]
fn save_restores_hwc_buffer() {
    let t = load(2, 2, 3, sample_hwc()).unwrap();
    assert_eq!(save(&t), sample_hwc());
}

#[test]
fn save_of_single_pixel() {
    let t = load(1, 1, 3, vec![5, 6, 7]).unwrap();
    assert_eq!(save(&t), vec![5, 6, 7]);
}

#[test]
fn resize_folds_resized_buffer_back() {
    let t = load(1, 1, 2, vec![9, 7]).unwrap();
    // A native resize to 2x2 would hand back an HWC buffer of 2*2*2 bytes.
    let resized = vec![
        1, 2, // (0, 0)
        3, 4, // (0, 1)
        5, 6, // (1, 0)
        7, 8, // (1, 1)
    ];
    let u = resize(&t, 2, 2, resized.clone()).unwrap();
    assert_eq!(u.size(), (2, 2, 2));
    for y in 0..2 {
        for x in 0..2 {
            for c in 0..2 {
                assert_eq!(u.get(c, y, x), resized[(y * 2 + x) * 2 + c]);
            }
        }
    }
}

#[test]
fn resize_rejects_wrong_buffer_size() {
    let t = load(1, 1, 2, vec![9, 7]).unwrap();
    assert!(matches!(
        resize(&t, 2, 2, vec![0; 7]),
        Err(ImageError::SizeMismatch)
    ));
}

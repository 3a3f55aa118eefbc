use mconv::resize::{resize_nearest, ResizeAlgorithm};

#[test]
fn test_nearest_identity() {
    let data: Vec<u8> = (0u8..2 * 2 * 4).collect();
    let out = resize_nearest(&data, 2, 2, 2, 2);
    assert_eq!(out, data);
}

#[test]
fn test_nearest_identity_rectangular() {
    let data: Vec<u8> = (0u8..3 * 2 * 4).collect();
    let out = resize_nearest(&data, 3, 2, 3, 2);
    assert_eq!(out, data);
}

#[test]
fn test_nearest_downscale_picks_top_left() {
    let data = vec![
        1, 2, 3, 4, 5, 6, 7, 8, // row 0
        9, 10, 11, 12, 13, 14, 15, 16, // row 1
    ];
    let out = resize_nearest(&data, 2, 2, 1, 1);
    assert_eq!(out, vec![1, 2, 3, 4]);
}

#[test]
fn test_nearest_upscale_single_pixel() {
    let data = vec![9, 8, 7, 6];
    let out = resize_nearest(&data, 1, 1, 3, 3);
    assert_eq!(out.len(), 3 * 3 * 4);
    for p in 0..9 {
        assert_eq!(&out[p * 4..p * 4 + 4], &[9, 8, 7, 6]);
    }
}

#[test]
fn test_nearest_downscale_columns() {
    // 4 columns to 2: destination x picks source x*4/2 = 0 and 2
    let data = vec![
        10, 0, 0, 255, 20, 0, 0, 255, 30, 0, 0, 255, 40, 0, 0, 255,
    ];
    let out = resize_nearest(&data, 4, 1, 2, 1);
    assert_eq!(out, vec![10, 0, 0, 255, 30, 0, 0, 255]);
}

#[test]
fn test_nearest_uniform_source_stays_uniform() {
    let data: Vec<u8> = [17, 34, 51, 68].repeat(2 * 2);
    let out = resize_nearest(&data, 2, 2, 5, 3);
    assert_eq!(out.len(), 5 * 3 * 4);
    for p in 0..15 {
        assert_eq!(&out[p * 4..p * 4 + 4], &[17, 34, 51, 68]);
    }
}

#[test]
fn test_algorithm_selector_variants() {
    // the selector is shared with the floating-point kernels of the host
    // layer; the library itself dispatches only the nearest kernel
    let kinds = [
        ResizeAlgorithm::Nearest,
        ResizeAlgorithm::Bilinear,
        ResizeAlgorithm::Bicubic,
        ResizeAlgorithm::Lanczos,
    ];
    assert_eq!(kinds[0], ResizeAlgorithm::Nearest);
    assert!(kinds[1] != kinds[2]);
    let copy = kinds[3];
    assert_eq!(copy, ResizeAlgorithm::Lanczos);
}

use quar_engine::features::grayscale::{pixel_to_grayscale, rgba_to_grayscale};

#[test]
fn test_white_pixel() {
    let result = pixel_to_grayscale(255, 255, 255);
    assert_eq!(result, 255);
}

#[test]
fn test_black_pixel() {
    let result = pixel_to_grayscale(0, 0, 0);
    assert_eq!(result, 0);
}

#[test]
fn test_red_pixel() {
    let result = pixel_to_grayscale(255, 0, 0);
    assert!(result >= 75 && result <= 78);
}

#[test]
fn test_green_pixel() {
    let result = pixel_to_grayscale(0, 255, 0);
    assert!(result >= 148 && result <= 151);
}

#[test]
fn test_blue_pixel() {
    let result = pixel_to_grayscale(0, 0, 255);
    assert!(result >= 27 && result <= 30);
}

#[test]
fn grayscale_test_rgba_to_grayscale() {
    let rgba = vec![
        255, 255, 255, 255, // White
        0, 0, 0, 255, // Black
        255, 0, 0, 255, // Red
        0, 255, 0, 255, // Green
    ];
    let grayscale = rgba_to_grayscale(&rgba);
    assert_eq!(grayscale.len(), 4);
    assert_eq!(grayscale[0], 255); // White
    assert_eq!(grayscale[1], 0); // Black
}

#[test]
fn test_empty_input() {
    let rgba: Vec<u8> = vec![];
    let grayscale = rgba_to_grayscale(&rgba);
    assert!(grayscale.is_empty());
}

#[test]
fn test_large_image() {
    let rgba = vec![128u8; 640 * 480 * 4];
    let grayscale = rgba_to_grayscale(&rgba);
    assert_eq!(grayscale.len(), 640 * 480);
    assert!(grayscale.iter().all(|&v| v == grayscale[0]));
}

#[test]
fn pixel_formula_exact_values() {
    // (77*R + 150*G + 29*B) >> 8
    assert_eq!(pixel_to_grayscale(255, 0, 0), 76);
    assert_eq!(pixel_to_grayscale(0, 255, 0), 149);
    assert_eq!(pixel_to_grayscale(0, 0, 255), 28);
    assert_eq!(pixel_to_grayscale(10, 20, 30), ((77 * 10 + 150 * 20 + 29 * 30) >> 8) as u8);
}

#[test]
fn trailing_bytes_of_partial_pixel() {
    // a trailing group of 3 bytes is one more pixel
    let g = rgba_to_grayscale(&[0, 0, 0, 255, 255, 255, 255]);
    assert_eq!(g, vec![0, 255]);
    // a trailing group of 1 or 2 bytes is ignored
    assert_eq!(rgba_to_grayscale(&[255, 255, 255, 255, 9]).len(), 1);
    assert_eq!(rgba_to_grayscale(&[255, 255, 255, 255, 9, 9]).len(), 1);
}

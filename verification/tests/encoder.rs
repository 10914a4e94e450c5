use image::DynamicImage;
use mandelbrot::encoder::{check_image, encode_image, EncodeError};
use mandelbrot::escape::escape_time;
use mandelbrot::render::render;
use num::Complex;

fn decode(bytes: &[u8]) -> (u32, u32, Vec<u8>) {
    match image::load_from_memory(bytes) {
        Ok(DynamicImage::ImageLuma8(buffer)) => (buffer.width(), buffer.height(), buffer.into_raw()),
        Ok(_) => panic!("the image is not 8-bit grayscale"),
        Err(e) => panic!("the image does not decode: {}", e),
    }
}

#[test]
fn encode_image_writes_a_png_signature() {
    let bytes = encode_image(&[0, 64, 128, 255], (2, 2)).unwrap();
    assert_eq!(&bytes[..8], &[137, 80, 78, 71, 13, 10, 26, 10]);
    assert_ne!(bytes, vec![0, 64, 128, 255]);
}

#[test]
fn encode_image_decodes_to_the_same_pixels() {
    let pixels: Vec<u8> = (0..35).map(|i| (i * 7) as u8).collect();
    let bytes = encode_image(&pixels, (7, 5)).unwrap();
    assert_eq!(decode(&bytes), (7, 5, pixels));
}

#[test]
fn encode_image_keeps_width_and_height_apart() {
    let pixels: Vec<u8> = (0..6).collect();
    let wide = encode_image(&pixels, (3, 2)).unwrap();
    let high = encode_image(&pixels, (2, 3)).unwrap();
    assert_eq!(decode(&wide), (3, 2, pixels.clone()));
    assert_eq!(decode(&high), (2, 3, pixels));
}

#[test]
fn encode_image_of_one_pixel() {
    let bytes = encode_image(&[200], (1, 1)).unwrap();
    assert_eq!(decode(&bytes), (1, 1, vec![200]));
}

#[test]
fn encode_image_is_the_same_when_asked_twice() {
    let pixels: Vec<u8> = (0..200).map(|i| (i % 256) as u8).collect();
    assert_eq!(encode_image(&pixels, (20, 10)), encode_image(&pixels, (20, 10)));
}

#[test]
fn encode_image_rejects_a_buffer_of_another_size() {
    assert_eq!(encode_image(&[1, 2, 3], (2, 2)), Err(EncodeError::SizeMismatch));
    assert_eq!(encode_image(&[1, 2, 3, 4, 5], (2, 2)), Err(EncodeError::SizeMismatch));
    assert_eq!(encode_image(&[], (2, 2)), Err(EncodeError::SizeMismatch));
    assert_eq!(encode_image(&[1], (0, 0)), Err(EncodeError::SizeMismatch));
    assert_eq!(encode_image(&[1], (usize::MAX, usize::MAX)), Err(EncodeError::SizeMismatch));
}

#[test]
fn encode_image_rejects_an_image_without_pixels() {
    assert_eq!(encode_image(&[], (0, 0)), Err(EncodeError::EmptyImage));
    assert_eq!(encode_image(&[], (0, 4)), Err(EncodeError::EmptyImage));
    assert_eq!(encode_image(&[], (4, 0)), Err(EncodeError::EmptyImage));
}

#[test]
fn check_image_gives_the_dimensions() {
    assert_eq!(check_image(6, (2, 3)), Ok((2, 3)));
    assert_eq!(check_image(10000, (100, 100)), Ok((100, 100)));
    assert_eq!(check_image(5, (2, 3)), Err(EncodeError::SizeMismatch));
    assert_eq!(check_image(0, (0, 3)), Err(EncodeError::EmptyImage));
}

#[test]
fn check_image_rejects_a_dimension_beyond_32_bits() {
    let wide = (u32::MAX as usize).saturating_add(1);
    if wide > u32::MAX as usize {
        assert_eq!(check_image(wide, (wide, 1)), Err(EncodeError::TooLarge));
        assert_eq!(check_image(wide, (1, wide)), Err(EncodeError::TooLarge));
    }
    assert_eq!(check_image(u32::MAX as usize, (u32::MAX as usize, 1)).is_ok(), usize::BITS > 32);
}

#[test]
fn a_rendered_view_decodes_to_what_was_rendered() {
    let bounds = (100, 100);
    let upper_left = Complex { re: -1.20, im: 0.35 };
    let lower_right = Complex { re: -1.0, im: 0.20 };
    let width = lower_right.re - upper_left.re;
    let height = upper_left.im - lower_right.im;
    let mut pixels = vec![0u8; bounds.0 * bounds.1];
    render(
        &mut pixels,
        bounds,
        |col: usize, row: usize| Complex {
            re: upper_left.re + col as f64 * width / bounds.0 as f64,
            im: upper_left.im - row as f64 * height / bounds.1 as f64,
        },
        |c: Complex<f64>, limit: usize| {
            escape_time(
                Complex { re: 0.0, im: 0.0 },
                limit,
                |z: &Complex<f64>| z.norm_sqr() > 4.0,
                |z: Complex<f64>| z * z + c,
            )
        },
    );
    let bytes = encode_image(&pixels, bounds).unwrap();
    let (decoded_width, decoded_height, decoded) = decode(&bytes);
    assert_eq!(decoded_width, 100);
    assert_eq!(decoded_height, 100);
    assert_eq!(decoded.len(), 10000);
    assert_eq!(decoded, pixels);
    assert!(pixels.iter().any(|p| *p != pixels[0]));
}

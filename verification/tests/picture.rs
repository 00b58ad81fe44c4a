use image_ffi::loader::ProcessError;
use image_ffi::picture::{decode_image, finished_image, RgbaImageData};

fn png_bytes(width: u32, height: u32, pixels: Vec<u8>) -> Vec<u8> {
    let img = image::RgbaImage::from_raw(width, height, pixels).unwrap();
    let mut out = std::io::Cursor::new(Vec::new());
    img.write_to(&mut out, image::ImageFormat::Png).unwrap();
    out.into_inner()
}

#[test]
fn decoding_a_png_gives_its_pixels() {
    let pixels: Vec<u8> = (0..24).collect();
    let bytes = png_bytes(3, 2, pixels.clone());
    let decoded = decode_image(&bytes).unwrap();
    assert_eq!(decoded, RgbaImageData { width: 3, height: 2, pixels });
}

#[test]
fn decoding_garbage_fails() {
    let res = decode_image(b"definitely not a picture");
    assert!(matches!(res, Err(ProcessError::ImageError(_))));
}

#[test]
fn finished_image_needs_enough_pixels() {
    assert_eq!(
        finished_image(2, 2, vec![7u8; 16]),
        Ok(RgbaImageData { width: 2, height: 2, pixels: vec![7u8; 16] })
    );
    assert_eq!(finished_image(2, 2, vec![7u8; 15]), Err(ProcessError::CorruptedImage));
    assert!(finished_image(2, 2, vec![7u8; 17]).is_ok());
    if usize::BITS == 64 {
        assert_eq!(finished_image(u32::MAX, u32::MAX, vec![]), Err(ProcessError::CorruptedImage));
    }
}

#[test]
fn finished_image_of_zero_height_needs_no_pixels() {
    if usize::BITS == 64 {
        assert_eq!(
            finished_image(u32::MAX, 0, vec![]),
            Ok(RgbaImageData { width: u32::MAX, height: 0, pixels: vec![] })
        );
    }
}

#[test]
fn decoded_pixels_have_four_bytes_each() {
    let bytes = png_bytes(5, 3, vec![9u8; 60]);
    let decoded = decode_image(&bytes).unwrap();
    assert_eq!(decoded.pixels.len(), 4 * decoded.width as usize * decoded.height as usize);
    assert_eq!((decoded.width, decoded.height), (5, 3));
}

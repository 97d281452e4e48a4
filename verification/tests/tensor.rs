use hcaptcha_solver::error::Error;
use hcaptcha_solver::tensor::{
    get_image, is_resizable, picture_tensor, tensor_of_decoded, to_planar, Picture, IMAGE_DIM,
    TENSOR_LEN,
};
use std::io::Cursor;

fn png(width: u32, height: u32, data: Vec<u8>) -> Vec<u8> {
    let picture = image::RgbImage::from_raw(width, height, data).unwrap();
    let mut encoded = Vec::new();
    picture
        .write_to(&mut Cursor::new(&mut encoded), image::ImageOutputFormat::Png)
        .unwrap();
    encoded
}

const SIDE: usize = 64;

fn value(tensor: &[u8], channel: usize, x: usize, y: usize) -> u8 {
    tensor[channel * SIDE * SIDE + y * SIDE + x]
}

#[test]
fn planar_layout() {
    assert_eq!(to_planar(&vec![1, 2, 3, 4, 5, 6]), vec![1, 4, 2, 5, 3, 6]);
    assert_eq!(to_planar(&vec![10, 20, 30]), vec![10, 20, 30]);
    assert_eq!(to_planar(&Vec::new()), Vec::<u8>::new());
    assert_eq!(
        to_planar(&vec![1, 2, 3, 4, 5, 6, 7, 8, 9, 10, 11, 12]),
        vec![1, 4, 7, 10, 2, 5, 8, 11, 3, 6, 9, 12]
    );
}

#[test]
fn planar_layout_leaves_out_a_broken_pixel() {
    assert_eq!(to_planar(&vec![1, 2, 3, 4]), vec![1, 2, 3]);
    assert_eq!(to_planar(&vec![1, 2]), Vec::<u8>::new());
}

#[test]
fn sizes() {
    assert_eq!(IMAGE_DIM, 64);
    assert_eq!(TENSOR_LEN, 3 * 64 * 64);
}

#[test]
fn a_picture_of_four_colours() {
    // red, green / blue, white
    let encoded = png(2, 2, vec![255, 0, 0, 0, 255, 0, 0, 0, 255, 255, 255, 255]);
    let tensor = get_image(&encoded).unwrap();
    assert_eq!(tensor.len(), TENSOR_LEN);
    for (x, y, colour) in [
        (0, 0, [255, 0, 0]),
        (31, 31, [255, 0, 0]),
        (32, 0, [0, 255, 0]),
        (63, 31, [0, 255, 0]),
        (0, 32, [0, 0, 255]),
        (31, 63, [0, 0, 255]),
        (32, 32, [255, 255, 255]),
        (63, 63, [255, 255, 255]),
    ] {
        for channel in 0..3 {
            assert_eq!(value(&tensor, channel, x, y), colour[channel], "{} {} {}", channel, x, y);
        }
    }
}

#[test]
fn a_picture_of_the_right_size_is_only_laid_out_anew() {
    let mut data = Vec::new();
    for pixel in 0..(SIDE * SIDE) {
        data.push((pixel % 251) as u8);
        data.push((pixel % 7) as u8);
        data.push((pixel / 64) as u8);
    }
    let tensor = get_image(&png(64, 64, data.clone())).unwrap();
    assert_eq!(tensor, to_planar(&data));
}

#[test]
fn a_large_picture_is_sampled() {
    let mut data = Vec::new();
    for y in 0..128u32 {
        for x in 0..128u32 {
            data.extend_from_slice(&[x as u8, y as u8, 7]);
        }
    }
    let tensor = get_image(&png(128, 128, data)).unwrap();
    assert_eq!(tensor.len(), TENSOR_LEN);
    for (x, y) in [(0usize, 0usize), (10, 20), (63, 63)] {
        let red = value(&tensor, 0, x, y) as usize;
        let green = value(&tensor, 1, x, y) as usize;
        assert!(red == 2 * x || red == 2 * x + 1, "{}", red);
        assert!(green == 2 * y || green == 2 * y + 1, "{}", green);
        assert_eq!(value(&tensor, 2, x, y), 7);
    }
}

#[test]
fn the_same_bytes_give_the_same_tensor() {
    let encoded = png(3, 5, (0..45).collect());
    assert_eq!(get_image(&encoded).unwrap(), get_image(&encoded).unwrap());
}

#[test]
fn bytes_that_are_no_image() {
    for bytes in [&b""[..], &b"not an image"[..], &[0x89, b'P', b'N', b'G', 1, 2, 3][..]] {
        match get_image(bytes) {
            Err(Error::ImageDecodeFailure(why)) => assert!(!why.is_empty()),
            other => panic!("{:?}", other),
        }
    }
}

#[test]
fn a_cut_off_image() {
    let encoded = png(16, 16, vec![9; 16 * 16 * 3]);
    assert!(matches!(
        get_image(&encoded[..encoded.len() / 2]),
        Err(Error::ImageDecodeFailure(_))
    ));
}

#[test]
fn what_can_be_resized() {
    let picture = |width, height, len| Picture { width, height, data: vec![0; len] };
    assert!(is_resizable(&picture(1, 1, 3)));
    assert!(is_resizable(&picture(4, 2, 24)));
    assert!(!is_resizable(&picture(0, 1, 0)));
    assert!(!is_resizable(&picture(1, 0, 0)));
    assert!(!is_resizable(&picture(1, 1, 2)));
    assert!(!is_resizable(&picture(1, 1, 4)));
    assert!(!is_resizable(&picture(u32::MAX, u32::MAX, 3)));
}

#[test]
fn the_tensor_of_a_single_pixel() {
    let tensor = picture_tensor(Picture { width: 1, height: 1, data: vec![1, 2, 3] });
    assert_eq!(tensor.len(), TENSOR_LEN);
    assert!(tensor[..4096].iter().all(|v| *v == 1));
    assert!(tensor[4096..8192].iter().all(|v| *v == 2));
    assert!(tensor[8192..].iter().all(|v| *v == 3));
}

#[test]
fn what_a_decoder_made_of_the_bytes() {
    let picture = Picture { width: 2, height: 1, data: vec![1, 2, 3, 4, 5, 6] };
    let tensor = tensor_of_decoded(Ok(picture)).unwrap();
    assert_eq!(tensor.len(), TENSOR_LEN);
    for channel in 0..3 {
        assert_eq!(value(&tensor, channel, 0, 0), 1 + channel as u8);
        assert_eq!(value(&tensor, channel, 31, 63), 1 + channel as u8);
        assert_eq!(value(&tensor, channel, 32, 0), 4 + channel as u8);
        assert_eq!(value(&tensor, channel, 63, 63), 4 + channel as u8);
    }
    match tensor_of_decoded(Ok(Picture { width: 2, height: 1, data: vec![1, 2, 3] })) {
        Err(Error::ImageDecodeFailure(why)) => assert_eq!(why, "the picture cannot be resized"),
        other => panic!("{:?}", other),
    }
    match tensor_of_decoded(Err("no image".to_string())) {
        Err(Error::ImageDecodeFailure(why)) => assert_eq!(why, "no image"),
        other => panic!("{:?}", other),
    }
}

#[test]
fn a_jpeg_of_one_colour() {
    let picture = image::RgbImage::from_raw(16, 16, [200u8, 40, 90].repeat(256)).unwrap();
    let mut encoded = Vec::new();
    picture
        .write_to(&mut Cursor::new(&mut encoded), image::ImageOutputFormat::Jpeg(95))
        .unwrap();
    let tensor = get_image(&encoded).unwrap();
    assert_eq!(tensor.len(), TENSOR_LEN);
    // The decoder's rounding is its own: the colour comes back within a few steps.
    for (channel, wanted) in [200i32, 40, 90].into_iter().enumerate() {
        for (x, y) in [(0, 0), (17, 40), (63, 63)] {
            let got = value(&tensor, channel, x, y) as i32;
            assert!((got - wanted).abs() <= 6, "{} {} {}: {}", channel, x, y, got);
        }
    }
}

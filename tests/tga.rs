use porter::file_types::ImageFileType;
use porter::tga::{from_tga, is_format_srgb, pick_format, to_tga, Image, ImageFormat, TextureError};

fn gray(width: u32, height: u32, frames: Vec<Vec<u8>>) -> Image {
    Image { width, height, format: ImageFormat::R8Unorm, frames }
}

#[test]
fn pick_format_maps_to_gray_or_bgra() {
    assert_eq!(pick_format(ImageFormat::R1Unorm), ImageFormat::R8Unorm);
    assert_eq!(pick_format(ImageFormat::R16Float), ImageFormat::R8Unorm);
    assert_eq!(pick_format(ImageFormat::Bc4Snorm), ImageFormat::R8Unorm);
    assert_eq!(pick_format(ImageFormat::Bc7UnormSrgb), ImageFormat::B8G8R8A8UnormSrgb);
    assert_eq!(pick_format(ImageFormat::Bc1Unorm), ImageFormat::B8G8R8A8Unorm);
    assert_eq!(pick_format(ImageFormat::R8G8B8A8Unorm), ImageFormat::B8G8R8A8Unorm);
    assert!(is_format_srgb(ImageFormat::R8G8B8A8UnormSrgb));
    assert!(!is_format_srgb(ImageFormat::R8Unorm));
}

#[test]
fn header_and_packets_of_a_gray_row() {
    let bytes = to_tga(&gray(5, 1, vec![vec![5, 5, 5, 1, 2]])).unwrap();
    let mut expected = vec![0u8, 0, 11, 0, 0, 0, 0, 0, 0, 0, 0, 0, 5, 0, 1, 0, 8, 32];
    expected.extend_from_slice(&[0x82, 5, 0x01, 1, 2]);
    assert_eq!(bytes, expected);
}

#[test]
fn long_runs_are_split_at_128_pixels() {
    let bytes = to_tga(&gray(130, 1, vec![vec![9u8; 130]])).unwrap();
    assert_eq!(&bytes[18..], &[0xFF, 9, 0x81, 9]);
}

#[test]
fn bgra_frames_are_stacked() {
    let px = [1u8, 2, 3, 4];
    let frame: Vec<u8> = px.iter().chain(px.iter()).copied().collect();
    let image = Image { width: 2, height: 1, format: ImageFormat::B8G8R8A8Unorm, frames: vec![frame.clone(), frame] };
    let bytes = to_tga(&image).unwrap();
    assert_eq!(bytes[2], 10);
    assert_eq!(&bytes[12..18], &[2, 0, 2, 0, 32, 32]);
    assert_eq!(&bytes[18..], &[0x81, 1, 2, 3, 4, 0x81, 1, 2, 3, 4]);
}

#[test]
fn rows_are_encoded_separately() {
    let bytes = to_tga(&gray(2, 2, vec![vec![3, 3, 3, 3]])).unwrap();
    assert_eq!(&bytes[18..], &[0x81, 3, 0x81, 3]);
}

#[test]
fn at_most_six_frames_are_written() {
    let frames = vec![vec![7u8]; 8];
    let bytes = to_tga(&gray(1, 1, frames)).unwrap();
    assert_eq!(&bytes[14..16], &[6, 0]);
    assert_eq!(bytes.len(), 18 + 6 * 2);
}

#[test]
fn unsupported_format_is_rejected() {
    let image = Image { width: 1, height: 1, format: ImageFormat::Bc1Unorm, frames: vec![vec![0]] };
    assert_eq!(to_tga(&image), Err(TextureError::ContainerFormatInvalid(ImageFormat::Bc1Unorm, ImageFileType::Tga)));
}

#[test]
fn oversized_image_is_rejected() {
    assert_eq!(to_tga(&gray(70000, 0, vec![])), Err(TextureError::InvalidImageSize(70000, 0)));
    let frames = vec![vec![]; 2];
    assert_eq!(to_tga(&gray(0, 40000, frames)), Err(TextureError::InvalidImageSize(0, 80000)));
}

fn header(image_type: u8, width: u16, height: u16, bits: u8) -> Vec<u8> {
    let mut h = vec![0u8, 0, image_type, 0, 0, 0, 0, 0, 0, 0, 0, 0];
    h.extend_from_slice(&width.to_le_bytes());
    h.extend_from_slice(&height.to_le_bytes());
    h.push(bits);
    h.push(32);
    h
}

#[test]
fn written_gray_image_reads_back() {
    let pixels = vec![5u8, 5, 5, 1, 2, 9, 9, 9, 9, 9];
    let bytes = to_tga(&gray(5, 2, vec![pixels.clone()])).unwrap();
    let image = from_tga(&bytes).unwrap();
    assert_eq!((image.width, image.height, image.format), (5, 2, ImageFormat::R8Unorm));
    assert_eq!(image.frames, vec![pixels]);
}

#[test]
fn written_bgra_image_reads_back() {
    let pixels: Vec<u8> = vec![1, 2, 3, 4, 1, 2, 3, 4, 9, 8, 7, 6];
    let image = Image { width: 3, height: 1, format: ImageFormat::B8G8R8A8Unorm, frames: vec![pixels.clone()] };
    let back = from_tga(&to_tga(&image).unwrap()).unwrap();
    assert_eq!(back.format, ImageFormat::B8G8R8A8Unorm);
    assert_eq!(back.frames, vec![pixels]);
}

#[test]
fn uncompressed_image_is_read_after_its_id() {
    let mut bytes = header(3, 2, 1, 8);
    bytes[0] = 2;
    bytes.extend_from_slice(&[0xAA, 0xBB, 7, 8, 0xFF]);
    let image = from_tga(&bytes).unwrap();
    assert_eq!(image.frames, vec![vec![7, 8]]);
}

#[test]
fn reader_rejects_bad_streams() {
    assert_eq!(from_tga(&vec![0u8; 10]).err(), Some(TextureError::InvalidData));
    let mut mapped = header(3, 1, 1, 8);
    mapped[1] = 1;
    mapped.push(0);
    assert_eq!(from_tga(&mapped).err(), Some(TextureError::ContainerInvalid(ImageFileType::Tga)));
    let mut sixteen = header(3, 1, 1, 16);
    sixteen.extend_from_slice(&[0, 0]);
    assert_eq!(from_tga(&sixteen).err(), Some(TextureError::ContainerInvalid(ImageFileType::Tga)));
    let mut short = header(2, 2, 2, 32);
    short.extend_from_slice(&[0; 15]);
    assert_eq!(from_tga(&short).err(), Some(TextureError::InvalidData));
    let mut overrun = header(11, 2, 1, 8);
    overrun.extend_from_slice(&[0x82, 4]);
    assert_eq!(from_tga(&overrun).err(), Some(TextureError::InvalidData));
    let mut unknown = header(1, 1, 1, 8);
    unknown.push(0);
    assert_eq!(from_tga(&unknown).err(), Some(TextureError::ContainerInvalid(ImageFileType::Tga)));
}

use nftgen::{Image, ImageBuilder, Layer, NftgenError};

const PNG: [u8; 67] = [
    0x89, 0x50, 0x4e, 0x47, 0xd, 0xa, 0x1a, 0xa, 0x0, 0x0, 0x0, 0xd, 0x49, 0x48, 0x44, 0x52,
    0x0, 0x0, 0x0, 0x1, 0x0, 0x0, 0x0, 0x1, 0x8, 0x6, 0x0, 0x0, 0x0, 0x1f, 0x15, 0xc4, 0x89,
    0x0, 0x0, 0x0, 0xa, 0x49, 0x44, 0x41, 0x54, 0x78, 0x9c, 0x63, 0x0, 0x1, 0x0, 0x0, 0x5, 0x0,
    0x1, 0xd, 0xa, 0x2d, 0xb4, 0x0, 0x0, 0x0, 0x0, 0x49, 0x45, 0x4e, 0x44, 0xae, 0x42, 0x60,
    0x82,
];

#[test]
fn transparent_layers() {
    let image = Image::new(vec![0, 0, 0, 0], 4, 1, 1);
    let mut bkg_image = image.clone();
    let eyes_image = image.clone();

    bkg_image.stack(&[eyes_image]);
    assert_eq!(image.data, bkg_image.data);
}

#[test]
fn layers_with_content() {
    let mut bkg_image = Image::new(vec![1, 0, 0, 1], 4, 1, 1);
    let eyes_image = Image::new(vec![0, 1, 1, 0], 4, 1, 1);

    bkg_image.stack(&[eyes_image]);
    assert_eq!(bkg_image.data, vec![0, 1, 1, 0]);
}

#[test]
fn layers_with_two_pixels() {
    let mut bkg_image = Image::new(vec![1, 0, 0, 1, 1, 1, 1, 1], 4, 1, 1);
    let eyes_image = Image::new(vec![0, 0, 0, 0, 1, 0, 0, 0], 4, 1, 1);

    bkg_image.stack(&[eyes_image]);
    assert_eq!(bkg_image.data, vec![1, 0, 0, 1, 1, 0, 0, 0]);
}

#[test]
fn three_layers() {
    let mut bkg_image = Image::new(vec![0, 0, 1], 1, 1, 1);
    let eyes_image = Image::new(vec![1, 0, 0], 1, 1, 1);
    let mouth_image = Image::new(vec![0, 1, 0], 1, 1, 1);

    bkg_image.stack(&[eyes_image, mouth_image]);
    assert_eq!(bkg_image.data, vec![1, 1, 1]);
}

#[test]
fn stack_counts_any_nonzero_byte_as_opaque() {
    let mut bkg_image = Image::new(vec![9, 9, 9, 9], 4, 1, 1);
    let overlay = Image::new(vec![0, 0, 2, 0], 4, 1, 1);
    bkg_image.stack(&[overlay]);
    assert_eq!(bkg_image.data, vec![0, 0, 2, 0]);
}

#[test]
fn stack_topmost_opaque_wins() {
    let mut bkg_image = Image::new(vec![5, 5], 2, 1, 1);
    let low = Image::new(vec![1, 1], 2, 1, 1);
    let high = Image::new(vec![0, 7], 2, 1, 1);
    bkg_image.stack(&[low, high]);
    assert_eq!(bkg_image.data, vec![0, 7]);
}

#[test]
fn transparent_image() {
    let bkg_image = Image::decode(&PNG).unwrap();
    assert_eq!(bkg_image.data, vec![0, 0, 0, 0]);
    assert_eq!(bkg_image.bytes_per_pixel, 4);
    assert_eq!(bkg_image.width, 1);
    assert_eq!(bkg_image.height, 1);
}

#[test]
fn empty_image() {
    let image_result = Image::decode(&[]);
    assert!(matches!(image_result, Err(NftgenError::Decode(_))));
}

#[test]
fn save() {
    let bkg_image = Image::decode(&PNG).unwrap();
    bkg_image.encode().unwrap();
}

#[test]
fn encode_then_decode_keeps_pixels() {
    let image = Image::new(vec![1, 2, 3, 4, 5, 6, 7, 8], 4, 2, 1);
    let bytes = image.encode().unwrap();
    assert_eq!(&bytes[..8], &PNG[..8]);
    let back = Image::decode(&bytes).unwrap();
    assert_eq!(back, image);
}

#[test]
fn encode_refuses_wrong_buffer_length() {
    let image = Image::new(vec![1, 2, 3], 4, 1, 1);
    assert!(matches!(image.encode(), Err(NftgenError::Encode(_))));
}

#[test]
fn add() {
    let layers = vec![Layer::new("bkg.png", 1), Layer::new("face.png", 1), Layer::new("eyes.png", 1)];
    let mut builder = ImageBuilder::new(Image::new(vec![0], 1, 1, 1));
    for layer in layers.iter() {
        builder.add(layer);
    }

    assert_eq!(builder.layers.len(), layers.len());
    for (expected_layer, actual_layer) in layers.iter().zip(builder.layers) {
        assert_eq!(expected_layer, actual_layer);
    }
}

#[test]
fn build_uses_first_image_as_base() {
    let a = Layer::new("a.png", 1);
    let b = Layer::new("b.png", 1);
    let base = Image::new(vec![3, 0, 0, 0, 3, 3, 3, 3], 4, 2, 1);
    let top = Image::new(vec![0, 0, 0, 0, 0, 1, 0, 0], 4, 2, 1);
    let (image, layers) = ImageBuilder::build(vec![&a, &b], vec![base, top]).unwrap();
    assert_eq!(image.data, vec![3, 0, 0, 0, 0, 1, 0, 0]);
    assert_eq!((image.width, image.height, image.bytes_per_pixel), (2, 1, 4));
    assert_eq!(layers, vec![&a, &b]);
}

#[test]
fn build_refuses_images_of_different_sizes() {
    let a = Layer::new("a.png", 1);
    let b = Layer::new("b.png", 1);
    let base = Image::new(vec![0, 0, 0, 0], 4, 1, 1);
    let wide = Image::new(vec![0, 0, 0, 0, 0, 0, 0, 0], 4, 2, 1);
    assert!(matches!(ImageBuilder::build(vec![&a, &b], vec![base, wide]), Err(NftgenError::LayerMismatch)));
}

#[test]
fn build_refuses_no_images() {
    assert!(matches!(ImageBuilder::build(vec![], vec![]), Err(NftgenError::LayerMismatch)));
}

#[test]
fn encode_refuses_size_beyond_address_range() {
    let image = Image::new(vec![], 4, u32::MAX, u32::MAX);
    assert!(matches!(image.encode(), Err(NftgenError::ImageTooLarge)));
}

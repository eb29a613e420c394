use nftgen::{
    draw_layers, generate_item, get_layer_groups, image_file_name, metadata_file_name, sort_layer_groups, Attribute,
    Image, ImageBuilder, Layer, LayerDir, Metadata, MetadataBuilder, MetadataWriter, NftgenError,
};

const PNG: [u8; 67] = [
    0x89, 0x50, 0x4e, 0x47, 0xd, 0xa, 0x1a, 0xa, 0x0, 0x0, 0x0, 0xd, 0x49, 0x48, 0x44, 0x52,
    0x0, 0x0, 0x0, 0x1, 0x0, 0x0, 0x0, 0x1, 0x8, 0x6, 0x0, 0x0, 0x0, 0x1f, 0x15, 0xc4, 0x89,
    0x0, 0x0, 0x0, 0xa, 0x49, 0x44, 0x41, 0x54, 0x78, 0x9c, 0x63, 0x0, 0x1, 0x0, 0x0, 0x5, 0x0,
    0x1, 0xd, 0xa, 0x2d, 0xb4, 0x0, 0x0, 0x0, 0x0, 0x49, 0x45, 0x4e, 0x44, 0xae, 0x42, 0x60,
    0x82,
];

fn attribute(trait_type: &str, value: &str) -> Attribute {
    Attribute::new(trait_type.to_string(), value.to_string())
}

fn layer_dirs(names: &[&str]) -> Vec<LayerDir> {
    names
        .iter()
        .map(|d| LayerDir {
            path: format!("fixture/{}", d),
            files: (0..10).map(|i| format!("fixture/{}/image{}#{}.png", d, i, i)).collect(),
        })
        .collect()
}

#[test]
fn metadata_build() {
    let metadata = MetadataBuilder::build(
        3,
        "Great nft collection",
        "JustGreat",
        &["background", "face", "eyes"],
        &[&Layer::new("red#2.png", 5), &Layer::new("smile#5.png", 5), &Layer::new("squint#5.png", 5)],
    )
    .unwrap();

    assert_eq!(metadata.name, "JustGreat #3");
    assert_eq!(metadata.description, "Great nft collection");
    assert_eq!(metadata.image, "ipfs://placeholder/3.png");
    assert_eq!(
        metadata.attributes,
        vec![attribute("background", "red"), attribute("face", "smile"), attribute("eyes", "squint")]
    );
}

#[test]
fn metadata_build_pairs_only_as_far_as_both_go() {
    let metadata =
        MetadataBuilder::build(4294967295, "d", "C", &["background", "face"], &[&Layer::new("a/red.png", 1)]).unwrap();
    assert_eq!(metadata.name, "C #4294967295");
    assert_eq!(metadata.image, "ipfs://placeholder/4294967295.png");
    assert_eq!(metadata.attributes, vec![attribute("background", "red")]);
}

#[test]
fn metadata_build_refuses_unnamed_layer() {
    let result = MetadataBuilder::build(0, "d", "C", &["background"], &[&Layer::new("..", 1)]);
    assert!(matches!(result, Err(NftgenError::InvalidFilename(p)) if p == ".."));
}

fn sample_metadata() -> Metadata<'static> {
    Metadata::new(
        "Some description",
        "Lame collection #5".to_string(),
        "ipfs://placeholder/5.png".to_string(),
        vec![attribute("background", "red"), attribute("face", "smile"), attribute("eyes", "squint")],
    )
}

#[test]
fn update_base_uri_points_at_content() {
    let mut metadata = sample_metadata();
    metadata.update_base_uri("bussin-ipfs-cid").unwrap();
    assert_eq!(metadata.image, "ipfs://bussin-ipfs-cid/5.png");
    assert_eq!(metadata.name, "Lame collection #5");
    assert_eq!(metadata.attributes.len(), 3);
}

#[test]
fn update_base_uri_twice_is_once() {
    let mut once = sample_metadata();
    once.update_base_uri("cid").unwrap();
    let mut twice = sample_metadata();
    twice.update_base_uri("cid").unwrap();
    twice.update_base_uri("cid").unwrap();
    assert_eq!(once, twice);
}

#[test]
fn metadata_writer_keeps_path() {
    let writer = MetadataWriter::new("out/metadata");
    assert_eq!(writer.path, "out/metadata");
}

#[test]
fn output_file_names() {
    assert_eq!(image_file_name(0), "0.png");
    assert_eq!(image_file_name(1203), "1203.png");
    assert_eq!(metadata_file_name(42), "42");
}

#[test]
fn image_builder_build() {
    let names = ["layer1", "layer2"];
    let layer_groups = sort_layer_groups(get_layer_groups(&layer_dirs(&names), &names).unwrap());
    let layers = draw_layers(&layer_groups);
    let images: Vec<Image> = layers.iter().map(|_| Image::decode(&PNG).unwrap()).collect();

    let (image, layers) = ImageBuilder::build(layers, images).unwrap();
    let expected = Image::decode(&PNG).unwrap();
    assert_eq!(expected, image);
    assert_eq!(layers.len(), 2);
}

#[test]
fn generate_three_items_from_two_categories() {
    let names = ["background", "face"];
    let dirs = vec![
        LayerDir { path: "l/background".to_string(), files: vec!["l/background/blue.png".to_string()] },
        LayerDir { path: "l/face".to_string(), files: vec!["l/face/smile#2.png".to_string()] },
    ];
    let groups = sort_layer_groups(get_layer_groups(&dirs, &names).unwrap());
    let mut image_files = Vec::new();
    let mut metadata_files = Vec::new();
    for index in 0..3u32 {
        let layers = draw_layers(&groups);
        let images = vec![Image::new(vec![1, 2, 3, 255], 4, 1, 1), Image::new(vec![0, 0, 0, 0], 4, 1, 1)];
        let item = generate_item(index, "desc", "Coll", &names, layers, images).unwrap();
        assert_eq!(item.metadata.attributes.len(), 2);
        assert!(item.metadata.name.ends_with(&index.to_string()));
        assert_eq!(item.metadata.attributes[1], attribute("face", "smile"));
        assert_eq!(Image::decode(&item.png).unwrap().data, vec![1, 2, 3, 255]);
        image_files.push(item.image_file);
        metadata_files.push(item.metadata_file);
    }
    assert_eq!(image_files, vec!["0.png", "1.png", "2.png"]);
    assert_eq!(metadata_files, vec!["0", "1", "2"]);
}

#[test]
fn generate_item_refuses_mismatched_images() {
    let a = Layer::new("a.png", 1);
    let result = generate_item(0, "d", "C", &["a"], vec![&a], vec![]);
    assert!(matches!(result, Err(NftgenError::LayerMismatch)));
}

#[test]
fn generate_item_refuses_image_that_is_not_rgba() {
    let a = Layer::new("a.png", 1);
    let result = generate_item(0, "d", "C", &["a"], vec![&a], vec![Image::new(vec![1, 2, 3], 3, 1, 1)]);
    assert!(matches!(result, Err(NftgenError::Encode(_))));
}

use nftgen::{get_layer_groups, parse_layers_from_path, sort_layer_groups, Layer, LayerDir, LayerGroup, NftgenError};

fn layer_files(dir: &str) -> Vec<String> {
    (0..10).map(|i| format!("{}/image{}#{}.png", dir, i, i)).collect()
}

#[test]
fn layer_layer_name_works() {
    let layer = Layer::new("layers/background/red#5.png", 5);
    assert_eq!(layer.name().unwrap(), "red");
}

#[test]
fn layer_layer_name_works_without_delimiter() {
    let layer = Layer::new("layers/background/red.png", 5);
    assert_eq!(layer.name().unwrap(), "red");
}

#[test]
fn layer_name_is_none_without_file_name() {
    let layer = Layer::new("..", 5);
    assert_eq!(layer.name(), None);
}

#[test]
fn layer_parse_weight_from_filestem_works() {
    assert_eq!(Layer::parse_weight_from_file_stem("beauty#10").unwrap(), 10)
}

#[test]
fn layer_parse_weight_from_filestem_returns_1_if_invalid_filestem() {
    assert_eq!(Layer::parse_weight_from_file_stem("beauty").unwrap(), 1)
}

#[test]
fn parse_weight_edge_cases() {
    assert_eq!(Layer::parse_weight_from_file_stem("a#+7").unwrap(), 7);
    assert_eq!(Layer::parse_weight_from_file_stem("a#-7").unwrap(), 1);
    assert_eq!(Layer::parse_weight_from_file_stem("a#").unwrap(), 1);
    assert_eq!(Layer::parse_weight_from_file_stem("a#4294967295").unwrap(), 4294967295);
    assert_eq!(Layer::parse_weight_from_file_stem("a#4294967296").unwrap(), 1);
    assert_eq!(Layer::parse_weight_from_file_stem("a#1#2").unwrap(), 1);
    assert_eq!(Layer::parse_weight_from_file_stem("a#0").unwrap(), 0);
}

#[test]
fn mod_parse_layers_from_path_works() {
    let mut files = layer_files("layers/background");
    files.push("layers/background/notes.txt".to_string());
    let layers = parse_layers_from_path(&files).unwrap();

    assert_eq!(layers.len(), 10);
    for i in 0..10 {
        let layer = layers.iter().find(|l| l.weight == i as u32).unwrap();
        assert_eq!(layer.name().unwrap(), format!("image{}", i));
    }
}

#[test]
fn layer_from_path_reads_weight() {
    let layer = Layer::from_path("x/blue#3.png").unwrap();
    assert_eq!(layer.image_path, "x/blue#3.png");
    assert_eq!(layer.weight, 3);
}

#[test]
fn layer_from_path_refuses_path_without_stem() {
    assert!(matches!(Layer::from_path(".."), Err(NftgenError::InvalidFilename(p)) if p == ".."));
}

#[test]
fn get_layer_groups_works() {
    let layer_dirs = ["layer1", "layer2"];
    let dirs: Vec<LayerDir> = layer_dirs
        .iter()
        .map(|d| LayerDir { path: format!("root/{}", d), files: layer_files(&format!("root/{}", d)) })
        .collect();

    let layer_groups = get_layer_groups(&dirs, &layer_dirs).unwrap();

    assert_eq!(layer_groups.len(), 2);
    assert!(matches!(layer_groups.iter().find(|lg| lg.layer_type == "layer1"), Some(_)));
}

#[test]
fn unknown_layer_fails_catalog() {
    let dirs = vec![
        LayerDir { path: "root/face".to_string(), files: layer_files("root/face") },
        LayerDir { path: "root/hat".to_string(), files: layer_files("root/hat") },
    ];
    let result = get_layer_groups(&dirs, &["face", "eyes"]);
    assert!(matches!(result, Err(NftgenError::UnknownLayer(n)) if n == "hat"));
}

#[test]
fn same_named_directories_fail_catalog() {
    let dirs = vec![
        LayerDir { path: "a/face".to_string(), files: layer_files("a/face") },
        LayerDir { path: "b/face".to_string(), files: layer_files("b/face") },
    ];
    let result = get_layer_groups(&dirs, &["face"]);
    assert!(matches!(result, Err(NftgenError::DuplicateLayer(n)) if n == "face"));
}

#[test]
fn layer_group_new_places_by_declared_order() {
    let g = LayerGroup::new("root/eyes", &layer_files("root/eyes"), &["background", "face", "eyes"]).unwrap();
    assert_eq!(g.layer_type, "eyes");
    assert_eq!(g.order, 2);
    assert_eq!(g.layers.len(), 10);
}

#[test]
fn layer_group_new_refuses_path_without_name() {
    let result = LayerGroup::new("..", &[], &["background"]);
    assert!(matches!(result, Err(NftgenError::InvalidLayerPath(p)) if p == ".."));
}

#[test]
fn get_order_is_first_position() {
    assert_eq!(LayerGroup::get_order("b", &["a", "b", "b"]).unwrap(), 1);
    assert!(matches!(LayerGroup::get_order("z", &["a"]), Err(NftgenError::UnknownLayer(_))));
}

#[test]
fn sort_layer_groups_orders_by_declared_position() {
    let order = ["background", "face", "eyes"];
    let dirs: Vec<LayerDir> = ["eyes", "background", "face"]
        .iter()
        .map(|d| LayerDir { path: format!("r/{}", d), files: layer_files(&format!("r/{}", d)) })
        .collect();
    let groups = sort_layer_groups(get_layer_groups(&dirs, &order).unwrap());
    let names: Vec<&str> = groups.iter().map(|g| g.layer_type.as_str()).collect();
    assert_eq!(names, vec!["background", "face", "eyes"]);
}

#[test]
fn is_drawable_checks_weights() {
    let zero = LayerGroup::new("r/a", &["r/a/x#0.png".to_string()], &["a"]).unwrap();
    assert!(!zero.is_drawable());
    let huge = LayerGroup::new(
        "r/a",
        &["r/a/x#4294967295.png".to_string(), "r/a/y#1.png".to_string()],
        &["a"],
    )
    .unwrap();
    assert!(!huge.is_drawable());
    let fine = LayerGroup::new("r/a", &["r/a/x#0.png".to_string(), "r/a/y#2.png".to_string()], &["a"]).unwrap();
    assert!(fine.is_drawable());
    for _ in 0..100 {
        assert_eq!(fine.pick().weight, 2);
    }
}

#[test]
fn draws_follow_weights() {
    let files = vec!["r/a/rare#1.png".to_string(), "r/a/common#3.png".to_string()];
    let group = LayerGroup::new("r/a", &files, &["a"]).unwrap();
    let draws = 20000;
    let mut common = 0;
    for _ in 0..draws {
        if group.pick().weight == 3 {
            common += 1;
        }
    }
    let share = common as f64 / draws as f64;
    assert!((share - 0.75).abs() < 0.03, "share of the heavier variant: {}", share);
}

//! Generation of raster collections by stacking weighted layer variants,
//! with the metadata that records which variants produced each item.

mod catalog;
mod config;
mod error;
mod generate;
mod image;
mod image_builder;
mod ipfs;
mod layer;
mod layer_group;
mod metadata;
mod path;
mod text;

pub use crate::catalog::{draw_layers, get_layer_groups, sort_layer_groups, LayerDir};
pub use crate::config::{merge_config_and_cli_args, parse_reader};
pub use crate::error::NftgenError;
pub use crate::generate::{generate_item, image_file_name, metadata_file_name, GeneratedItem};
pub use crate::image::Image;
pub use crate::image_builder::ImageBuilder;
pub use crate::ipfs::{check_car_size, daemon_is_ready, parse_cid_from_ipfs_add_output, MAX_CAR_SIZE};
pub use crate::layer::{parse_layers_from_path, Layer};
pub use crate::layer_group::LayerGroup;
pub use crate::metadata::{Attribute, Metadata, MetadataBuilder, MetadataWriter};

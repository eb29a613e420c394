use vstd::prelude::*;

use crate::error::NftgenError;
use crate::image::{pixel_buffers, png_rgba8, rgba_fits, stacked, Image};
use crate::image_builder::{layers_match, ImageBuilder};
use crate::layer::{layer_name, Layer};
use crate::layer_group::texts;
use crate::metadata::{item_name, paired_len, placeholder_uri, Metadata, MetadataBuilder};
use crate::text::{decimal, decimal_string};

verus! {

/// The flattened pixels of one item's images.
pub open spec fn composite_data(images: Seq<Image>) -> Seq<u8> {
    stacked(images[0].data@, pixel_buffers(images), images[0].bytes_per_pixel as nat)
}

/// Whether every layer that is paired with a declared category has a name.
pub open spec fn names_ok(ordered_layers: Seq<Seq<char>>, layers: Seq<&Layer>) -> bool {
    forall|i: int| 0 <= i < paired_len(ordered_layers, layers) ==> layer_name((#[trigger] layers[i]).image_path@) is Some
}

/// The output of one generated item: the PNG bytes of its image and its
/// metadata record, each with the name of the file that holds it.
#[derive(Debug)]
pub struct GeneratedItem<'a> {
    pub image_file: String,
    pub png: Vec<u8>,
    pub metadata_file: String,
    pub metadata: Metadata<'a>,
}

/// The name of the image file of item `index`.
pub fn image_file_name(index: u32) -> (r: String)
    ensures
        r@ == decimal(index as nat) + ".png"@,
{
    let mut name = decimal_string(index);
    name.append(".png");
    name
}

/// The name of the metadata file of item `index`.
pub fn metadata_file_name(index: u32) -> (r: String)
    ensures
        r@ == decimal(index as nat),
{
    decimal_string(index)
}

/// Generates item `index` from the variants drawn for it, `images[i]` being
/// the decoded image of `layers[i]`: the flattened image as a PNG and the
/// metadata built from the very same draws.
pub fn generate_item<'a>(
    index: u32,
    description: &'a str,
    collection_name: &str,
    layers_order: &[&str],
    layers: Vec<&Layer>,
    images: Vec<Image>,
) -> (r: Result<GeneratedItem<'a>, NftgenError>)
    ensures
        r is Ok <==> {
            &&& layers@.len() == images@.len()
            &&& layers_match(images@)
            &&& names_ok(texts(layers_order@), layers@)
            &&& rgba_fits(images@[0].width, images@[0].height)
            &&& png_rgba8(composite_data(images@), images@[0].width, images@[0].height) is Some
        },
        r matches Ok(item) ==> {
            &&& png_rgba8(composite_data(images@), images@[0].width, images@[0].height) == Some(item.png@)
            &&& item.image_file@ == decimal(index as nat) + ".png"@
            &&& item.metadata_file@ == decimal(index as nat)
            &&& item.metadata.description@ == description@
            &&& item.metadata.name@ == item_name(collection_name@, index as nat)
            &&& item.metadata.image@ == placeholder_uri(index as nat)
            &&& item.metadata.attributes@.len() == paired_len(texts(layers_order@), layers@)
            &&& forall|i: int| 0 <= i < item.metadata.attributes@.len() ==> {
                &&& (#[trigger] item.metadata.attributes@[i]).trait_type@ == layers_order@[i]@
                &&& Some(item.metadata.attributes@[i].value@) == layer_name(layers@[i].image_path@)
            }
        },
        r matches Err(e) ==> e is LayerMismatch || e is InvalidFilename || e is ImageTooLarge || e is Encode,
{
    let (image, drawn) = ImageBuilder::build(layers, images)?;
    let metadata = MetadataBuilder::build(index, description, collection_name, layers_order, drawn.as_slice())?;
    let png = image.encode()?;
    Ok(GeneratedItem { image_file: image_file_name(index), png, metadata_file: metadata_file_name(index), metadata })
}

} // verus!

use vstd::prelude::*;

use crate::error::NftgenError;
use crate::layer::{layer_name, Layer};
use crate::layer_group::texts;
use crate::text::{decimal, decimal_string};

verus! {

/// What regex::Regex::replace_all gives for `haystack` when every match of
/// `pattern` is replaced by `replacement`.
pub uninterp spec fn regex_replace_all(pattern: Seq<char>, haystack: Seq<char>, replacement: Seq<char>) -> Seq<char>;

/// Relies on regex::Regex::new, which compiles `pattern` or reports why it
/// cannot, and on Regex::replace_all. The pattern of image URI bases is
/// valid and well within the default size limits, so it compiles.
#[verifier::external_body]
fn replace_all_matches(pattern: &str, haystack: &str, replacement: &str) -> (r: Result<String, regex::Error>)
    ensures
        r matches Ok(s) ==> s@ == regex_replace_all(pattern@, haystack@, replacement@),
        pattern@ == uri_base_pattern() ==> r is Ok,
{
    let re = regex::Regex::new(pattern)?;
    Ok(re.replace_all(haystack, replacement).into_owned())
}

/// The pattern of the part of an image URI that names where the images are
/// kept: from the scheme up to the last `/`.
pub open spec fn uri_base_pattern() -> Seq<char> {
    "ipfs://.*/"@
}

/// The URI prefix that points at the content `base_uri`.
pub open spec fn base_prefix(base_uri: Seq<char>) -> Seq<char> {
    "ipfs://"@ + base_uri + "/"@
}

/// The name of item `id` of a collection.
pub open spec fn item_name(collection_name: Seq<char>, id: nat) -> Seq<char> {
    collection_name + " #"@ + decimal(id)
}

/// The image URI that item `id` has until the images have an address.
pub open spec fn placeholder_uri(id: nat) -> Seq<char> {
    "ipfs://placeholder/"@ + decimal(id) + ".png"@
}

/// The number of attributes: declared categories and drawn layers are paired
/// by position, as far as both go.
pub open spec fn paired_len(ordered_layers: Seq<Seq<char>>, layers: Seq<&Layer>) -> nat {
    if ordered_layers.len() <= layers.len() {
        ordered_layers.len()
    } else {
        layers.len()
    }
}

/// A trait of an item: the category and the name of the variant drawn in it.
#[derive(Debug, Clone, PartialEq, PartialOrd)]
pub struct Attribute {
    pub trait_type: String,
    pub value: String,
}

impl Attribute {
    pub fn new(trait_type: String, value: String) -> (r: Attribute)
        ensures
            r.trait_type == trait_type,
            r.value == value,
    {
        Attribute { trait_type, value }
    }
}

/// The record that describes one generated item.
#[derive(Debug, Clone, PartialEq)]
pub struct Metadata<'a> {
    pub description: &'a str,
    pub name: String,
    pub image: String,
    pub attributes: Vec<Attribute>,
}

impl<'a> Metadata<'a> {
    pub fn new(description: &'a str, name: String, image: String, attributes: Vec<Attribute>) -> (r: Metadata<'a>)
        ensures
            r.description == description,
            r.name == name,
            r.image == image,
            r.attributes == attributes,
    {
        Metadata { description, name, image, attributes }
    }

    /// Points the image URI at the content `base_uri`: the part from the
    /// scheme up to the last `/` becomes `ipfs://{base_uri}/`. Nothing else
    /// changes, and it always succeeds.
    pub fn update_base_uri(&mut self, base_uri: &str) -> (r: Result<(), NftgenError>)
        ensures
            r is Ok,
            final(self).image@ == regex_replace_all(uri_base_pattern(), old(self).image@, base_prefix(base_uri@)),
            final(self).description == old(self).description,
            final(self).name == old(self).name,
            final(self).attributes == old(self).attributes,
    {
        let mut replacement = String::from_str("ipfs://");
        replacement.append(base_uri);
        replacement.append("/");
        match replace_all_matches("ipfs://.*/", self.image.as_str(), replacement.as_str()) {
            Ok(image) => {
                self.image = image;
                Ok(())
            },
            Err(e) => Err(NftgenError::Regex(e)),
        }
    }
}

/// Assembles the metadata of generated items.
pub struct MetadataBuilder {}

impl MetadataBuilder {
    /// The metadata of item `id`: the shared description, the name
    /// `{collection_name} #{id}`, the placeholder image URI, and one
    /// attribute for each declared category paired by position with the
    /// layer drawn for it. Fails where a paired layer has no name.
    pub fn build<'a>(
        id: u32,
        description: &'a str,
        collection_name: &str,
        ordered_layers: &[&str],
        layers: &[&Layer],
    ) -> (r: Result<Metadata<'a>, NftgenError>)
        ensures
            ({
                let n = paired_len(texts(ordered_layers@), layers@);
                &&& r is Ok <==> forall|i: int| 0 <= i < n ==> layer_name((#[trigger] layers@[i]).image_path@) is Some
                &&& r matches Ok(m) ==> {
                    &&& m.description@ == description@
                    &&& m.name@ == item_name(collection_name@, id as nat)
                    &&& m.image@ == placeholder_uri(id as nat)
                    &&& m.attributes@.len() == n
                    &&& forall|i: int| 0 <= i < n ==> {
                        &&& (#[trigger] m.attributes@[i]).trait_type@ == ordered_layers@[i]@
                        &&& Some(m.attributes@[i].value@) == layer_name(layers@[i].image_path@)
                    }
                }
                &&& r matches Err(e) ==> exists|i: int| 0 <= i < n
                    && layer_name((#[trigger] layers@[i]).image_path@) is None
                    && (e matches NftgenError::InvalidFilename(p) && p@ == layers@[i].image_path@)
            }),
    {
        let ghost n = paired_len(texts(ordered_layers@), layers@);
        let count = if ordered_layers.len() <= layers.len() { ordered_layers.len() } else { layers.len() };
        let mut attributes: Vec<Attribute> = Vec::new();
        let mut i: usize = 0;
        while i < count
            invariant
                count == n,
                n <= ordered_layers@.len(),
                n <= layers@.len(),
                i <= count,
                attributes@.len() == i,
                forall|k: int| 0 <= k < i ==> layer_name((#[trigger] layers@[k]).image_path@) is Some,
                forall|k: int| 0 <= k < i ==> {
                    &&& (#[trigger] attributes@[k]).trait_type@ == ordered_layers@[k]@
                    &&& Some(attributes@[k].value@) == layer_name(layers@[k].image_path@)
                },
            decreases count - i,
        {
            match layers[i].name() {
                Some(value) => {
                    attributes.push(Attribute::new(String::from_str(ordered_layers[i]), value));
                },
                None => {
                    return Err(NftgenError::InvalidFilename(layers[i].image_path.clone()));
                },
            }
            i += 1;
        }
        let id_text = decimal_string(id);
        let mut name = String::from_str(collection_name);
        name.append(" #");
        name.append(id_text.as_str());
        let mut image = String::from_str("ipfs://placeholder/");
        image.append(id_text.as_str());
        image.append(".png");
        Ok(Metadata::new(description, name, image, attributes))
    }
}

/// Writes metadata records into the directory at `path`.
pub struct MetadataWriter<'a> {
    pub path: &'a str,
}

impl<'a> MetadataWriter<'a> {
    pub fn new(path: &'a str) -> (r: MetadataWriter<'a>)
        ensures
            r.path == path,
    {
        MetadataWriter { path }
    }
}

} // verus!

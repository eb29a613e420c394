use vstd::prelude::*;

use crate::error::NftgenError;
use crate::path::{extension, file_stem, path_extension, path_file_stem};
use crate::text::{find, find_char, parse_u32, parsed_u32, str_eq};

verus! {

/// The display name within a file stem: the part before the first `#`.
pub open spec fn stem_name(stem: Seq<char>) -> Seq<char> {
    match find_char(stem, '#') {
        Some(i) => stem.take(i as int),
        None => stem,
    }
}

/// The weight within a file stem: the number after the first `#`, or 1 where
/// there is none or it does not read as a `u32`.
pub open spec fn stem_weight(stem: Seq<char>) -> u32 {
    match find_char(stem, '#') {
        Some(i) => match parsed_u32(stem.skip(i + 1 as int)) {
            Some(w) => w,
            None => 1,
        },
        None => 1,
    }
}

/// The display name of the layer file at `path`.
pub open spec fn layer_name(path: Seq<char>) -> Option<Seq<char>> {
    match path_file_stem(path) {
        Some(stem) => Some(stem_name(stem)),
        None => None,
    }
}

/// Whether `path` names a PNG file.
pub open spec fn is_png_path(path: Seq<char>) -> bool {
    path_extension(path) == Some("png"@)
}

/// The PNG files among `paths`, in their order.
pub open spec fn png_paths(paths: Seq<Seq<char>>) -> Seq<Seq<char>>
    decreases paths.len(),
{
    if paths.len() == 0 {
        Seq::empty()
    } else if is_png_path(paths.last()) {
        png_paths(paths.drop_last()).push(paths.last())
    } else {
        png_paths(paths.drop_last())
    }
}

/// Whether `l` is the layer that the file at `path` describes.
pub open spec fn is_layer_of(l: Layer, path: Seq<char>) -> bool {
    &&& l.image_path@ == path
    &&& path_file_stem(path) matches Some(stem)
    &&& l.weight == stem_weight(stem)
}

/// One variant of a layer: the file that holds its image and its weight in draws.
#[derive(Debug, Clone, PartialEq, Eq)]
pub struct Layer {
    pub image_path: String,
    pub weight: u32,
}

impl Layer {
    pub fn new(image_path: &str, weight: u32) -> (r: Layer)
        ensures
            r.image_path@ == image_path@,
            r.weight == weight,
    {
        Layer { image_path: image_path.to_owned(), weight }
    }

    /// The part of `stem` before its first `#`.
    fn name_in_stem(stem: &str) -> (r: String)
        ensures
            r@ == stem_name(stem@),
    {
        match find(stem, '#') {
            Some(i) => String::from_str(stem.substring_char(0, i)),
            None => String::from_str(stem),
        }
    }

    /// The display name: the file stem up to its first `#`; `None` where
    /// the path has no file stem.
    pub fn name(&self) -> (r: Option<String>)
        ensures
            r matches Some(s) ==> layer_name(self.image_path@) == Some(s@),
            r is None ==> layer_name(self.image_path@) is None,
    {
        match file_stem(self.image_path.as_str()) {
            Some(stem) => Some(Self::name_in_stem(stem.as_str())),
            None => None,
        }
    }

    /// Reads the weight from a file stem such as `red#5`. A stem with no
    /// `#`, or with one that is not followed by a `u32`, has weight 1.
    pub fn parse_weight_from_file_stem(filestem: &str) -> (r: Result<u32, NftgenError>)
        ensures
            r matches Ok(w) && w == stem_weight(filestem@),
    {
        match find(filestem, '#') {
            Some(i) => {
                let n = filestem.unicode_len();
                match parse_u32(filestem.substring_char(i + 1, n)) {
                    Some(w) => Ok(w),
                    None => Ok(1),
                }
            },
            None => Ok(1),
        }
    }

    /// The layer that the file at `path` describes; an error where the path
    /// has no file stem.
    pub fn from_path(path: &str) -> (r: Result<Layer, NftgenError>)
        ensures
            path_file_stem(path@) is Some <==> r is Ok,
            r matches Ok(l) ==> is_layer_of(l, path@),
            r matches Err(e) ==> (e matches NftgenError::InvalidFilename(p) && p@ == path@),
    {
        match file_stem(path) {
            Some(stem) => {
                let weight = Self::parse_weight_from_file_stem(stem.as_str())?;
                Ok(Layer::new(path, weight))
            },
            None => Err(NftgenError::InvalidFilename(path.to_owned())),
        }
    }
}

/// Whether `path` has the extension `png`.
fn is_png(path: &str) -> (r: bool)
    ensures
        r == is_png_path(path@),
{
    match extension(path) {
        Some(ext) => str_eq(ext.as_str(), "png"),
        None => false,
    }
}

/// Turns the PNG files among `paths` into layers, in order. Fails on the
/// first PNG file whose path has no file stem.
pub fn parse_layers_from_path(paths: &[String]) -> (r: Result<Vec<Layer>, NftgenError>)
    ensures
        ({
            let pngs = png_paths(paths@.map_values(|p: String| p@));
            &&& r is Ok <==> forall|k: int| 0 <= k < pngs.len() ==> path_file_stem(#[trigger] pngs[k]) is Some
            &&& r matches Ok(layers) ==> layers@.len() == pngs.len()
                && forall|k: int| 0 <= k < pngs.len() ==> is_layer_of(#[trigger] layers@[k], pngs[k])
            &&& r matches Err(e) ==> exists|k: int| 0 <= k < pngs.len()
                && path_file_stem(#[trigger] pngs[k]) is None
                && (e matches NftgenError::InvalidFilename(p) && p@ == pngs[k])
        }),
{
    let ghost all = paths@.map_values(|p: String| p@);
    let mut layers: Vec<Layer> = Vec::new();
    let mut i: usize = 0;
    while i < paths.len()
        invariant
            i <= paths@.len(),
            all == paths@.map_values(|p: String| p@),
            layers@.len() == png_paths(all.take(i as int)).len(),
            forall|k: int| 0 <= k < layers@.len() ==> is_layer_of(#[trigger] layers@[k], png_paths(all.take(i as int))[k]),
        decreases paths@.len() - i,
    {
        let ghost before = all.take(i as int);
        assert(all.take(i + 1).drop_last() =~= before);
        assert(all.take(i + 1).last() == paths@[i as int]@);
        let path = paths[i].as_str();
        if is_png(path) {
            match Layer::from_path(path) {
                Ok(l) => {
                    layers.push(l);
                },
                Err(e) => {
                    proof {
                        lemma_png_paths_prefix(all, (i + 1) as nat, all.len());
                        assert(all.take(all.len() as int) =~= all);
                        let k = png_paths(before).len() as int;
                        assert(png_paths(all.take(i + 1))[k] == path@);
                        assert(png_paths(all)[k] == path@);
                    }
                    return Err(e);
                },
            }
        }
        i += 1;
    }
    assert(all.take(paths@.len() as int) =~= all);
    proof {
        assert forall|k: int| 0 <= k < png_paths(all).len() implies path_file_stem(#[trigger] png_paths(all)[k]) is Some by {
            assert(is_layer_of(layers@[k], png_paths(all)[k]));
        }
    }
    Ok(layers)
}

/// The PNG files of a prefix come first among those of the whole.
proof fn lemma_png_paths_prefix(all: Seq<Seq<char>>, i: nat, j: nat)
    requires
        i <= j <= all.len(),
    ensures
        png_paths(all.take(i as int)).len() <= png_paths(all.take(j as int)).len(),
        forall|k: int| 0 <= k < png_paths(all.take(i as int)).len() ==>
            #[trigger] png_paths(all.take(j as int))[k] == png_paths(all.take(i as int))[k],
    decreases j - i,
{
    if i < j {
        lemma_png_paths_prefix(all, i, (j - 1) as nat);
        assert(all.take(j as int).drop_last() =~= all.take(j - 1));
    }
}

} // verus!

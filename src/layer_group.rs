use vstd::prelude::*;

use crate::error::NftgenError;
use crate::layer::{is_layer_of, parse_layers_from_path, png_paths, Layer};
use crate::path::{file_name, path_file_name, path_file_stem};
use crate::text::{first_index, lemma_first_index, str_eq};

verus! {

/// The total of a list of weights.
pub open spec fn weight_sum(w: Seq<u32>) -> nat
    decreases w.len(),
{
    if w.len() == 0 {
        0
    } else {
        weight_sum(w.drop_last()) + w.last() as nat
    }
}

/// The weights of a list of layers.
pub open spec fn weights_of(layers: Seq<Layer>) -> Seq<u32> {
    layers.map_values(|l: Layer| l.weight)
}

/// The texts of a list of strings.
pub open spec fn texts(s: Seq<&str>) -> Seq<Seq<char>> {
    s.map_values(|x: &str| x@)
}

/// The texts of a list of owned strings.
pub open spec fn string_texts(s: Seq<String>) -> Seq<Seq<char>> {
    s.map_values(|x: String| x@)
}

/// Whether every PNG file among `files` has a file stem, so that all of
/// them become layers.
pub open spec fn layers_parse(files: Seq<Seq<char>>) -> bool {
    forall|k: int| 0 <= k < png_paths(files).len() ==> path_file_stem(#[trigger] png_paths(files)[k]) is Some
}

/// Whether the directory at `path`, holding `files`, makes a group under the
/// declared order: its layers parse, and its name is declared.
pub open spec fn group_ok(path: Seq<char>, files: Seq<Seq<char>>, order: Seq<Seq<char>>) -> bool {
    &&& layers_parse(files)
    &&& path_file_name(path) matches Some(name)
    &&& first_index(order, name) is Some
}

/// Whether `g` is the group that the directory at `path`, holding `files`,
/// makes under the declared order.
pub open spec fn is_group_of(g: LayerGroup, path: Seq<char>, files: Seq<Seq<char>>, order: Seq<Seq<char>>) -> bool {
    &&& path_file_name(path) == Some(g.layer_type@)
    &&& first_index(order, g.layer_type@) == Some(g.order as nat)
    &&& g.layers@.len() == png_paths(files).len()
    &&& forall|k: int| 0 <= k < g.layers@.len() ==> is_layer_of(#[trigger] g.layers@[k], png_paths(files)[k])
}

/// Relies on rand::distributions::WeightedIndex::new over `weights`, sampled
/// once with rand::thread_rng. `new` refuses an empty list or one whose
/// weights are all zero, and adds the weights up in a `u32`; a sample is an
/// index whose weight is positive.
#[verifier::external_body]
fn draw_weighted_index(weights: &[u32]) -> (r: Option<usize>)
    requires
        weight_sum(weights@) <= u32::MAX,
    ensures
        r is Some <==> (exists|i: int| 0 <= i < weights@.len() && weights@[i] > 0),
        r matches Some(i) ==> i < weights@.len() && weights@[i as int] > 0,
{
    match rand::distributions::WeightedIndex::new(weights) {
        Ok(dist) => Some(rand::distributions::Distribution::sample(&dist, &mut rand::thread_rng())),
        Err(_) => None,
    }
}

/// One category of layers, such as the background, with its variants and
/// its place in the declared order.
#[derive(Debug)]
pub struct LayerGroup {
    pub layer_type: String,
    pub layers: Vec<Layer>,
    pub order: usize,
}

impl LayerGroup {
    /// Whether a variant can be drawn: some weight is positive and the
    /// weights add up within a `u32`.
    pub open spec fn drawable(&self) -> bool {
        &&& exists|i: int| 0 <= i < self.layers@.len() && (#[trigger] self.layers@[i]).weight > 0
        &&& weight_sum(weights_of(self.layers@)) <= u32::MAX
    }

    /// Whether `l` is one of this group's variants with a positive weight.
    pub open spec fn holds_positive(&self, l: Layer) -> bool {
        exists|i: int| 0 <= i < self.layers@.len() && l == self.layers@[i] && self.layers@[i].weight > 0
    }

    /// The group that the directory at `layer_path`, holding the files
    /// `files`, makes: its PNG files become its layers, its name places it in
    /// `layers_order`. A name that `layers_order` does not hold is an error.
    pub fn new(layer_path: &str, files: &[String], layers_order: &[&str]) -> (r: Result<LayerGroup, NftgenError>)
        ensures
            r is Ok <==> group_ok(layer_path@, string_texts(files@), texts(layers_order@)),
            r matches Ok(g) ==> is_group_of(g, layer_path@, string_texts(files@), texts(layers_order@)),
            !layers_parse(string_texts(files@)) ==> (r matches Err(e) && exists|k: int|
                0 <= k < png_paths(string_texts(files@)).len()
                && path_file_stem(#[trigger] png_paths(string_texts(files@))[k]) is None
                && (e matches NftgenError::InvalidFilename(p) && p@ == png_paths(string_texts(files@))[k])),
            layers_parse(string_texts(files@)) && path_file_name(layer_path@) is None ==>
                (r matches Err(e) && (e matches NftgenError::InvalidLayerPath(p) && p@ == layer_path@)),
            layers_parse(string_texts(files@)) && path_file_name(layer_path@) is Some
                && first_index(texts(layers_order@), path_file_name(layer_path@)->Some_0) is None ==>
                (r matches Err(e) && (e matches NftgenError::UnknownLayer(n)
                    && Some(n@) == path_file_name(layer_path@))),
    {
        let ghost fs = string_texts(files@);
        assert(fs =~= files@.map_values(|p: String| p@));
        let layers = match parse_layers_from_path(files) {
            Ok(layers) => layers,
            Err(e) => {
                proof {
                    let pngs = png_paths(fs);
                    let k = choose|k: int| 0 <= k < pngs.len() && path_file_stem(#[trigger] pngs[k]) is None
                        && (e matches NftgenError::InvalidFilename(p) && p@ == pngs[k]);
                    assert(!layers_parse(fs));
                }
                return Err(e);
            },
        };
        match file_name(layer_path) {
            Some(layer_type) => {
                let order = Self::get_order(layer_type.as_str(), layers_order)?;
                Ok(LayerGroup { layer_type, layers, order })
            },
            None => Err(NftgenError::InvalidLayerPath(layer_path.to_owned())),
        }
    }

    /// The place of `layer_type` in `layers_order`: its first position there.
    pub fn get_order(layer_type: &str, layers_order: &[&str]) -> (r: Result<usize, NftgenError>)
        ensures
            r matches Ok(i) ==> first_index(texts(layers_order@), layer_type@) == Some(i as nat),
            r is Err <==> first_index(texts(layers_order@), layer_type@) is None,
            r matches Err(e) ==> (e matches NftgenError::UnknownLayer(n) && n@ == layer_type@),
    {
        let ghost names = texts(layers_order@);
        let mut i: usize = 0;
        while i < layers_order.len()
            invariant
                i <= layers_order@.len(),
                names == texts(layers_order@),
                forall|j: int| 0 <= j < i ==> names[j] != layer_type@,
            decreases layers_order@.len() - i,
        {
            if str_eq(layers_order[i], layer_type) {
                proof {
                    lemma_first_index(names, layer_type@, Some(i as nat));
                }
                return Ok(i);
            }
            i += 1;
        }
        proof {
            lemma_first_index(names, layer_type@, None);
        }
        Err(NftgenError::UnknownLayer(layer_type.to_owned()))
    }

    /// Whether `pick` may be called on this group.
    pub fn is_drawable(&self) -> (r: bool)
        ensures
            r == self.drawable(),
    {
        let ghost w = weights_of(self.layers@);
        let mut total: u64 = 0;
        let mut positive = false;
        let mut i: usize = 0;
        while i < self.layers.len()
            invariant
                i <= self.layers@.len(),
                w == weights_of(self.layers@),
                total == weight_sum(w.take(i as int)),
                total <= u32::MAX,
                positive == exists|j: int| 0 <= j < i && (#[trigger] self.layers@[j]).weight > 0,
            decreases self.layers@.len() - i,
        {
            assert(w.take(i + 1).drop_last() =~= w.take(i as int));
            total = total + self.layers[i].weight as u64;
            if total > u32::MAX as u64 {
                proof {
                    lemma_weight_sum_prefix(w, (i + 1) as nat);
                }
                return false;
            }
            if self.layers[i].weight > 0 {
                positive = true;
            }
            i += 1;
        }
        assert(w.take(self.layers@.len() as int) =~= w);
        positive
    }

    /// Draws one variant at random, each with probability in proportion to
    /// its weight; a variant of weight zero is never drawn.
    pub fn pick(&self) -> (r: &Layer)
        requires
            self.drawable(),
        ensures
            self.holds_positive(*r),
    {
        let mut weights: Vec<u32> = Vec::new();
        let mut i: usize = 0;
        while i < self.layers.len()
            invariant
                i <= self.layers@.len(),
                weights@ =~= weights_of(self.layers@).take(i as int),
            decreases self.layers@.len() - i,
        {
            weights.push(self.layers[i].weight);
            i += 1;
        }
        assert(weights@ =~= weights_of(self.layers@));
        let ghost k = choose|k: int| 0 <= k < self.layers@.len() && (#[trigger] self.layers@[k]).weight > 0;
        assert(weights@[k] > 0);
        match draw_weighted_index(weights.as_slice()) {
            Some(i) => {
                assert(weights@[i as int] == self.layers@[i as int].weight);
                &self.layers[i]
            },
            None => {
                proof {
                    assert(false);
                }
                &self.layers[0]
            },
        }
    }
}

/// A prefix of a list of weights adds up to no more than the whole.
proof fn lemma_weight_sum_prefix(w: Seq<u32>, k: nat)
    requires
        k <= w.len(),
    ensures
        weight_sum(w.take(k as int)) <= weight_sum(w),
    decreases w.len(),
{
    if k < w.len() {
        assert(w.drop_last().take(k as int) =~= w.take(k as int));
        lemma_weight_sum_prefix(w.drop_last(), k);
    } else {
        assert(w.take(k as int) =~= w);
    }
}

} // verus!

use vstd::prelude::*;

use crate::error::NftgenError;
use crate::image::{pixel_buffers, stackable, stacked, Image};
use crate::layer::Layer;

verus! {

/// Whether the images of one item can be flattened together: there is at
/// least one, and all share the first one's size, pixel format and buffer
/// length, which holds whole pixels.
pub open spec fn layers_match(images: Seq<Image>) -> bool {
    &&& images.len() > 0
    &&& stackable(images[0].data@.len(), images[0].bytes_per_pixel as nat, images)
    &&& forall|i: int| 0 <= i < images.len() ==> {
        &&& (#[trigger] images[i]).bytes_per_pixel == images[0].bytes_per_pixel
        &&& images[i].width == images[0].width
        &&& images[i].height == images[0].height
    }
}

/// Whether `r` is the flattening of `images`: the first one gives the canvas
/// and the default pixels, and all of them, the first included, are stacked
/// on it in order.
pub open spec fn is_composite(r: Image, images: Seq<Image>) -> bool {
    &&& r.data@ == stacked(images[0].data@, pixel_buffers(images), images[0].bytes_per_pixel as nat)
    &&& r.bytes_per_pixel == images[0].bytes_per_pixel
    &&& r.width == images[0].width
    &&& r.height == images[0].height
}

/// An image under construction with the layers drawn for it.
pub struct ImageBuilder<'a> {
    pub image: Image,
    pub layers: Vec<&'a Layer>,
}

impl<'a> ImageBuilder<'a> {
    pub fn new(image: Image) -> (r: ImageBuilder<'a>)
        ensures
            r.image == image,
            r.layers@.len() == 0,
    {
        ImageBuilder { image, layers: Vec::new() }
    }

    pub fn add(&mut self, layer: &'a Layer)
        ensures
            final(self).layers@ == old(self).layers@.push(layer),
            final(self).image == old(self).image,
    {
        self.layers.push(layer);
    }

    /// Flattens the images of the drawn `layers`, `images[i]` being the
    /// image of `layers[i]`, and hands the layers back with the result.
    /// Fails where the two lists differ in length or the images differ in
    /// size or pixel format.
    pub fn build(layers: Vec<&'a Layer>, images: Vec<Image>) -> (r: Result<(Image, Vec<&'a Layer>), NftgenError>)
        ensures
            r is Ok <==> layers@.len() == images@.len() && layers_match(images@),
            r matches Ok((image, drawn)) ==> is_composite(image, images@) && drawn@ == layers@,
            r matches Err(e) ==> e is LayerMismatch,
    {
        if layers.len() != images.len() || images.len() == 0 {
            return Err(NftgenError::LayerMismatch);
        }
        let bpp = images[0].bytes_per_pixel;
        let width = images[0].width;
        let height = images[0].height;
        let len = images[0].data.len();
        if bpp == 0 || len % bpp != 0 {
            return Err(NftgenError::LayerMismatch);
        }
        let mut i: usize = 0;
        while i < images.len()
            invariant
                i <= images@.len(),
                images@.len() > 0,
                bpp == images@[0].bytes_per_pixel,
                len == images@[0].data@.len(),
                width == images@[0].width,
                height == images@[0].height,
                forall|k: int| 0 <= k < i ==> {
                    &&& (#[trigger] images@[k]).bytes_per_pixel == bpp
                    &&& images@[k].width == images@[0].width
                    &&& images@[k].height == images@[0].height
                    &&& images@[k].data@.len() == len
                },
            decreases images@.len() - i,
        {
            if images[i].bytes_per_pixel != bpp || images[i].width != width || images[i].height != height
                || images[i].data.len() != len {
                return Err(NftgenError::LayerMismatch);
            }
            i += 1;
        }
        let base = Image::new(vstd::slice::slice_to_vec(images[0].data.as_slice()), bpp, width, height);
        let mut builder = ImageBuilder::new(base);
        let mut k: usize = 0;
        while k < layers.len()
            invariant
                k <= layers@.len(),
                builder.layers@ == layers@.take(k as int),
                builder.image.data@ == images@[0].data@,
                builder.image.bytes_per_pixel == bpp,
                builder.image.width == images@[0].width,
                builder.image.height == images@[0].height,
            decreases layers@.len() - k,
        {
            builder.add(layers[k]);
            assert(layers@.take(k + 1) =~= layers@.take(k as int).push(layers@[k as int]));
            k += 1;
        }
        assert(layers@.take(layers@.len() as int) =~= layers@);
        builder.image.stack(images.as_slice());
        Ok((builder.image, builder.layers))
    }
}

} // verus!

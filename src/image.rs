use vstd::prelude::*;

use crate::error::NftgenError;

verus! {

/// What png makes of `bytes`: the first frame's pixel bytes, the bytes per
/// pixel, the width and the height; `None` where it refuses the bytes.
pub uninterp spec fn png_frame(bytes: Seq<u8>) -> Option<(Seq<u8>, usize, u32, u32)>;

/// What png writes for 8-bit RGBA pixels `data` of the given size; `None`
/// where it refuses them.
pub uninterp spec fn png_rgba8(data: Seq<u8>, width: u32, height: u32) -> Option<Seq<u8>>;

/// Relies on png::Decoder::read_info and Reader::next_frame, with
/// Info::bytes_per_pixel and Info::size: decodes the first frame of a PNG
/// held in memory.
#[verifier::external_body]
fn decode_png(bytes: &[u8]) -> (r: Result<(Vec<u8>, usize, u32, u32), png::DecodingError>)
    ensures
        r is Ok <==> png_frame(bytes@) is Some,
        r matches Ok(f) ==> png_frame(bytes@) == Some((f.0@, f.1, f.2, f.3)),
{
    let mut reader = png::Decoder::new(bytes).read_info()?;
    let mut buf = vec![0; reader.output_buffer_size()];
    reader.next_frame(&mut buf)?;
    let (width, height) = reader.info().size();
    Ok((buf, reader.info().bytes_per_pixel(), width, height))
}

/// Whether the byte length of an 8-bit RGBA buffer of this size fits in a
/// `usize`, as the encoder computes it.
pub open spec fn rgba_fits(width: u32, height: u32) -> bool {
    4 * (width as int) * (height as int) <= usize::MAX
}

/// Relies on png::Encoder with ColorType::Rgba and BitDepth::Eight, then
/// Writer::write_image_data and Writer::finish: encodes a PNG in memory.
#[verifier::external_body]
fn encode_png(data: &[u8], width: u32, height: u32) -> (r: Result<Vec<u8>, png::EncodingError>)
    requires
        rgba_fits(width, height),
    ensures
        r is Ok <==> png_rgba8(data@, width, height) is Some,
        r matches Ok(b) ==> png_rgba8(data@, width, height) == Some(b@),
{
    let mut out: Vec<u8> = Vec::new();
    let mut encoder = png::Encoder::new(&mut out, width, height);
    encoder.set_color(png::ColorType::Rgba);
    encoder.set_depth(png::BitDepth::Eight);
    let mut writer = encoder.write_header()?;
    writer.write_image_data(data)?;
    writer.finish()?;
    Ok(out)
}

/// A decoded raster: `bytes_per_pixel` bytes for each pixel, row by row.
#[derive(Debug, Clone, PartialEq)]
pub struct Image {
    pub data: Vec<u8>,
    pub bytes_per_pixel: usize,
    pub width: u32,
    pub height: u32,
}

/// Whether the pixel that starts at byte `start` has at least one non-zero byte.
pub open spec fn is_opaque(data: Seq<u8>, start: int, bpp: nat) -> bool {
    exists|k: int| 0 <= k < bpp && #[trigger] data[start + k] != 0
}

/// The highest of the first `n` overlays whose pixel at `start` is opaque.
pub open spec fn topmost_opaque(overlays: Seq<Seq<u8>>, start: int, bpp: nat, n: nat) -> Option<nat>
    decreases n,
{
    if n == 0 {
        None
    } else if is_opaque(overlays[n - 1], start, bpp) {
        Some((n - 1) as nat)
    } else {
        topmost_opaque(overlays, start, bpp, (n - 1) as nat)
    }
}

/// The first byte of the pixel that holds byte `j`.
pub open spec fn pixel_start(j: int, bpp: nat) -> int {
    j - j % (bpp as int)
}

/// Byte `j` of the flattened image: taken from the topmost overlay that is
/// opaque at that pixel, else from the base.
pub open spec fn stacked_byte(base: Seq<u8>, overlays: Seq<Seq<u8>>, bpp: nat, j: int) -> u8 {
    match topmost_opaque(overlays, pixel_start(j, bpp), bpp, overlays.len()) {
        Some(t) => overlays[t as int][j],
        None => base[j],
    }
}

/// The base with every overlay stacked on it, the last overlay on top.
pub open spec fn stacked(base: Seq<u8>, overlays: Seq<Seq<u8>>, bpp: nat) -> Seq<u8> {
    Seq::new(base.len(), |j: int| stacked_byte(base, overlays, bpp, j))
}

/// The pixel buffers of a list of images.
pub open spec fn pixel_buffers(images: Seq<Image>) -> Seq<Seq<u8>> {
    images.map_values(|i: Image| i.data@)
}

/// Whether `images` can be stacked on a buffer of `len` bytes with `bpp` bytes per pixel.
pub open spec fn stackable(len: nat, bpp: nat, images: Seq<Image>) -> bool {
    &&& bpp > 0
    &&& len % bpp == 0
    &&& forall|i: int| 0 <= i < images.len() ==> (#[trigger] images[i]).data@.len() == len
}

proof fn lemma_pixel_start(s: int, j: int, bpp: nat)
    requires
        bpp > 0,
        s >= 0,
        s % (bpp as int) == 0,
        s <= j < s + bpp,
    ensures
        pixel_start(j, bpp) == s,
{
    let b = bpp as int;
    assert(j % b == j - s) by {
        vstd::arithmetic::div_mod::lemma_fundamental_div_mod(s, b);
        vstd::arithmetic::div_mod::lemma_mod_add_multiples_vanish(j - s, b);
        vstd::arithmetic::div_mod::lemma_mod_multiples_vanish(s / b, j - s, b);
        vstd::arithmetic::div_mod::lemma_small_mod((j - s) as nat, bpp);
    }
}

proof fn lemma_topmost_skips(overlays: Seq<Seq<u8>>, start: int, bpp: nat, m: nat, n: nat)
    requires
        m <= n,
        forall|t: int| m <= t < n ==> !is_opaque(#[trigger] overlays[t], start, bpp),
    ensures
        topmost_opaque(overlays, start, bpp, n) == topmost_opaque(overlays, start, bpp, m),
    decreases n - m,
{
    if m < n {
        assert(!is_opaque(overlays[n - 1], start, bpp));
        lemma_topmost_skips(overlays, start, bpp, m, (n - 1) as nat);
    }
}

impl Image {
    pub fn new(data: Vec<u8>, bytes_per_pixel: usize, width: u32, height: u32) -> (r: Image)
        ensures
            r.data@ == data@,
            r.bytes_per_pixel == bytes_per_pixel,
            r.width == width,
            r.height == height,
    {
        Image { data, bytes_per_pixel, width, height }
    }

    /// Decodes a PNG file's bytes.
    pub fn decode(bytes: &[u8]) -> (r: Result<Image, NftgenError>)
        ensures
            r is Ok <==> png_frame(bytes@) is Some,
            r matches Ok(i) ==> png_frame(bytes@) == Some((i.data@, i.bytes_per_pixel, i.width, i.height)),
            r matches Err(e) ==> e is Decode,
    {
        match decode_png(bytes) {
            Ok((data, bytes_per_pixel, width, height)) => Ok(Image::new(data, bytes_per_pixel, width, height)),
            Err(e) => Err(NftgenError::Decode(e)),
        }
    }

    /// Encodes the image as an 8-bit RGBA PNG. An image whose RGBA buffer
    /// length does not fit in a `usize` is refused before encoding.
    pub fn encode(&self) -> (r: Result<Vec<u8>, NftgenError>)
        ensures
            r is Ok <==> rgba_fits(self.width, self.height) && png_rgba8(self.data@, self.width, self.height) is Some,
            r matches Ok(b) ==> png_rgba8(self.data@, self.width, self.height) == Some(b@),
            r matches Err(e) ==> (!rgba_fits(self.width, self.height) && e is ImageTooLarge)
                || (rgba_fits(self.width, self.height) && e is Encode),
    {
        let (w, h) = (self.width as u128, self.height as u128);
        assert(w * h <= 0xffff_ffff_ffff_ffff) by (nonlinear_arith)
            requires w <= 0xffff_ffff, h <= 0xffff_ffff;
        assert(4 * (w * h) == 4 * (self.width as int) * (self.height as int)) by (nonlinear_arith)
            requires w == self.width as int, h == self.height as int;
        if 4 * (w * h) > usize::MAX as u128 {
            return Err(NftgenError::ImageTooLarge);
        }
        match encode_png(self.data.as_slice(), self.width, self.height) {
            Ok(b) => Ok(b),
            Err(e) => Err(NftgenError::Encode(e)),
        }
    }

    /// Whether the pixel of `data` that starts at `start` has a non-zero byte.
    fn pixel_is_opaque(data: &Vec<u8>, start: usize, bpp: usize) -> (r: bool)
        requires
            start + bpp <= data@.len(),
        ensures
            r == is_opaque(data@, start as int, bpp as nat),
    {
        let len = data.len();
        let mut k: usize = 0;
        while k < bpp
            invariant
                k <= bpp,
                len == data@.len(),
                start + bpp <= len,
                forall|i: int| 0 <= i < k ==> #[trigger] data@[start + i] == 0,
            decreases bpp - k,
        {
            if data[start + k] != 0 {
                return true;
            }
            k += 1;
        }
        assert forall|i: int| 0 <= i < bpp implies #[trigger] data@[start + i] == 0 by {}
        false
    }

    /// Flattens `images` onto this image. At each pixel the topmost image
    /// (the last in the slice) whose pixel has a non-zero byte replaces the
    /// pixel whole; where no image has one the pixel stays as it was.
    pub fn stack(&mut self, images: &[Image])
        requires
            stackable(old(self).data@.len(), old(self).bytes_per_pixel as nat, images@),
        ensures
            final(self).data@ == stacked(old(self).data@, pixel_buffers(images@), old(self).bytes_per_pixel as nat),
            final(self).bytes_per_pixel == old(self).bytes_per_pixel,
            final(self).width == old(self).width,
            final(self).height == old(self).height,
    {
        let ghost base = self.data@;
        let ghost overlays = pixel_buffers(images@);
        let bpp = self.bytes_per_pixel;
        let len = self.data.len();
        let n = images.len();
        let ghost b = bpp as nat;
        let mut s: usize = 0;
        while s < len
            invariant
                self.data@.len() == len == base.len(),
                self.bytes_per_pixel == bpp,
                self.width == old(self).width,
                self.height == old(self).height,
                base == old(self).data@,
                overlays == pixel_buffers(images@),
                n == images@.len(),
                b == bpp as nat,
                stackable(len as nat, b, images@),
                s <= len,
                s % bpp == 0,
                forall|j: int| 0 <= j < s ==> self.data@[j] == stacked_byte(base, overlays, b, j),
                forall|j: int| s <= j < len ==> self.data@[j] == base[j],
            decreases len - s,
        {
            assert(s + bpp <= len) by (nonlinear_arith)
                requires s % bpp == 0, len % bpp == 0, s < len, bpp > 0;
            let mut t: usize = n;
            let mut found = false;
            while t > 0 && !found
                invariant
                    t <= n,
                    n == images@.len(),
                    s + bpp <= len,
                    stackable(len as nat, b, images@),
                    overlays == pixel_buffers(images@),
                    b == bpp as nat,
                    forall|u: int| t <= u < n && !(found && u == t) ==> !is_opaque(#[trigger] overlays[u], s as int, b),
                    found ==> t < n && is_opaque(overlays[t as int], s as int, b),
                decreases t + (if found { 0int } else { 1int }),
            {
                assert(images@[t - 1].data@ == overlays[t - 1]);
                if Self::pixel_is_opaque(&images[t - 1].data, s, bpp) {
                    found = true;
                }
                t -= 1;
            }
            proof {
                if found {
                    lemma_topmost_skips(overlays, s as int, b, (t + 1) as nat, n as nat);
                } else {
                    lemma_topmost_skips(overlays, s as int, b, 0, n as nat);
                }
            }
            if found {
                let top = &images[t].data;
                assert(top@ == overlays[t as int]);
                let mut k: usize = 0;
                while k < bpp
                    invariant
                        k <= bpp,
                        s + bpp <= len,
                        self.data@.len() == len,
                        self.bytes_per_pixel == bpp,
                        self.width == old(self).width,
                        self.height == old(self).height,
                        top@.len() == len,
                        forall|j: int| 0 <= j < s ==> self.data@[j] == stacked_byte(base, overlays, b, j),
                        forall|j: int| s <= j < s + k ==> self.data@[j] == top@[j],
                        forall|j: int| s + k <= j < len ==> self.data@[j] == base[j],
                    decreases bpp - k,
                {
                    self.data.set(s + k, top[s + k]);
                    k += 1;
                }
            }
            assert forall|j: int| s <= j < s + bpp implies self.data@[j] == stacked_byte(base, overlays, b, j) by {
                lemma_pixel_start(s as int, j, b);
            }
            assert(((s + bpp) as int) % (bpp as int) == 0) by (nonlinear_arith)
                requires s % bpp == 0, bpp > 0;
            s += bpp;
        }
        assert(self.data@ =~= stacked(base, overlays, b));
    }
}

} // verus!

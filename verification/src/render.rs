use vstd::prelude::*;

verus! {

/// A decoded image: `width`×`height` pixels, RGBA, row by row from the top.
pub struct Picture {
    pub width: u32,
    pub height: u32,
    pub pixels: Vec<u8>,
}

impl Picture {
    /// The pixels fill the image exactly.
    pub open spec fn wf(&self) -> bool {
        self.pixels@.len() == self.width * self.height * 4
    }

    /// The image of `width`×`height` RGBA `pixels`, or `None` when their
    /// number does not fit that size.
    pub fn from_rgba(width: u32, height: u32, pixels: Vec<u8>) -> (r: Option<Picture>)
        ensures
            r is Some <==> pixels@.len() == width * height * 4,
            r matches Some(p) ==> p.wf() && p.width == width && p.height == height && p.pixels@ == pixels@,
    {
        let wide: u128 = width as u128;
        let high: u128 = height as u128;
        assert(wide * high <= 0xffff_ffffu128 * 0xffff_ffffu128) by (nonlinear_arith)
            requires
                wide <= 0xffff_ffffu128,
                high <= 0xffff_ffffu128,
        ;
        let need: u128 = wide * high * 4;
        if pixels.len() as u128 == need {
            Some(Picture { width, height, pixels })
        } else {
            None
        }
    }
}

/// What `image::imageops::resize` with the Lanczos3 filter gives for the
/// `src_w`×`src_h` RGBA image `src` at `w`×`h`, as RGBA bytes. It is computed
/// from these values alone.
pub uninterp spec fn spec_resize_rgba(src_w: u32, src_h: u32, src: Seq<u8>, w: u32, h: u32) -> Seq<u8>;

/// `image::imageops::resize(Lanczos3)` of the `src_w`×`src_h` RGBA image
/// `src` (held in an `RgbaImage`, whose pixels are returned by `into_raw`).
/// The result is named after its arguments; the crate builds it as a `w`×`h`
/// RGBA buffer, `w * h * 4` bytes. The sizes are bounded so that the crate's
/// working buffers (`f32` pixels, `src_w`×`h`) can be allocated.
#[verifier::external_body]
fn resized_rgba(src_w: u32, src_h: u32, src: &[u8], w: u32, h: u32) -> (r: Vec<u8>)
    requires
        src@.len() == src_w * src_h * 4,
        src_w * h * 16 <= isize::MAX,
        w * h * 4 <= isize::MAX,
    ensures
        r@ == spec_resize_rgba(src_w, src_h, src@, w, h),
        r@.len() == w * h * 4,
{
    match image::RgbaImage::from_raw(src_w, src_h, src.to_vec()) {
        Some(img) => image::imageops::resize(&img, w, h, image::imageops::FilterType::Lanczos3).into_raw(),
        None => Vec::new(),
    }
}

/// Copies the RGBA pixels `rgba` into `out`, which has room for exactly them.
pub fn copy_pixels(rgba: &[u8], out: &mut [u8])
    requires
        rgba@.len() == old(out)@.len(),
    ensures
        final(out)@ == rgba@,
{
    let mut i: usize = 0;
    while i < rgba.len()
        invariant
            i <= rgba@.len(),
            out@.len() == rgba@.len(),
            forall|j: int| 0 <= j < i ==> out@[j] == rgba@[j],
        decreases rgba.len() - i,
    {
        out[i] = rgba[i];
        i += 1;
    }
    assert(out@ =~= rgba@);
}

/// Draws `img`, resized to `w`×`h` with the Lanczos3 filter, into `out`
/// (`w * h * 4` bytes of RGBA).
pub fn render_image(img: &Picture, w: u32, h: u32, out: &mut [u8])
    requires
        img.wf(),
        old(out)@.len() == w * h * 4,
        img.width * h * 16 <= isize::MAX,
        w * h * 4 <= isize::MAX,
    ensures
        final(out)@ == spec_resize_rgba(img.width, img.height, img.pixels@, w, h),
{
    let rgba = resized_rgba(img.width, img.height, img.pixels.as_slice(), w, h);
    copy_pixels(rgba.as_slice(), out);
}

} // verus!

//! The boundary to the external codec: JPEG encoding and resampling are
//! delegated to the `image` crate through the trusted wrappers below.
//! Everything stated here is backed by that crate's source.

use crate::raster::RgbRaster;
use vstd::prelude::*;

verus! {

#[verifier::external_type_specification]
#[verifier::external_body]
pub struct ExImageError(image::error::ImageError);

/// The JPEG encoding (at the codec's default quality, 75) of an RGB
/// buffer with the given dimensions.  The encoder is a pure function of
/// these three arguments; nothing further is assumed about the bytes.
pub uninterp spec fn jpeg_of(pixels: Seq<u8>, width: nat, height: nat) -> Seq<u8>;

/// Relies on `image`'s JPEG encoder (`DynamicImage::write_to` with the
/// JPEG format at default quality 75, the same encoder `save` picks for a
/// `.jpg` path): deterministic encoding of an RGB buffer.  The encoder
/// fails only when a dimension does not fit in 16 bits; the in-memory
/// cursor it writes to cannot fail.
#[verifier::external_body]
pub(crate) fn encode_jpeg(r: &RgbRaster) -> (res: Result<Vec<u8>, image::error::ImageError>)
    requires
        r.wf(),
    ensures
        res is Ok ==> res->Ok_0@ == jpeg_of(r.data@, r.width as nat, r.height as nat),
        r.width <= 65535 && r.height <= 65535 ==> res is Ok,
{
    let img = image::RgbImage::from_raw(r.width, r.height, r.data.clone()).unwrap();
    let mut buf = std::io::Cursor::new(Vec::new());
    match image::DynamicImage::ImageRgb8(img).write_to(
        &mut buf,
        image::ImageOutputFormat::Jpeg(75),
    ) {
        Ok(()) => Ok(buf.into_inner()),
        Err(e) => Err(e),
    }
}

/// The raster that the codec's nearest-neighbour resampling produces
/// from the given pixels when scaling from `sw` by `sh` to `w` by `h`.
/// The sampling is a pure function of these five arguments; nothing
/// further is assumed about the bytes, except that an unchanged size is
/// a verbatim copy (stated on the wrapper below, as its source shows).
pub uninterp spec fn resampled_of(pixels: Seq<u8>, sw: nat, sh: nat, w: nat, h: nat) -> Seq<u8>;

/// Relies on `image`'s `DynamicImage::resize_exact` with the
/// nearest-neighbour filter: the output has exactly the requested
/// dimensions (its sampling builds a buffer of that size), and when the
/// target equals the source dimensions the call copies the input
/// verbatim (its source short-circuits to a plain copy in that case).
#[verifier::external_body]
pub(crate) fn resize_nearest(r: &RgbRaster, w: u32, h: u32) -> (res: RgbRaster)
    requires
        r.wf(),
        r.width >= 1,
        r.height >= 1,
        w >= 1,
        h >= 1,
    ensures
        res.wf(),
        res.width == w,
        res.height == h,
        res.data@ == resampled_of(
            r.data@,
            r.width as nat,
            r.height as nat,
            w as nat,
            h as nat,
        ),
        w == r.width && h == r.height ==> res.data@ == r.data@,
{
    let img = image::RgbImage::from_raw(r.width, r.height, r.data.clone()).unwrap();
    let out = image::DynamicImage::ImageRgb8(img)
        .resize_exact(w, h, image::imageops::FilterType::Nearest)
        .into_rgb8();
    let (ow, oh) = out.dimensions();
    let data = out.into_raw();
    RgbRaster { width: ow, height: oh, data }
}

} // verus!

//! Encoding decoded rasters as PNG files.

use vstd::prelude::*;
use vstd::slice::slice_subrange;
use crate::error::BgstError;
use crate::bytes::be_u32;
use crate::images::{blocks_of, emitted_images, images_read_from, ImageList};
use crate::mask::raster_len;

verus! {

/// The PNG file that the image crate encodes from an RGBA raster.
pub uninterp spec fn png_of(width: u32, height: u32, pixels: Seq<u8>) -> Seq<u8>;

/// Relies on image::write_buffer_with_format with `ImageFormat::Png` and 8-bit
/// RGBA: on success the bytes written are the PNG encoding of the raster,
/// which depends on its arguments alone. png's `Writer::init` refuses a zero
/// width or height, and nothing else can fail when writing into memory. It
/// panics on a buffer whose length is not `width * height * 4`.
#[verifier::external_body]
fn encode_png(pixels: &[u8], width: u32, height: u32) -> (r: Option<Vec<u8>>)
    requires
        pixels@.len() == raster_len(width, height),
    ensures
        r is Some <==> (width > 0 && height > 0),
        r matches Some(v) ==> v@ == png_of(width, height, pixels@),
{
    let mut buffer = std::io::Cursor::new(Vec::new());
    match image::write_buffer_with_format(
        &mut buffer,
        pixels,
        width,
        height,
        image::ExtendedColorType::Rgba8,
        image::ImageFormat::Png,
    ) {
        Ok(()) => Some(buffer.into_inner()),
        Err(_) => None,
    }
}

/// The PNG files of `images`: one per raster that holds at least
/// `width * height` pixels, encoded from its first `width * height * 4` bytes,
/// in order; shorter rasters are left out.
pub open spec fn pngs_of(images: Seq<Seq<u8>>, width: u32, height: u32) -> Seq<Seq<u8>>
    decreases images.len(),
{
    if images.len() == 0 {
        Seq::empty()
    } else {
        let img = images.last();
        let rest = pngs_of(images.drop_last(), width, height);
        if img.len() >= raster_len(width, height) {
            rest.push(png_of(width, height, img.take(raster_len(width, height))))
        } else {
            rest
        }
    }
}

/// Encodes as PNG every image of `raw_images` that holds a whole raster, in
/// order. Fails with `EncodeFailed` exactly when there is an image and the
/// width or the height is zero, which the encoder refuses.
pub fn get_png_images(raw_images: &ImageList) -> (r: Result<Vec<Vec<u8>>, BgstError>)
    ensures
        r is Ok ==> r->Ok_0@.map_values(|v: Vec<u8>| v@) == pngs_of(
            raw_images.images_view(),
            raw_images.image_width,
            raw_images.image_height,
        ),
        r is Err <==> (raw_images.images@.len() > 0 && (raw_images.image_width == 0
            || raw_images.image_height == 0)),
        r is Err ==> r->Err_0 == BgstError::EncodeFailed,
{
    let width = raw_images.image_width;
    let height = raw_images.image_height;
    let w = width as u64;
    let h = height as u64;
    assert(w * h <= 0xFFFF_FFFE_0000_0001) by (nonlinear_arith)
        requires
            w <= 0xFFFF_FFFF,
            h <= 0xFFFF_FFFF,
    ;
    let pixels: u64 = w * h;
    let ghost images = raw_images.images_view();
    let mut result: Vec<Vec<u8>> = Vec::new();
    let mut i: usize = 0;
    while i < raw_images.images.len()
        invariant
            i <= raw_images.images@.len(),
            images == raw_images.images_view(),
            pixels == raster_len(width, height) / 4,
            width == raw_images.image_width,
            height == raw_images.image_height,
            width == 0 || height == 0 ==> i == 0,
            result@.map_values(|v: Vec<u8>| v@) == pngs_of(images.take(i as int), width, height),
        decreases raw_images.images@.len() - i,
    {
        let raw = &raw_images.images[i];
        let ghost before = result@.map_values(|v: Vec<u8>| v@);
        assert(images.take(i + 1).drop_last() =~= images.take(i as int));
        assert(images.take(i + 1).last() == raw@);
        if pixels <= raw.len() as u64 / 4 {
            let n = (pixels * 4) as usize;
            let pixel_bytes = slice_subrange(raw.as_slice(), 0, n);
            match encode_png(pixel_bytes, width, height) {
                Some(png) => {
                    result.push(png);
                    assert(result@.map_values(|v: Vec<u8>| v@) =~= before.push(
                        png_of(width, height, raw@.take(raster_len(width, height))),
                    ));
                },
                None => {
                    return Err(BgstError::EncodeFailed);
                },
            }
        }
        i = i + 1;
    }
    assert(images.take(images.len() as int) =~= images);
    Ok(result)
}

/// Extraction is a function of the container: two image lists read from the
/// same bytes in the same mode hold the same entries and the same images, so
/// encoding them either fails for both or gives the same PNG files.
pub proof fn lemma_extraction_deterministic(s: Seq<u8>, masked: bool, l1: ImageList, l2: ImageList)
    requires
        images_read_from(l1, s),
        images_read_from(l2, s),
        l1.images_view() == emitted_images(s, blocks_of(s), l1.grid_entries@, masked),
        l2.images_view() == emitted_images(s, blocks_of(s), l2.grid_entries@, masked),
    ensures
        l1.grid_entries@ == l2.grid_entries@,
        l1.images_view() == l2.images_view(),
        l1.image_width == l2.image_width && l1.image_height == l2.image_height,
        (l1.images_view().len() > 0 && (l1.image_width == 0 || l1.image_height == 0)) == (
        l2.images_view().len() > 0 && (l2.image_width == 0 || l2.image_height == 0)),
        pngs_of(l1.images_view(), l1.image_width, l1.image_height) == pngs_of(
            l2.images_view(),
            l2.image_width,
            l2.image_height,
        ),
{
    assert forall|i: int| 0 <= i < l1.grid_entries@.len() implies l1.grid_entries@[i]
        == l2.grid_entries@[i] by {
        assert(l1.grid_entries@[i].read_from(s, be_u32(s, 0x28) + 16 * i));
        assert(l2.grid_entries@[i].read_from(s, be_u32(s, 0x28) + 16 * i));
    }
    assert(l1.grid_entries@ =~= l2.grid_entries@);
}

} // verus!

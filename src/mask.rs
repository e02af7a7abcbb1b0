//! Compositing of a decoded image with a decoded transparency mask.

use vstd::prelude::*;
use crate::error::BgstError;

verus! {

/// Number of bytes of an RGBA raster of `width` by `height` pixels.
pub open spec fn raster_len(width: u32, height: u32) -> int {
    width as int * height as int * 4
}

/// The pixel at `p` of `mask` is black: its red, green and blue are zero.
pub open spec fn mask_black(mask: Seq<u8>, p: int) -> bool {
    mask[4 * p] == 0 && mask[4 * p + 1] == 0 && mask[4 * p + 2] == 0
}

/// Byte `k` of the composite: the alpha of a pixel whose mask is black is
/// zero, every other byte is the main image's.
pub open spec fn composited_byte(main: Seq<u8>, mask: Seq<u8>, k: int) -> u8 {
    if k % 4 == 3 && mask_black(mask, k / 4) {
        0
    } else {
        main[k]
    }
}

/// The first `n` bytes of the composite of `main` and `mask`.
pub open spec fn composite(main: Seq<u8>, mask: Seq<u8>, n: int) -> Seq<u8> {
    Seq::new(n as nat, |k: int| composited_byte(main, mask, k))
}

/// Merges a main image with its mask, both RGBA rasters of `width` by
/// `height` pixels: where the mask is black the main pixel keeps its color
/// and becomes fully transparent, elsewhere it is copied unchanged. Fails
/// with `SizeMismatch` when the two buffers differ in length, and with
/// `ImageTooSmall` when they are shorter than the raster; bytes past the
/// raster are not part of the result.
pub fn apply_mask(main_image: &Vec<u8>, mask_image: &Vec<u8>, width: u32, height: u32) -> (r:
    Result<Vec<u8>, BgstError>)
    ensures
        main_image@.len() != mask_image@.len() ==> r == Err::<Vec<u8>, BgstError>(
            BgstError::SizeMismatch,
        ),
        main_image@.len() == mask_image@.len() && main_image@.len() < raster_len(width, height)
            ==> r == Err::<Vec<u8>, BgstError>(BgstError::ImageTooSmall),
        main_image@.len() == mask_image@.len() && main_image@.len() >= raster_len(width, height)
            ==> r is Ok && r->Ok_0@ == composite(
            main_image@,
            mask_image@,
            raster_len(width, height),
        ),
{
    if main_image.len() != mask_image.len() {
        return Err(BgstError::SizeMismatch);
    }
    let len = main_image.len();
    let w = width as u64;
    let h = height as u64;
    assert(w * h <= 0xFFFF_FFFE_0000_0001) by (nonlinear_arith)
        requires
            w <= 0xFFFF_FFFF,
            h <= 0xFFFF_FFFF,
    ;
    let pixels: u64 = w * h;
    if pixels > len as u64 / 4 {
        return Err(BgstError::ImageTooSmall);
    }
    let pixels = pixels as usize;
    let mut out: Vec<u8> = Vec::new();
    let mut p: usize = 0;
    while p < pixels
        invariant
            p <= pixels,
            pixels * 4 <= len,
            len == main_image@.len(),
            len == mask_image@.len(),
            out@ == composite(main_image@, mask_image@, 4 * p),
        decreases pixels - p,
    {
        let base = 4 * p;
        let black = mask_image[base] == 0 && mask_image[base + 1] == 0 && mask_image[base + 2]
            == 0;
        out.push(main_image[base]);
        out.push(main_image[base + 1]);
        out.push(main_image[base + 2]);
        if black {
            out.push(0);
        } else {
            out.push(main_image[base + 3]);
        }
        assert(out@ =~= composite(main_image@, mask_image@, 4 * (p + 1)));
        p = p + 1;
    }
    Ok(out)
}

/// The four bytes of pixel `p` of an RGBA raster.
pub open spec fn pixel(s: Seq<u8>, p: int) -> Seq<u8> {
    s.subrange(4 * p, 4 * p + 4)
}

/// For RGBA rasters of equal length and `width * height` pixels: a pixel of
/// the composite whose mask pixel is black has the main pixel's color and
/// alpha zero, every other pixel equals the main pixel in all four channels.
/// So, where the main pixel is not already transparent, the composite's alpha
/// is zero exactly where the mask is black.
pub proof fn lemma_composite_pixels(main: Seq<u8>, mask: Seq<u8>, width: u32, height: u32)
    requires
        main.len() == mask.len(),
        main.len() == raster_len(width, height),
    ensures
        forall|p: int|
            #![trigger mask_black(mask, p)]
            0 <= p < width as int * height as int ==> {
                let out = composite(main, mask, raster_len(width, height));
                &&& mask_black(mask, p) ==> pixel(out, p) == seq![
                    main[4 * p],
                    main[4 * p + 1],
                    main[4 * p + 2],
                    0u8,
                ]
                &&& !mask_black(mask, p) ==> pixel(out, p) == pixel(main, p)
                &&& main[4 * p + 3] != 0 ==> (out[4 * p + 3] == 0 <==> mask_black(mask, p))
            },
{
    let n = raster_len(width, height);
    let out = composite(main, mask, n);
    assert forall|p: int| #![trigger mask_black(mask, p)] 0 <= p < width as int * height as int implies {
        &&& mask_black(mask, p) ==> pixel(out, p) == seq![
            main[4 * p],
            main[4 * p + 1],
            main[4 * p + 2],
            0u8,
        ]
        &&& !mask_black(mask, p) ==> pixel(out, p) == pixel(main, p)
        &&& main[4 * p + 3] != 0 ==> (out[4 * p + 3] == 0 <==> mask_black(mask, p))
    } by {
        assert(4 * p + 4 <= n);
        assert((4 * p) / 4 == p);
        assert((4 * p + 1) / 4 == p);
        assert((4 * p + 2) / 4 == p);
        assert((4 * p + 3) / 4 == p);
        if mask_black(mask, p) {
            assert(pixel(out, p) =~= seq![main[4 * p], main[4 * p + 1], main[4 * p + 2], 0u8]);
        } else {
            assert(pixel(out, p) =~= pixel(main, p));
        }
    }
}

} // verus!

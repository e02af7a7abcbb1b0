//! Locating the compressed image blocks that grid entries name, and decoding them.

use vstd::prelude::*;
use vstd::slice::slice_subrange;
use crate::bytes::{be_i16, be_u32};
use crate::entries::{
    entries_read_from, entry_region_ok, parse_grid_entries, GridEntry, GRID_ENTRY_SIZE,
};
use crate::error::BgstError;
use crate::header::{valid_header, validate_header, Header, HEADER_SIZE};
use crate::mask::{apply_mask, composite, raster_len};

verus! {

/// Size in bytes of one compressed image block.
pub const COMPRESSED_IMAGE_SIZE: usize = 0x20000;

/// The texture encoding of a block.
#[derive(Clone, Copy, Debug, PartialEq, Eq, Structural)]
pub enum TextureKind {
    /// 4x4 block-compressed true color, used by main images.
    Cmpr,
    /// 4-bit intensity, used by masks.
    I4,
}

/// The RGBA raster that gctex decodes from `block` at the given size and encoding.
pub uninterp spec fn decoded_texture(block: Seq<u8>, width: u32, height: u32, kind: TextureKind) -> Seq<u8>;

/// gctex can decode an image of this size from one block: both encodings use
/// 8x8 tiles of 32 bytes, and gctex rounds each side up to a whole tile in
/// `u32`, which must not overflow.
pub open spec fn block_decodable(width: int, height: int) -> bool {
    &&& width + 8 <= u32::MAX
    &&& height + 8 <= u32::MAX
    &&& ((width + 7) / 8) * ((height + 7) / 8) * 32 <= COMPRESSED_IMAGE_SIZE
}

/// Relies on gctex::decode: it returns the `width * height * 4` RGBA bytes
/// decoded from `block`, which depend on its arguments alone. It panics when a
/// side rounded up to a whole tile overflows `u32`, or when the source holds
/// fewer than the size's 8x8 tiles, 32 bytes each: `requires` leaves both out.
#[verifier::external_body]
fn decode_texture(block: &[u8], width: u32, height: u32, kind: TextureKind) -> (r: Vec<u8>)
    requires
        block@.len() == COMPRESSED_IMAGE_SIZE,
        block_decodable(width as int, height as int),
    ensures
        r@ == decoded_texture(block@, width, height, kind),
        r@.len() == raster_len(width, height),
{
    let format = match kind {
        TextureKind::Cmpr => gctex::TextureFormat::CMPR,
        TextureKind::I4 => gctex::TextureFormat::I4,
    };
    gctex::decode(block, width, height, format, &[], 0)
}

/// The block at `index` of the block array that starts at `data_offset`.
pub open spec fn block_at(s: Seq<u8>, data_offset: int, index: int) -> Seq<u8> {
    s.subrange(
        data_offset + index * COMPRESSED_IMAGE_SIZE,
        data_offset + (index + 1) * COMPRESSED_IMAGE_SIZE,
    )
}

/// An image index names one of the `count` blocks.
pub open spec fn index_in_range(index: i16, count: int) -> bool {
    0 <= index < count
}

/// Where the blocks of a container are and how large their images are.
pub struct BlockArray {
    /// Byte offset of the first block.
    pub data_offset: int,
    /// Number of blocks.
    pub count: int,
    /// Width in pixels of every image.
    pub width: u32,
    /// Height in pixels of every image.
    pub height: u32,
}

/// The images decoded for one entry: its main image if its index is in range,
/// then its mask if that index is in range.
pub open spec fn slot_images(s: Seq<u8>, a: BlockArray, e: GridEntry) -> Seq<Seq<u8>> {
    let main = if index_in_range(e.main_image_index, a.count) {
        seq![decoded_texture(block_at(s, a.data_offset, e.main_image_index as int), a.width, a.height, TextureKind::Cmpr)]
    } else {
        Seq::empty()
    };
    let mask = if index_in_range(e.mask_image_index, a.count) {
        seq![decoded_texture(block_at(s, a.data_offset, e.mask_image_index as int), a.width, a.height, TextureKind::I4)]
    } else {
        Seq::empty()
    };
    main + mask
}

/// The images decoded for `entries`, entry after entry.
pub open spec fn images_of(s: Seq<u8>, a: BlockArray, entries: Seq<GridEntry>) -> Seq<Seq<u8>>
    decreases entries.len(),
{
    if entries.len() == 0 {
        Seq::empty()
    } else {
        images_of(s, a, entries.drop_last()) + slot_images(s, a, entries.last())
    }
}

/// The block array that the header of `s` declares.
pub open spec fn blocks_of(s: Seq<u8>) -> BlockArray {
    BlockArray {
        data_offset: be_u32(s, 0x2C),
        count: be_u32(s, 0x18),
        width: be_u32(s, 8) as u32,
        height: be_u32(s, 0xC) as u32,
    }
}

/// The entry region and the declared blocks of the header of `s` lie inside `s`.
pub open spec fn layout_ok(s: Seq<u8>) -> bool {
    &&& entry_region_ok(s.len() as int, be_u32(s, 0x28), be_u32(s, 0x2C))
    &&& be_u32(s, 0x2C) + be_u32(s, 0x18) * COMPRESSED_IMAGE_SIZE <= s.len()
}

/// Number of image indices in range among the first `n` records from `start`,
/// read straight from the bytes.
pub open spec fn slots_in_records(s: Seq<u8>, start: int, n: nat, count: int) -> nat
    decreases n,
{
    if n == 0 {
        0
    } else {
        let at = start + 16 * (n - 1);
        slots_in_records(s, start, (n - 1) as nat, count) + (if 0 <= be_i16(s, at + 8) < count {
            1nat
        } else {
            0nat
        }) + (if 0 <= be_i16(s, at + 0xA) < count {
            1nat
        } else {
            0nat
        })
    }
}

/// Number of image indices in range that the entry region of `s` holds: the
/// number of blocks that reading `s` decodes.
pub open spec fn slots_named(s: Seq<u8>) -> nat {
    slots_in_records(
        s,
        be_u32(s, 0x28),
        ((be_u32(s, 0x2C) - be_u32(s, 0x28)) / (GRID_ENTRY_SIZE as int)) as nat,
        be_u32(s, 0x18),
    )
}

/// Counting the indices in range over parsed entries or over their bytes agrees.
pub proof fn lemma_slots_of_records(v: Seq<GridEntry>, s: Seq<u8>, start: int, count: int)
    requires
        entries_read_from(v, s, start),
    ensures
        slots_in_range(v, count) == slots_in_records(s, start, v.len(), count),
    decreases v.len(),
{
    if v.len() > 0 {
        let w = v.drop_last();
        assert forall|i: int| 0 <= i < w.len() implies #[trigger] w[i].read_from(s, start + 16 * i) by {
            assert(v[i].read_from(s, start + 16 * i));
        }
        lemma_slots_of_records(w, s, start, count);
        assert(v[v.len() - 1].read_from(s, start + 16 * (v.len() - 1)));
    }
}

/// Entries with no index in range name no block.
pub proof fn lemma_no_slots(v: Seq<GridEntry>, count: int)
    requires
        slots_in_range(v, count) == 0,
    ensures
        forall|i: int|
            0 <= i < v.len() ==> !index_in_range(#[trigger] v[i].main_image_index, count)
                && !index_in_range(v[i].mask_image_index, count),
    decreases v.len(),
{
    if v.len() > 0 {
        let w = v.drop_last();
        lemma_no_slots(w, count);
        assert forall|i: int| 0 <= i < v.len() implies !index_in_range(
            #[trigger] v[i].main_image_index,
            count,
        ) && !index_in_range(v[i].mask_image_index, count) by {
            if i < w.len() {
                assert(w[i] == v[i]);
            }
        }
    }
}

/// Tells whether some index of `entries` names one of `count` blocks.
fn names_any_block(entries: &Vec<GridEntry>, count: u32) -> (r: bool)
    ensures
        r == (slots_in_range(entries@, count as int) > 0),
{
    let mut i: usize = 0;
    let mut found = false;
    while i < entries.len()
        invariant
            i <= entries@.len(),
            found == (slots_in_range(entries@.take(i as int), count as int) > 0),
        decreases entries@.len() - i,
    {
        let e = entries[i];
        if e.main_image_index >= 0 && (e.main_image_index as u32) < count {
            found = true;
        }
        if e.mask_image_index >= 0 && (e.mask_image_index as u32) < count {
            found = true;
        }
        assert(entries@.take(i + 1).drop_last() =~= entries@.take(i as int));
        i = i + 1;
    }
    assert(entries@.take(entries@.len() as int) =~= entries@);
    found
}

/// The error that reading `s` ends with, if any.
pub open spec fn container_error(s: Seq<u8>) -> Option<BgstError> {
    if !valid_header(s) {
        Some(BgstError::InvalidContainer)
    } else if !layout_ok(s) {
        Some(BgstError::MalformedLayout)
    } else if !block_decodable(be_u32(s, 8), be_u32(s, 0xC)) && slots_named(s) > 0 {
        Some(BgstError::UndecodableSize)
    } else {
        None
    }
}

/// The decoded images of a container, with its grid entries.
pub struct ImageList {
    /// Width in pixels of every image.
    pub image_width: u32,
    /// Height in pixels of every image.
    pub image_height: u32,
    /// The grid entries, in file order.
    pub grid_entries: Vec<GridEntry>,
    /// The decoded RGBA images, in the order they were produced.
    pub images: Vec<Vec<u8>>,
}

impl ImageList {
    /// The images as byte sequences.
    pub open spec fn images_view(self) -> Seq<Seq<u8>> {
        self.images@.map_values(|v: Vec<u8>| v@)
    }
}

/// Decodes the block at `index` of the block array at `data_offset`.
pub fn decode_block(
    bytes: &Vec<u8>,
    data_offset: usize,
    index: usize,
    width: u32,
    height: u32,
    kind: TextureKind,
) -> (r: Vec<u8>)
    requires
        data_offset + (index + 1) * COMPRESSED_IMAGE_SIZE <= bytes@.len(),
        block_decodable(width as int, height as int),
    ensures
        r@ == decoded_texture(block_at(bytes@, data_offset as int, index as int), width, height, kind),
        r@.len() == raster_len(width, height),
{
    let len = bytes.len();
    assert(data_offset + index * COMPRESSED_IMAGE_SIZE + COMPRESSED_IMAGE_SIZE <= len);
    let start = data_offset + index * COMPRESSED_IMAGE_SIZE;
    let block = slice_subrange(bytes.as_slice(), start, start + COMPRESSED_IMAGE_SIZE);
    decode_texture(block, width, height, kind)
}

/// `l` holds what the container `s` declares: the image size and the grid
/// entries in file order.
pub open spec fn images_read_from(l: ImageList, s: Seq<u8>) -> bool {
    &&& l.image_width as int == be_u32(s, 8)
    &&& l.image_height as int == be_u32(s, 0xC)
    &&& l.grid_entries@.len() == (be_u32(s, 0x2C) - be_u32(s, 0x28)) / (GRID_ENTRY_SIZE as int)
    &&& entries_read_from(l.grid_entries@, s, be_u32(s, 0x28))
}

/// Tells whether an image of `width` by `height` pixels fits in one block.
fn fits_one_block(width: u32, height: u32) -> (r: bool)
    ensures
        r == block_decodable(width as int, height as int),
{
    if width > u32::MAX - 8 || height > u32::MAX - 8 {
        return false;
    }
    let tiles_w: u64 = (width as u64 + 7) / 8;
    let tiles_h: u64 = (height as u64 + 7) / 8;
    assert(tiles_w * tiles_h <= 0x1000_0000_0000_0000) by (nonlinear_arith)
        requires
            tiles_w <= 0x2000_0000,
            tiles_h <= 0x2000_0000,
    ;
    tiles_w * tiles_h <= 0x1000
}

/// The images emitted for one entry when main images are composited with their
/// masks: an entry that names both gets the one composite of the two, any other
/// entry gets what it names unchanged.
pub open spec fn masked_slot_images(s: Seq<u8>, a: BlockArray, e: GridEntry) -> Seq<Seq<u8>> {
    if index_in_range(e.main_image_index, a.count) && index_in_range(e.mask_image_index, a.count) {
        seq![
            composite(
                decoded_texture(block_at(s, a.data_offset, e.main_image_index as int), a.width, a.height, TextureKind::Cmpr),
                decoded_texture(block_at(s, a.data_offset, e.mask_image_index as int), a.width, a.height, TextureKind::I4),
                raster_len(a.width, a.height),
            ),
        ]
    } else {
        slot_images(s, a, e)
    }
}

/// The images emitted for `entries`, entry after entry, with or without compositing.
pub open spec fn emitted_images(s: Seq<u8>, a: BlockArray, entries: Seq<GridEntry>, masked: bool) -> Seq<Seq<u8>>
    decreases entries.len(),
{
    if entries.len() == 0 {
        Seq::empty()
    } else {
        emitted_images(s, a, entries.drop_last(), masked) + if masked {
            masked_slot_images(s, a, entries.last())
        } else {
            slot_images(s, a, entries.last())
        }
    }
}

/// Without compositing, the images emitted are the images decoded.
pub proof fn lemma_unmasked_is_decoded(s: Seq<u8>, a: BlockArray, entries: Seq<GridEntry>)
    ensures
        emitted_images(s, a, entries, false) == images_of(s, a, entries),
    decreases entries.len(),
{
    if entries.len() > 0 {
        lemma_unmasked_is_decoded(s, a, entries.drop_last());
    }
}

/// Appends to `images` what `entry` emits: its decoded main image and mask, or
/// with `masked`, their composite where it names both.
fn push_entry_images(
    images: &mut Vec<Vec<u8>>,
    bytes: &Vec<u8>,
    data_offset: usize,
    count: u32,
    width: u32,
    height: u32,
    entry: GridEntry,
    masked: bool,
)
    requires
        data_offset + count * COMPRESSED_IMAGE_SIZE <= bytes@.len(),
        block_decodable(width as int, height as int) || (!index_in_range(
            entry.main_image_index,
            count as int,
        ) && !index_in_range(entry.mask_image_index, count as int)),
    ensures
        final(images)@.map_values(|v: Vec<u8>| v@) == old(images)@.map_values(|v: Vec<u8>| v@)
            + if masked {
            masked_slot_images(
                bytes@,
                BlockArray { data_offset: data_offset as int, count: count as int, width, height },
                entry,
            )
        } else {
            slot_images(
                bytes@,
                BlockArray { data_offset: data_offset as int, count: count as int, width, height },
                entry,
            )
        },
{
    let ghost a = BlockArray { data_offset: data_offset as int, count: count as int, width, height };
    let ghost before = images@.map_values(|v: Vec<u8>| v@);
    let has_main = entry.main_image_index >= 0 && (entry.main_image_index as u32) < count;
    let has_mask = entry.mask_image_index >= 0 && (entry.mask_image_index as u32) < count;
    if masked && has_main && has_mask {
        let main = decode_block(bytes, data_offset, entry.main_image_index as usize, width, height, TextureKind::Cmpr);
        let mask = decode_block(bytes, data_offset, entry.mask_image_index as usize, width, height, TextureKind::I4);
        match apply_mask(&main, &mask, width, height) {
            Ok(merged) => {
                images.push(merged);
            },
            Err(_) => {},
        }
        assert(images@.map_values(|v: Vec<u8>| v@) =~= before + masked_slot_images(bytes@, a, entry));
        return;
    }
    if has_main {
        let decoded = decode_block(bytes, data_offset, entry.main_image_index as usize, width, height, TextureKind::Cmpr);
        images.push(decoded);
    }
    let ghost mid = images@.map_values(|v: Vec<u8>| v@);
    if has_mask {
        let decoded = decode_block(bytes, data_offset, entry.mask_image_index as usize, width, height, TextureKind::I4);
        images.push(decoded);
    }
    proof {
        let main = if index_in_range(entry.main_image_index, a.count) {
            seq![decoded_texture(block_at(bytes@, a.data_offset, entry.main_image_index as int), a.width, a.height, TextureKind::Cmpr)]
        } else {
            Seq::<Seq<u8>>::empty()
        };
        assert(mid =~= before + main);
        assert(images@.map_values(|v: Vec<u8>| v@) =~= before + slot_images(bytes@, a, entry));
    }
}

/// Reads a container and emits, entry after entry, the main image (decoded as
/// CMPR) and then the mask (decoded as I4) that each grid entry names; with
/// `masked`, an entry that names both emits their composite instead. An index
/// outside `[0, image_count)` names no image and is skipped. Fails with
/// `InvalidContainer` on a bad header, with `MalformedLayout` when the entry
/// region or the declared blocks do not lie in the buffer, and with
/// `UndecodableSize` when some entry names a block but the declared image size
/// does not fit in one block.
pub fn get_images(bgst_contents: &Vec<u8>, masked: bool) -> (r: Result<ImageList, BgstError>)
    ensures
        match container_error(bgst_contents@) {
            Some(e) => r == Err::<ImageList, BgstError>(e),
            None => r is Ok,
        },
        r is Ok ==> images_read_from(r->Ok_0, bgst_contents@),
        r is Ok ==> r->Ok_0.images_view() == emitted_images(
            bgst_contents@,
            blocks_of(bgst_contents@),
            r->Ok_0.grid_entries@,
            masked,
        ),
{
    if !validate_header(bgst_contents) {
        return Err(BgstError::InvalidContainer);
    }
    let header = Header::from_validated_header_bytes(bgst_contents);
    let grid_entries = match parse_grid_entries(
        bgst_contents,
        header.info_offset,
        header.image_data_offset,
    ) {
        Ok(v) => v,
        Err(e) => return Err(e),
    };
    let len = bgst_contents.len() as u64;
    let blocks_end = header.image_data_offset as u64 + header.image_count as u64
        * COMPRESSED_IMAGE_SIZE as u64;
    if blocks_end > len {
        return Err(BgstError::MalformedLayout);
    }
    let width = header.image_width;
    let height = header.image_height;
    let decodable = fits_one_block(width, height);
    proof {
        lemma_slots_of_records(grid_entries@, bgst_contents@, header.info_offset as int, header.image_count as int);
    }
    if !decodable && names_any_block(&grid_entries, header.image_count) {
        return Err(BgstError::UndecodableSize);
    }
    proof {
        if !decodable {
            lemma_no_slots(grid_entries@, header.image_count as int);
        }
    }
    let ghost s = bgst_contents@;
    let ghost a = blocks_of(s);
    let mut images: Vec<Vec<u8>> = Vec::new();
    let mut i: usize = 0;
    while i < grid_entries.len()
        invariant
            i <= grid_entries@.len(),
            header.read_from(s),
            s == bgst_contents@,
            a == blocks_of(s),
            layout_ok(s),
            decodable == block_decodable(width as int, height as int),
            !decodable ==> forall|k: int|
                0 <= k < grid_entries@.len() ==> !index_in_range(
                    #[trigger] grid_entries@[k].main_image_index,
                    header.image_count as int,
                ) && !index_in_range(grid_entries@[k].mask_image_index, header.image_count as int),
            width == header.image_width,
            height == header.image_height,
            images@.map_values(|v: Vec<u8>| v@) == emitted_images(s, a, grid_entries@.take(i as int), masked),
        decreases grid_entries@.len() - i,
    {
        let entry = grid_entries[i];
        push_entry_images(
            &mut images,
            bgst_contents,
            header.image_data_offset,
            header.image_count,
            width,
            height,
            entry,
            masked,
        );
        assert(grid_entries@.take(i + 1).drop_last() =~= grid_entries@.take(i as int));
        i = i + 1;
    }
    assert(grid_entries@.take(grid_entries@.len() as int) =~= grid_entries@);
    Ok(ImageList { image_width: width, image_height: height, grid_entries, images })
}

/// Reads a container and decodes, entry after entry, the main image (as CMPR)
/// and then the mask (as I4) that each grid entry names, with no compositing.
/// Fails as `get_images` does.
pub fn get_raw_images(bgst_contents: &Vec<u8>) -> (r: Result<ImageList, BgstError>)
    ensures
        match container_error(bgst_contents@) {
            Some(e) => r == Err::<ImageList, BgstError>(e),
            None => r is Ok,
        },
        r is Ok ==> images_read_from(r->Ok_0, bgst_contents@),
        r is Ok ==> r->Ok_0.images_view() == images_of(
            bgst_contents@,
            blocks_of(bgst_contents@),
            r->Ok_0.grid_entries@,
        ),
{
    let r = get_images(bgst_contents, false);
    proof {
        if r is Ok {
            lemma_unmasked_is_decoded(bgst_contents@, blocks_of(bgst_contents@), r->Ok_0.grid_entries@);
        }
    }
    r
}

/// Number of image indices of `entries` that name one of `count` blocks.
pub open spec fn slots_in_range(entries: Seq<GridEntry>, count: int) -> nat
    decreases entries.len(),
{
    if entries.len() == 0 {
        0
    } else {
        let e = entries.last();
        slots_in_range(entries.drop_last(), count) + (if index_in_range(e.main_image_index, count) {
            1nat
        } else {
            0nat
        }) + (if index_in_range(e.mask_image_index, count) {
            1nat
        } else {
            0nat
        })
    }
}

/// An index outside `[0, count)` yields no image: one image is decoded per
/// index in range, and an entry with no index in range adds none.
pub proof fn lemma_out_of_range_skipped(s: Seq<u8>, a: BlockArray, entries: Seq<GridEntry>, e: GridEntry)
    ensures
        images_of(s, a, entries).len() == slots_in_range(entries, a.count),
        !index_in_range(e.main_image_index, a.count) && !index_in_range(e.mask_image_index, a.count)
            ==> images_of(s, a, entries.push(e)) == images_of(s, a, entries),
    decreases entries.len(),
{
    if entries.len() > 0 {
        lemma_out_of_range_skipped(s, a, entries.drop_last(), e);
    }
    assert(entries.push(e).drop_last() =~= entries);
    assert(images_of(s, a, entries) + Seq::<Seq<u8>>::empty() =~= images_of(s, a, entries));
}

/// A container with a whole entry region of `n` records and all its declared
/// blocks reads without error, and its entry region holds exactly `n`
/// records, provided its image size fits one block or no index names a block.
pub proof fn lemma_well_formed_container(s: Seq<u8>, n: nat)
    requires
        valid_header(s),
        be_u32(s, 0x2C) == be_u32(s, 0x28) + 16 * n,
        s.len() >= be_u32(s, 0x2C) + be_u32(s, 0x18) * COMPRESSED_IMAGE_SIZE,
        block_decodable(be_u32(s, 8), be_u32(s, 0xC)) || slots_named(s) == 0,
    ensures
        container_error(s) == None::<BgstError>,
        (be_u32(s, 0x2C) - be_u32(s, 0x28)) / (GRID_ENTRY_SIZE as int) == n,
{
}

/// Changing one entry so that it names one image less removes exactly that
/// image: where `e2` decodes what `e1` decodes but the image at `t`, the
/// images of `p, e2, q` are those of `p, e1, q` without the one at
/// `images_of(p).len() + t`, the others keeping their order.
pub proof fn lemma_slot_removed(
    s: Seq<u8>,
    a: BlockArray,
    p: Seq<GridEntry>,
    e1: GridEntry,
    e2: GridEntry,
    q: Seq<GridEntry>,
    t: int,
)
    requires
        0 <= t < slot_images(s, a, e1).len(),
        slot_images(s, a, e2) == slot_images(s, a, e1).remove(t),
    ensures
        images_of(s, a, p.push(e1) + q).len() > images_of(s, a, p).len() + t,
        images_of(s, a, p.push(e2) + q) == images_of(s, a, p.push(e1) + q).remove(
            images_of(s, a, p).len() as int + t,
        ),
    decreases q.len(),
{
    let j = images_of(s, a, p).len() as int + t;
    if q.len() == 0 {
        assert(p.push(e1) + q =~= p.push(e1));
        assert(p.push(e2) + q =~= p.push(e2));
        assert(p.push(e1).drop_last() =~= p);
        assert(p.push(e2).drop_last() =~= p);
        assert(images_of(s, a, p) + slot_images(s, a, e1).remove(t) =~= (images_of(s, a, p)
            + slot_images(s, a, e1)).remove(j));
    } else {
        let q0 = q.drop_last();
        lemma_slot_removed(s, a, p, e1, e2, q0, t);
        assert((p.push(e1) + q).drop_last() =~= p.push(e1) + q0);
        assert((p.push(e2) + q).drop_last() =~= p.push(e2) + q0);
        assert((p.push(e1) + q).last() == q.last());
        assert((p.push(e2) + q).last() == q.last());
        let before = images_of(s, a, p.push(e1) + q0);
        let tail = slot_images(s, a, q.last());
        assert(before.remove(j) + tail =~= (before + tail).remove(j));
    }
}

/// An entry whose main image index leaves `[0, count)` loses its main image
/// and nothing else.
pub proof fn lemma_main_index_out_of_range(
    s: Seq<u8>,
    a: BlockArray,
    p: Seq<GridEntry>,
    e: GridEntry,
    index: i16,
    q: Seq<GridEntry>,
)
    requires
        index_in_range(e.main_image_index, a.count),
        !index_in_range(index, a.count),
    ensures
        images_of(s, a, p.push(GridEntry { main_image_index: index, ..e }) + q) == images_of(
            s,
            a,
            p.push(e) + q,
        ).remove(images_of(s, a, p).len() as int),
{
    let e2 = GridEntry { main_image_index: index, ..e };
    assert(slot_images(s, a, e2) =~= slot_images(s, a, e).remove(0));
    lemma_slot_removed(s, a, p, e, e2, q, 0);
}

/// An entry whose mask index leaves `[0, count)` loses its mask and nothing
/// else.
pub proof fn lemma_mask_index_out_of_range(
    s: Seq<u8>,
    a: BlockArray,
    p: Seq<GridEntry>,
    e: GridEntry,
    index: i16,
    q: Seq<GridEntry>,
)
    requires
        index_in_range(e.mask_image_index, a.count),
        !index_in_range(index, a.count),
    ensures
        images_of(s, a, p.push(GridEntry { mask_image_index: index, ..e }) + q) == images_of(
            s,
            a,
            p.push(e) + q,
        ).remove(
            images_of(s, a, p).len() as int + if index_in_range(e.main_image_index, a.count) {
                1int
            } else {
                0int
            },
        ),
{
    let e2 = GridEntry { mask_image_index: index, ..e };
    let t: int = if index_in_range(e.main_image_index, a.count) {
        1
    } else {
        0
    };
    assert(slot_images(s, a, e2) =~= slot_images(s, a, e).remove(t));
    lemma_slot_removed(s, a, p, e, e2, q, t);
}

/// Images depend on the buffer only through the blocks: two buffers that agree
/// on the block array give the same images for the same entries.
pub proof fn lemma_images_same_blocks(s1: Seq<u8>, s2: Seq<u8>, a: BlockArray, v: Seq<GridEntry>)
    requires
        0 <= a.data_offset,
        0 <= a.count,
        s1.len() == s2.len(),
        a.data_offset + a.count * COMPRESSED_IMAGE_SIZE <= s1.len(),
        forall|i: int|
            a.data_offset <= i < a.data_offset + a.count * COMPRESSED_IMAGE_SIZE ==> s1[i] == s2[i],
    ensures
        images_of(s1, a, v) == images_of(s2, a, v),
    decreases v.len(),
{
    if v.len() > 0 {
        lemma_images_same_blocks(s1, s2, a, v.drop_last());
        let e = v.last();
        if index_in_range(e.main_image_index, a.count) {
            let x = e.main_image_index as int;
            assert(block_at(s1, a.data_offset, x) =~= block_at(s2, a.data_offset, x));
        }
        if index_in_range(e.mask_image_index, a.count) {
            let x = e.mask_image_index as int;
            assert(block_at(s1, a.data_offset, x) =~= block_at(s2, a.data_offset, x));
        }
        assert(slot_images(s1, a, e) =~= slot_images(s2, a, e));
    }
}

/// Two containers that differ only in the main image index of record `k`,
/// in range in the first and out of range in the second, read to the same
/// images but the one of that slot, the others keeping their order. The entry
/// region must lie past the header, so that the change leaves it alone.
pub proof fn lemma_main_index_dropped(
    s1: Seq<u8>,
    s2: Seq<u8>,
    k: int,
    l1: ImageList,
    l2: ImageList,
)
    requires
        container_error(s1) == None::<BgstError>,
        be_u32(s1, 0x28) >= HEADER_SIZE,
        s1.len() == s2.len(),
        0 <= k < l1.grid_entries@.len(),
        forall|i: int|
            0 <= i < s1.len() && i != be_u32(s1, 0x28) + 16 * k + 8 && i != be_u32(s1, 0x28) + 16
                * k + 9 ==> s1[i] == s2[i],
        index_in_range(l1.grid_entries@[k].main_image_index, be_u32(s1, 0x18)),
        !(0 <= be_i16(s2, be_u32(s1, 0x28) + 16 * k + 8) < be_u32(s1, 0x18)),
        images_read_from(l1, s1),
        images_read_from(l2, s2),
        l1.images_view() == images_of(s1, blocks_of(s1), l1.grid_entries@),
        l2.images_view() == images_of(s2, blocks_of(s2), l2.grid_entries@),
    ensures
        l2.images_view() == l1.images_view().remove(
            images_of(s1, blocks_of(s1), l1.grid_entries@.take(k)).len() as int,
        ),
{
    let start = be_u32(s1, 0x28);
    let at = start + 16 * k;
    let a = blocks_of(s1);
    let v1 = l1.grid_entries@;
    let v2 = l2.grid_entries@;
    assert(blocks_of(s2) == a);
    assert(be_u32(s2, 0x28) == start);
    assert(be_u32(s2, 0x2C) == be_u32(s1, 0x2C));
    let e1 = v1[k];
    let e2 = GridEntry { main_image_index: v2[k].main_image_index, ..e1 };
    assert(v1[k].read_from(s1, at));
    assert(v2[k].read_from(s2, at));
    assert forall|i: int| 0 <= i < v1.len() && i != k implies v2[i] == v1[i] by {
        assert(v1[i].read_from(s1, start + 16 * i));
        assert(v2[i].read_from(s2, start + 16 * i));
        assert(i < k ==> start + 16 * i + 16 <= at);
        assert(i > k ==> at + 16 <= start + 16 * i);
    }
    assert(v2[k] == e2);
    let p = v1.take(k);
    let q = v1.skip(k + 1);
    assert(v1 =~= p.push(e1) + q);
    assert(v2 =~= p.push(e2) + q);
    assert(!index_in_range(e2.main_image_index, a.count));
    lemma_main_index_out_of_range(s1, a, p, e1, e2.main_image_index, q);
    assert forall|i: int|
        a.data_offset <= i < a.data_offset + a.count * COMPRESSED_IMAGE_SIZE implies s1[i]
        == s2[i] by {
        assert(at + 16 <= be_u32(s1, 0x2C));
    }
    lemma_images_same_blocks(s1, s2, a, v2);
}

/// Two containers that differ only in the mask index of record `k`,
/// in range in the first and out of range in the second, read to the same
/// images but the mask of that slot, the others keeping their order. The entry
/// region must lie past the header, so that the change leaves it alone.
pub proof fn lemma_mask_index_dropped(
    s1: Seq<u8>,
    s2: Seq<u8>,
    k: int,
    l1: ImageList,
    l2: ImageList,
)
    requires
        container_error(s1) == None::<BgstError>,
        be_u32(s1, 0x28) >= HEADER_SIZE,
        s1.len() == s2.len(),
        0 <= k < l1.grid_entries@.len(),
        forall|i: int|
            0 <= i < s1.len() && i != be_u32(s1, 0x28) + 16 * k + 0xA && i != be_u32(s1, 0x28) + 16
                * k + 0xB ==> s1[i] == s2[i],
        index_in_range(l1.grid_entries@[k].mask_image_index, be_u32(s1, 0x18)),
        !(0 <= be_i16(s2, be_u32(s1, 0x28) + 16 * k + 0xA) < be_u32(s1, 0x18)),
        images_read_from(l1, s1),
        images_read_from(l2, s2),
        l1.images_view() == images_of(s1, blocks_of(s1), l1.grid_entries@),
        l2.images_view() == images_of(s2, blocks_of(s2), l2.grid_entries@),
    ensures
        l2.images_view() == l1.images_view().remove(
            images_of(s1, blocks_of(s1), l1.grid_entries@.take(k)).len() as int + if index_in_range(
                l1.grid_entries@[k].main_image_index,
                be_u32(s1, 0x18),
            ) {
                1int
            } else {
                0int
            },
        ),
{
    let start = be_u32(s1, 0x28);
    let at = start + 16 * k;
    let a = blocks_of(s1);
    let v1 = l1.grid_entries@;
    let v2 = l2.grid_entries@;
    assert(blocks_of(s2) == a);
    assert(be_u32(s2, 0x28) == start);
    assert(be_u32(s2, 0x2C) == be_u32(s1, 0x2C));
    let e1 = v1[k];
    let e2 = GridEntry { mask_image_index: v2[k].mask_image_index, ..e1 };
    assert(v1[k].read_from(s1, at));
    assert(v2[k].read_from(s2, at));
    assert forall|i: int| 0 <= i < v1.len() && i != k implies v2[i] == v1[i] by {
        assert(v1[i].read_from(s1, start + 16 * i));
        assert(v2[i].read_from(s2, start + 16 * i));
        assert(i < k ==> start + 16 * i + 16 <= at);
        assert(i > k ==> at + 16 <= start + 16 * i);
    }
    assert(v2[k] == e2);
    let p = v1.take(k);
    let q = v1.skip(k + 1);
    assert(v1 =~= p.push(e1) + q);
    assert(v2 =~= p.push(e2) + q);
    assert(!index_in_range(e2.mask_image_index, a.count));
    lemma_mask_index_out_of_range(s1, a, p, e1, e2.mask_image_index, q);
    assert forall|i: int|
        a.data_offset <= i < a.data_offset + a.count * COMPRESSED_IMAGE_SIZE implies s1[i]
        == s2[i] by {
        assert(at + 16 <= be_u32(s1, 0x2C));
    }
    lemma_images_same_blocks(s1, s2, a, v2);
}

} // verus!

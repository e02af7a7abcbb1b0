//! The grid-entry records between the entry offset and the image-data offset.

use vstd::prelude::*;
use crate::bytes::{be_i16, read_i16_be};
use crate::error::BgstError;

verus! {

/// Size in bytes of one grid-entry record.
pub const GRID_ENTRY_SIZE: usize = 0x10;

/// One cell of the placement grid. Unknown fields are named by their offset.
#[derive(Clone, Copy, Debug, PartialEq, Eq, Structural)]
pub struct GridEntry {
    /// Nonzero when the cell is shown.
    pub enabled: i16,
    /// The rendering layer of the cell.
    pub scene_index: i16,
    /// Row of the cell.
    pub grid_x: i16,
    /// Column of the cell.
    pub grid_y: i16,
    /// Index of the CMPR image of the cell, or -1.
    pub main_image_index: i16,
    /// Index of the I4 mask of the cell, or -1.
    pub mask_image_index: i16,
    /// Not interpreted.
    pub unk_c: i16,
    /// Not interpreted.
    pub unk_e: i16,
}

impl GridEntry {
    /// Every field of `self` is read, big-endian, from the record at `at` in `s`.
    pub open spec fn read_from(self, s: Seq<u8>, at: int) -> bool {
        &&& self.enabled as int == be_i16(s, at)
        &&& self.scene_index as int == be_i16(s, at + 2)
        &&& self.grid_x as int == be_i16(s, at + 4)
        &&& self.grid_y as int == be_i16(s, at + 6)
        &&& self.main_image_index as int == be_i16(s, at + 8)
        &&& self.mask_image_index as int == be_i16(s, at + 0xA)
        &&& self.unk_c as int == be_i16(s, at + 0xC)
        &&& self.unk_e as int == be_i16(s, at + 0xE)
    }

    /// Tells whether the cell is shown.
    pub fn is_enabled(&self) -> (r: bool)
        ensures
            r == (self.enabled != 0),
    {
        self.enabled != 0
    }
}

/// The region `[start, end)` of a buffer of `len` bytes is a whole number of records.
pub open spec fn entry_region_ok(len: int, start: int, end: int) -> bool {
    &&& start <= end
    &&& end <= len
    &&& (end - start) % (GRID_ENTRY_SIZE as int) == 0
}

/// `v` holds, in order, the records of `s` from `start`, one per 16 bytes.
pub open spec fn entries_read_from(v: Seq<GridEntry>, s: Seq<u8>, start: int) -> bool {
    forall|i: int| 0 <= i < v.len() ==> #[trigger] v[i].read_from(s, start + 16 * i)
}

/// Reads the record at `at`.
pub fn read_grid_entry(bytes: &Vec<u8>, at: usize) -> (r: GridEntry)
    requires
        at + GRID_ENTRY_SIZE <= bytes@.len(),
    ensures
        r.read_from(bytes@, at as int),
{
    let len = bytes.len();
    assert(at + GRID_ENTRY_SIZE <= len);
    GridEntry {
        enabled: read_i16_be(bytes, at),
        scene_index: read_i16_be(bytes, at + 2),
        grid_x: read_i16_be(bytes, at + 4),
        grid_y: read_i16_be(bytes, at + 6),
        main_image_index: read_i16_be(bytes, at + 8),
        mask_image_index: read_i16_be(bytes, at + 0xA),
        unk_c: read_i16_be(bytes, at + 0xC),
        unk_e: read_i16_be(bytes, at + 0xE),
    }
}

/// Reads the records from `info_offset` up to `image_data_offset`, in file order.
/// Fails with `MalformedLayout` unless that region lies in `bytes` and is a
/// whole number of 16-byte records.
pub fn parse_grid_entries(bytes: &Vec<u8>, info_offset: usize, image_data_offset: usize) -> (r:
    Result<Vec<GridEntry>, BgstError>)
    ensures
        r is Ok <==> entry_region_ok(bytes@.len() as int, info_offset as int, image_data_offset as int),
        r is Err ==> r->Err_0 == BgstError::MalformedLayout,
        r is Ok ==> r->Ok_0@.len() == (image_data_offset - info_offset) / (GRID_ENTRY_SIZE as int),
        r is Ok ==> entries_read_from(r->Ok_0@, bytes@, info_offset as int),
{
    if info_offset > image_data_offset || image_data_offset > bytes.len()
        || (image_data_offset - info_offset) % GRID_ENTRY_SIZE != 0 {
        return Err(BgstError::MalformedLayout);
    }
    let mut entries: Vec<GridEntry> = Vec::new();
    let mut current_offset: usize = info_offset;
    while current_offset < image_data_offset
        invariant
            info_offset <= current_offset <= image_data_offset <= bytes@.len(),
            (image_data_offset - info_offset) % 16 == 0,
            (current_offset - info_offset) % 16 == 0,
            entries@.len() == (current_offset - info_offset) / 16,
            entries_read_from(entries@, bytes@, info_offset as int),
        decreases image_data_offset - current_offset,
    {
        let entry = read_grid_entry(bytes, current_offset);
        entries.push(entry);
        current_offset = current_offset + GRID_ENTRY_SIZE;
    }
    Ok(entries)
}

} // verus!

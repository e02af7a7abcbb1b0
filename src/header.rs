//! The fixed 64-byte container header.

use vstd::prelude::*;
use crate::bytes::{be_u32, read_u32_be};

verus! {

/// Size in bytes of the fixed header region.
pub const HEADER_SIZE: usize = 0x40;

/// The container's magic, "BGST", as bytes.
pub open spec fn magic() -> Seq<u8> {
    seq![0x42u8, 0x47u8, 0x53u8, 0x54u8]
}

/// A buffer holds a header: it is at least 64 bytes long and starts with the magic.
pub open spec fn valid_header(s: Seq<u8>) -> bool {
    s.len() >= HEADER_SIZE && s.subrange(0, 4) == magic()
}

/// The header of a BGST container. Unknown fields are named by their offset.
pub struct Header {
    /// Not interpreted.
    pub unk_4: u32,
    /// Width in pixels of every image of the file.
    pub image_width: u32,
    /// Height in pixels of every image of the file.
    pub image_height: u32,
    /// Number of rows of the placement grid.
    pub grid_width: u32,
    /// Number of columns of the placement grid.
    pub grid_height: u32,
    /// Number of compressed image blocks.
    pub image_count: u32,
    /// Which of the twelve rendering layers are available to entries.
    pub layer_enabled: [bool; 12],
    /// Byte offset of the grid-entry array.
    pub info_offset: usize,
    /// Byte offset of the compressed-block array.
    pub image_data_offset: usize,
}

impl Header {
    /// Every field of `self` is read, big-endian, at its offset in `s`.
    pub open spec fn read_from(self, s: Seq<u8>) -> bool {
        &&& self.unk_4 as int == be_u32(s, 4)
        &&& self.image_width as int == be_u32(s, 8)
        &&& self.image_height as int == be_u32(s, 0xC)
        &&& self.grid_width as int == be_u32(s, 0x10)
        &&& self.grid_height as int == be_u32(s, 0x14)
        &&& self.image_count as int == be_u32(s, 0x18)
        &&& self.layer_enabled@ == Seq::new(12, |i: int| s[0x1C + i] != 0)
        &&& self.info_offset as int == be_u32(s, 0x28)
        &&& self.image_data_offset as int == be_u32(s, 0x2C)
    }

    /// Reads the header of a buffer that has passed `validate_header`.
    pub fn from_validated_header_bytes(header_contents: &Vec<u8>) -> (r: Header)
        requires
            header_contents@.len() >= HEADER_SIZE,
        ensures
            r.read_from(header_contents@),
    {
        let b = header_contents;
        let layer_enabled = [
            b[0x1C] != 0,
            b[0x1D] != 0,
            b[0x1E] != 0,
            b[0x1F] != 0,
            b[0x20] != 0,
            b[0x21] != 0,
            b[0x22] != 0,
            b[0x23] != 0,
            b[0x24] != 0,
            b[0x25] != 0,
            b[0x26] != 0,
            b[0x27] != 0,
        ];
        let r = Header {
            unk_4: read_u32_be(b, 4),
            image_width: read_u32_be(b, 8),
            image_height: read_u32_be(b, 0xC),
            grid_width: read_u32_be(b, 0x10),
            grid_height: read_u32_be(b, 0x14),
            image_count: read_u32_be(b, 0x18),
            layer_enabled,
            info_offset: read_u32_be(b, 0x28) as usize,
            image_data_offset: read_u32_be(b, 0x2C) as usize,
        };
        assert(r.layer_enabled@ =~= Seq::new(12, |i: int| b@[0x1C + i] != 0));
        r
    }
}

/// Tells whether `file_contents` starts with a BGST header: at least 64
/// bytes, the first four of them "BGST".
pub fn validate_header(file_contents: &Vec<u8>) -> (r: bool)
    ensures
        r == valid_header(file_contents@),
{
    if file_contents.len() < HEADER_SIZE {
        return false;
    }
    let ok = file_contents[0] == 0x42 && file_contents[1] == 0x47 && file_contents[2] == 0x53
        && file_contents[3] == 0x54;
    assert(ok == (file_contents@.subrange(0, 4) =~= magic()));
    ok
}

} // verus!

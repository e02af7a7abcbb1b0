//! What can go wrong while reading a container.

use vstd::prelude::*;

verus! {

/// The ways reading a container can fail.
#[derive(Clone, Copy, Debug, PartialEq, Eq, Structural)]
pub enum BgstError {
    /// The buffer is shorter than a header or does not start with "BGST".
    InvalidContainer,
    /// The entry region is not a whole number of records inside the buffer,
    /// or the buffer is too short for the declared image blocks.
    MalformedLayout,
    /// An entry names a block, but the image size declared by the header
    /// cannot be decoded from one block.
    UndecodableSize,
    /// A main image and a mask of different byte lengths were composited.
    SizeMismatch,
    /// An image buffer holds fewer bytes than its width and height call for.
    ImageTooSmall,
    /// The image encoder refused an image.
    EncodeFailed,
}

impl BgstError {
    /// The text that `message` gives for each error.
    pub open spec fn message_text(self) -> Seq<char> {
        match self {
            BgstError::InvalidContainer => "not a valid BGST file"@,
            BgstError::MalformedLayout => "malformed BGST layout"@,
            BgstError::UndecodableSize => "image size does not fit one block"@,
            BgstError::SizeMismatch => "the image sizes are not equal"@,
            BgstError::ImageTooSmall => "image buffer too small"@,
            BgstError::EncodeFailed => "failed to encode image"@,
        }
    }

    /// A human-readable description of the error.
    pub fn message(&self) -> (r: String)
        ensures
            r@ == self.message_text(),
    {
        match self {
            BgstError::InvalidContainer => "not a valid BGST file".to_string(),
            BgstError::MalformedLayout => "malformed BGST layout".to_string(),
            BgstError::UndecodableSize => "image size does not fit one block".to_string(),
            BgstError::SizeMismatch => "the image sizes are not equal".to_string(),
            BgstError::ImageTooSmall => "image buffer too small".to_string(),
            BgstError::EncodeFailed => "failed to encode image".to_string(),
        }
    }
}

} // verus!

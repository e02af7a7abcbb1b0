//! Reading of BGST tile containers: the fixed header, the grid of placement
//! records, the compressed image blocks they point at, and the compositing of
//! a decoded image with its transparency mask.

pub mod bytes;
pub mod header;
pub mod error;
pub mod entries;
pub mod images;
pub mod mask;
pub mod export;

pub use entries::{parse_grid_entries, GridEntry};
pub use error::BgstError;
pub use export::get_png_images;
pub use header::{validate_header, Header};
pub use images::{get_images, get_raw_images, ImageList, TextureKind};
pub use mask::apply_mask;

//! PINK-072: a frame codec that packs a payload behind a deterministic
//! 72x72 cover raster, and a minimal image container that carries the frame.

pub mod archive;
pub mod bytes;
pub mod constants;
pub mod cover;
pub mod error;
pub mod frame;
pub mod package;
pub mod png;
pub mod rng;

pub use constants::{BLOCK_SIZE, COVER_HEIGHT, COVER_LEN, COVER_WIDTH, HEADER_LEN, PREFIX_LEN};
pub use error::PinkError;
pub use frame::{pink072_unwrap, pink072_wrap, pink072_wrap_into};
pub use package::{
    decode_auto, decode_file, decode_folder, decode_raw, encode_auto, encode_file, encode_folder,
    encode_raw, PAYLOAD_TYPE_FILE, PAYLOAD_TYPE_RAW, PAYLOAD_TYPE_ZIP,
};
pub use png::{decode_pnk, encode_pnk};

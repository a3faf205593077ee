//! Metadata reconciliation for exported media archives: caption combining,
//! EXIF block encoding, JPEG metadata injection, and per-item dispatch.

pub mod caption;
pub mod civil;
pub mod dispatch;
pub mod error;
pub mod exif_block;
pub mod jpeg;
pub mod text;

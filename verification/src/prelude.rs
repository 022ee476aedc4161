//! Convenience re-exports of the whole public surface.

pub use crate::bitfield128::Bitfield128;
pub use crate::bitfield16::Bitfield16;
pub use crate::bitfield32::Bitfield32;
pub use crate::bitfield64::Bitfield64;
pub use crate::bitfield8::Bitfield8;
pub use crate::error::ConvError;
pub use crate::error::ConvResult;
pub use crate::error::ConvTarget;
pub use crate::index::Index;

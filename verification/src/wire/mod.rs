//! The compact binary wire format: how values are written and read.

pub mod codec;
pub mod de;
pub mod error;
pub mod ser;

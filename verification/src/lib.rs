//! License keys of 25 base-34 symbols: the symbol codec, the checksum and the
//! codec between a license record and its key.

pub mod alphabet;
pub mod checksum;
pub mod codec;
pub mod date;
pub mod edition;
mod entropy;
pub mod error;
pub mod laws;
pub mod license;
pub mod symbols;
pub mod text;

pub use crate::date::Date;
pub use crate::edition::KeyEdition;
pub use crate::error::KeyError;
pub use crate::license::License;

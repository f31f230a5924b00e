//! SFNT (TrueType/OpenType) fonts.

pub mod credentials;
pub mod directory;
pub mod font;
pub mod header;
pub mod integrity;
pub mod roundtrip;
pub mod table;

//! SFNT font tables.

pub mod dsig;
pub mod c2pa;
pub mod generic;
pub mod head;
pub mod named_table;

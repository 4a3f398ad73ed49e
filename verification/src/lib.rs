//! A minimal static linker for a custom relocatable object-file format.
//!
//! Object files carry a fixed header, a symbol table, a relocation table and
//! raw code bytes. Decoding turns one byte buffer into a structured record,
//! merging concatenates the code of several records while rebasing every
//! address by the running code length, and resolution overwrites each
//! relocation site with the little-endian address of the symbol it names.

pub mod decode;
pub mod errors;
pub mod link;
pub mod merge;
pub mod resolve;
pub mod tables;

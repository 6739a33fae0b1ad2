//! Verified planning logic of a small family of procedural macros: bit-field
//! structs, builder setters, a custom `Debug` derive and sortedness checks.
pub mod text;
pub mod bitfield;
pub mod access;
pub mod sorted;
pub mod builder;
pub mod builder_struct;
pub mod debug;

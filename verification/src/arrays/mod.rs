//! The built-in array encodings.

pub mod bool;
pub mod bool_laws;
pub mod constant;
pub mod fixed_size_list;
pub mod fixed_size_list_laws;
pub mod primitive;
pub mod primitive_laws;

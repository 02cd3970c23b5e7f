//! Tooling for partitioning an Armv8-M microcontroller into a secure and a
//! non-secure world, and for calling functions of one world from the other by
//! the hash of their name.

pub mod attribution;
pub mod bindings_generator;
pub mod example;
pub mod generic;
pub mod hash;
pub mod memory;
pub mod module_tree;
pub mod nrf;
pub mod nonsecure_callable_macro;
pub mod secure_callable_macro;
pub mod source;
pub mod text;
pub mod vector_table;

//! NeuroScript: a language for composing neural architectures out of neurons.

pub mod codegen;
pub mod interfaces;
pub mod ir;
pub mod listing;
pub mod name_map;
pub mod naming;
pub mod shape_inference;
pub mod shape_laws;
pub mod text;

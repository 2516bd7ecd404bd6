//! Types shared between the front end and the code generator.
use vstd::prelude::*;
use crate::ir::{Kwarg, Value};

verus! {

/// Where a named module binding lives in the generated class.
#[derive(Debug)]
pub enum Scope {
    /// Shared by every instance of the class.
    Static,
    /// One per instance; a lazy one is built on first use.
    Instance { lazy: bool },
    /// Refers to a module defined outside the class.
    Global,
}

/// A named module binding of a neuron's context: `name = CallName(args)`.
#[derive(Debug)]
pub struct Binding {
    pub name: String,
    pub call_name: String,
    pub args: Vec<Value>,
    pub kwargs: Vec<Kwarg>,
    pub scope: Scope,
}

/// An error of code generation.
#[derive(Debug)]
pub enum CodegenError {
    /// A construct the generator has no Python form for.
    Unsupported(String),
}

} // verus!

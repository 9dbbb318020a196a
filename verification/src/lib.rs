//! Analysis engine for the control-flow graph of a compiled function's
//! intermediate representation: resolution indices for opaque numeric IDs,
//! structural role inference for basic blocks, a conservative borrow-liveness
//! analysis, a lexical-lifetime analysis, and an interactive path navigator.
pub mod borrow;
pub mod explore;
pub mod index;
pub mod ir;
pub mod lifetime;
pub mod navigator;
pub mod render;
pub mod text;
pub mod traversal;
pub mod util;

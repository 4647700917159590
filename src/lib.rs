//! A byte-tape interpreter for an eight-instruction esoteric language, with a
//! single-step execution model, and the pixel-frame drawing that a viewer of
//! the machine's state uses.

pub mod frame;
pub mod machine;
pub mod program;
pub mod semantics;
pub mod viewer;

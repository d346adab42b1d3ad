//! Iterated-subgraph (scan) operator core: the declarative mapping between an
//! outer graph and a loop body, and the arithmetic that drives the loop.

pub mod dim;
pub mod driver;
pub mod duality;
pub mod error;
pub mod facts;
pub mod laws;
pub mod loop_parser;
pub mod mapping;
pub mod op;
pub mod run;
pub mod slicing;
pub mod slots;
pub mod tensor;
pub mod text;

//! Model-driven service generation: a parser for `.modelx` data model
//! descriptions, the code generators that turn a model into a web service,
//! and the ordered handler registry that the generated service runs.
pub mod text;
pub mod modelx;
pub mod corex;
pub mod handlerx;
pub mod expand;
pub mod modelx_laws;
pub mod rust_names;
pub mod corex_laws;

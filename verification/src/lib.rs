//! Queries over a model of a compiler's type graph, held in an arena: classification
//! of type shapes, trait and capability facts, drop order, normalizability,
//! call signatures, enum discriminants and size estimates.
//!
//! The types of a program live in an arena, [`context::TyCtxt`], together
//! with what the compiler has found out about them. Every query reads that
//! arena and states its answer over it.

pub mod model;
pub mod sym;
pub mod context;
pub mod construct;
pub mod fx;
pub mod visited;
pub mod walk;
pub mod traits;
pub mod classify;
pub mod peel;
pub mod drop_order;
pub mod normalize;
pub mod size;
pub mod sig;
pub mod items;
pub mod discr;
pub mod regions;

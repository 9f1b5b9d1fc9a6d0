//! Verified core of an RWX scene converter.
//!
//! The library turns RWX scene text into flattened, triangulated geometry in
//! four stages: lexing ([`lexer`]), dialect normalization ([`canon`]),
//! structural parsing ([`parser`]) and scene flattening ([`scene`]),
//! followed by mesh normalization ([`meshnorm`]: vertex deduplication and
//! fan triangulation). [`pipeline::parse_and_flatten`] runs the whole
//! chain.
//!
//! All coordinates, colors and angles are carried as fixed-point numbers in
//! micro-units: an `i64` holding one millionth of the represented value (see
//! [`fx`]). Arithmetic saturates at [`fx::FX_MAX`] and never overflows or
//! panics.

pub mod ast;
pub mod canon;
pub mod clump;
pub mod fx;
pub mod lexer;
pub mod meshnorm;
pub mod num;
pub mod objmodel;
pub mod parser;
pub mod pipeline;
pub mod scene;
pub mod semantics;
pub mod strutil;
pub mod trig;
pub mod unity;
pub mod wordlex;

//! A parametric, stochastic L-system: a textual grammar of production rules,
//! weighted rule selection gated by generation, and a turtle that walks the
//! rewritten symbols and records what to draw.

pub mod config;
pub mod cylinder;
pub mod document;
pub mod fixed;
pub mod icosphere;
pub mod mesh;
pub mod parser;
pub mod rng;
pub mod rules;
pub mod symbols;
pub mod table;
pub mod turtle;

//! Design documents, design systems, linting, code generation and export.

pub mod asset;
pub mod canvas;
pub mod cli;
pub mod codegen;
pub mod css;
pub mod design_system;
pub mod ecosystem;
pub mod export;
pub mod frames;
pub mod host;
pub mod json;
pub mod lint;
pub mod markup;
pub mod mlx;
pub mod num;
pub mod sharing;
pub mod text;
pub mod undo;

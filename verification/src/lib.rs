//! Deduces which capabilities a compiled unit exercises from its linker symbols.

pub mod analyzer;
pub mod build_graph_analysis;
pub mod cap_rule;
pub mod capability;
pub mod checker;
pub mod classify;
pub mod config;
pub mod crate_name;
pub mod deduced;
pub mod default_rules;
pub mod demangle;
pub mod dep_kind;
pub mod format_reasons;
pub mod print;
pub mod reason;
pub mod reservoir_sample;
pub mod rust_path;
pub mod rust_type;
pub mod sets;
pub mod src_analysis;
pub mod symbol;
pub mod text;
pub mod tree;

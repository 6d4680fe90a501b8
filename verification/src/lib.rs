//! A static binary decompiler core: an address-space model that partitions an
//! image into raw data and decoded instructions, a lifter into an
//! architecture-independent expression form, per-function control-flow
//! graphs, a structuring engine that turns a graph into nested statements,
//! and a symbol table with scoped names.
pub mod address;
pub mod analysis;
pub mod ir;
pub mod loaders;
pub mod memory;
pub mod symbol_resolver;
pub mod tab_viewer;
pub mod text;

pub use ir::abstract_syntax_tree::AbstractSyntaxTree;
pub use ir::high_function::HighFunction;
pub use memory::Memory;

//! The architecture-independent form of the program: expressions, lifted
//! instructions, basic blocks, function graphs and the statements built from
//! them.
pub mod abstract_syntax_tree;
pub mod basic_block;
pub mod conventions;
pub mod decode;
pub mod expression;
pub mod graph;
pub mod high_function;
pub mod lift;
pub mod meaning;
pub mod pcode;
pub mod placement;
pub mod scope;
pub mod structuring;
pub mod traversal;
pub mod type_system;

//! Symbolic regression building blocks: expression trees over named
//! operators and functions, a shunting-yard parser, tree traversal,
//! substitution, complexity measures, printing, crossing and mutations of
//! trees, and the checks on the input data the trees are fitted to.
pub mod types;
pub mod traversal;
pub mod settings;
pub mod defaults;
pub mod lexer;
pub mod error;
pub mod parser;
pub mod compute;
pub mod subs;
pub mod fitness;
pub mod output;
pub mod display;
pub mod random;
pub mod mutations;
pub mod generation;
pub mod crossing;
pub mod input_data;
pub mod utils;

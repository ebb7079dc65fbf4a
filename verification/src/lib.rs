pub mod first;
pub mod follow;
pub mod follow_settle;
pub mod grammar;
pub mod grammar_file;
pub mod grammar_spec;
pub mod notation;
pub mod symbol;
pub mod symbol_set;
pub mod parse_table;
pub mod parser;
pub mod semantic_action;
pub mod semantic_error;
pub mod text;
pub mod type_check;
pub mod utils;
pub mod declarations;
pub mod visibility;
pub mod symbol_table;
pub mod syntax_tree;

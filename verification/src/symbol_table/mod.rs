pub mod class;
pub mod copy;
pub mod data;
pub mod entrypoint;
pub mod format_table;
pub mod function;
pub mod inherit;
pub mod inheritance;
pub mod local;
pub mod param;
pub mod rules;
pub mod sizes;
pub mod symbol_table;
pub mod temporary;
pub mod utils;
pub mod visitor;

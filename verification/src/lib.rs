//! Cross-module structural verification of aski programs.
//!
//! Given the modules of a program, the library builds a lookup index of
//! what each module defines, exports and imports, checks the program in
//! five tiers (module linking, type graph, trait structure, scopes,
//! literals) and emits the program together with a resolution table.

pub mod ast;
pub mod cycle_laws;
pub mod emit;
pub mod index;
pub mod import_table_laws;
pub mod index_laws;
pub mod laws;
pub mod literal_laws;
pub mod loader;
pub mod messages;
pub mod order;
pub mod pipeline;
pub mod program;
pub mod scope_laws;
pub mod structure_laws;
pub mod table;
pub mod table_laws;
pub mod text;
pub mod type_graph_laws;
pub mod verify;


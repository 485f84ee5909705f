//! Verified core of the `ocelot` language toolchain: source positions,
//! diagnostics, lexing, parsing, name resolution, effect inference,
//! interpretation and formatting.

pub mod span;
pub mod text;
pub mod source_file;
pub mod line_bounds;
pub mod diagnostic;
pub mod lexer;
pub mod error;
pub mod source_file_kind;
pub mod name_table;
pub mod types;
pub mod runtime_value;
pub mod native_function;
pub mod index_set;
pub mod index_map;
pub mod ast;
pub mod ast_view;
pub mod symbol_table;
pub mod module_environment;
pub mod compilation_context;
pub mod compilation_session;
pub mod parsed_module;
pub mod parser;
pub mod resolver;
pub mod formatter;
pub mod interpreter;

pub mod engine;
pub mod engine_worker;

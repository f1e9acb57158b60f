pub mod text;
pub mod show;
pub mod ast;
pub mod lexer;
pub mod parser;
pub mod value;
pub mod compile_opt;
pub mod modules;
pub mod bytecode;
pub mod optimizer;
pub mod heap;
pub mod render;
pub mod vm;
pub mod ops_values;
pub mod ops_vars;
pub mod ops_heap;
pub mod machine;
pub mod input;
pub mod compiler;
pub mod compile_spec;
pub mod compile_expr;
pub mod compile_stmt;
pub mod compile_loops;
pub mod compile_api;
pub mod project;
pub mod repl;
pub mod laws;
pub mod loader;
pub mod meaning;

use vstd::prelude::*;

pub mod analysis;
pub mod arith;
pub mod ast;
pub mod boundary;
pub mod builtin;
pub mod caps;
pub mod caps_laws;
pub mod check_laws;
pub mod client;
pub mod code_laws;
pub mod codegen;
pub mod cookie_laws;
pub mod css;
pub mod decimal;
pub mod decl_laws;
pub mod decode;
pub mod diagnostics;
pub mod emit;
pub mod emit_handler;
pub mod emit_laws;
pub mod emit_stmt;
pub mod emit_view;
pub mod flow;
pub mod fmt;
pub mod fmt_laws;
pub mod http;
pub mod index;
pub mod index_laws;
pub mod interp;
pub mod json;
pub mod lexer;
pub mod lower;
pub mod lower_laws;
pub mod messages;
pub mod modules;
pub mod money;
pub mod money_laws;
pub mod num;
pub mod order;
pub mod project;
pub mod qualify;
pub mod raw;
pub mod reader;
pub mod replay;
pub mod resolve;
pub mod rules;
pub mod run_laws;
pub mod runtime;
pub mod scan;
pub mod scope;
pub mod secret_laws;
pub mod server;
pub mod session;
pub mod site;
pub mod sound_laws;
pub mod strmap;
pub mod sync;
pub mod syntax;
pub mod table;
pub mod taint;
pub mod text;
pub mod token;
pub mod transaction;
pub mod type_laws;
pub mod types;
pub mod unicode;
pub mod uses;
pub mod uses_laws;
pub mod value;
pub mod views;
pub mod visibility;

verus! {

} // verus!

//! A small JavaScript-subset compiler core: literal and operator model,
//! expression linearization, shunting-yard postfix conversion, scope trees,
//! and three consumers of them (C source, x86-64 assembly, interpretation).

pub mod text;
pub mod operator;
pub mod literal;
pub mod token;
pub mod postfix;
pub mod interpreter;
pub mod laws;
pub mod ast;
pub mod to_token;
pub mod scope;
pub mod c_writer;
pub mod asm_writer;
pub mod shapes;

//! A verified decoder for the WebAssembly binary module format.
//!
//! The crate turns a byte sequence into a structured `Module`: it reads the
//! fixed header, frames the length-prefixed sections, decodes the type,
//! function, export and code sections, and reconstructs nested structured
//! control-flow instructions (`block` / `loop` / `if`) by recursive descent
//! over a flat byte stream that carries no explicit nesting lengths.
//!
//! Every decoder is specified against a mathematical model of the byte
//! format (spec functions over `Seq<u8>`), and every error case is pinned
//! down: a decode either returns the modelled value or the modelled error.

pub mod code_section;
pub mod cursor;
pub mod decode;
pub mod error;
pub mod export_section;
pub mod function_section;
pub mod instr_decode;
pub mod instructions;
pub mod module;
pub mod section;
pub mod type_section;
pub mod types;
pub mod varint;

pub use cursor::ByteCursor;
pub use decode::decode;
pub use error::DecodeError;
pub use error::Malformation;
pub use instr_decode::decode_instructions;
pub use instructions::BlockType;
pub use instructions::Instruction;
pub use module::Export;
pub use module::ExportDesc;
pub use module::Func;
pub use module::Module;
pub use types::FuncType;
pub use types::NumType;
pub use types::RefType;
pub use types::ResultType;
pub use types::ValType;

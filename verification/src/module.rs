use vstd::prelude::*;

use crate::instructions::Expr;
use crate::instructions::TypeIdx;
use crate::types::FuncType;
use crate::types::ValType;

verus! {

pub type FuncIdx = u32;

pub type TableIdx = u32;

pub type MemIdx = u32;

pub type GlobalIdx = u32;

pub type Name = String;

/// <https://webassembly.github.io/spec/core/syntax/modules.html#syntax-module>
#[derive(Debug, PartialEq, Eq)]
pub struct Module {
    pub version: u32,
    pub types: Vec<FuncType>,
    pub funcs: Vec<Func>,
    pub exports: Vec<Export>,
}

/// <https://webassembly.github.io/spec/core/syntax/modules.html#functions>
#[derive(Debug, PartialEq, Eq)]
pub struct Func {
    pub type_: TypeIdx,
    pub locals: Vec<ValType>,
    pub body: Expr,
}

#[derive(Debug, PartialEq, Eq)]
pub struct Export {
    pub name: Name,
    pub desc: ExportDesc,
}

#[derive(Clone, Copy, Debug, PartialEq, Eq, Structural)]
pub enum ExportDesc {
    Func(FuncIdx),
    Table(TableIdx),
    Mem(MemIdx),
    Global(GlobalIdx),
}

} // verus!

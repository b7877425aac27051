use vstd::prelude::*;

use crate::types::RefType;
use crate::types::ValType;
use crate::varint::enc_u;

verus! {

pub type TypeIdx = u32;

pub type FuncIdx = u32;

pub type TableIdx = u32;

pub type GlobalIdx = u32;

pub type LocalIdx = u32;

pub type ElemIdx = u32;

pub type LabelIdx = u32;

/// An instruction sequence whose terminating `end` has been consumed.
pub type Expr = Vec<Instruction>;

/// <https://webassembly.github.io/spec/core/syntax/instructions.html>
#[derive(Debug, PartialEq, Eq)]
pub enum Instruction {
    // Control instructions
    Unreachable,
    Nop,
    Block(BlockType, Vec<Instruction>),
    Loop(BlockType, Vec<Instruction>),
    If(BlockType, Vec<Instruction>, Option<Vec<Instruction>>),
    Br(LabelIdx),
    BrIf(LabelIdx),
    BrTable(Vec<LabelIdx>, LabelIdx),
    Return,
    Call(FuncIdx),
    CallIndirect(TableIdx, TypeIdx),
    Else,
    End,
    // Reference instructions
    RefNull(RefType),
    RefIsNull,
    RefFunc(FuncIdx),
    // Parametric instructions
    Drop,
    Select(Option<Vec<ValType>>),
    // Variable instructions
    LocalGet(LocalIdx),
    LocalSet(LocalIdx),
    LocalTee(LocalIdx),
    GlobalGet(GlobalIdx),
    GlobalSet(GlobalIdx),
    // Table instructions
    TableGet(TableIdx),
    TableSet(TableIdx),
    TableInit(ElemIdx, TableIdx),
    TableDrop(ElemIdx),
    TableCopy(TableIdx, TableIdx),
    TableGrow(TableIdx),
    TableSize(TableIdx),
    TableFill(TableIdx),
    // Numeric instructions
    I32Const(i32),
    I64Const(i64),
    I32Sub,
    I32Add,
    I32Mul,
    I32Clz,
    I32Ctz,
    I32DivS,
    I32DivU,
    I32Eq,
    I32Eqz,
    I32Ne,
    I32LtS,
    I32LtU,
    I32GtS,
    I32GtU,
    I32LeS,
    I32LeU,
    I32GeU,
    I32GeS,
    I32Popcnt,
    I32RemS,
    I32RemU,
    I32And,
    I32Or,
    I32Xor,
    I32ShL,
    I32ShrS,
    I32ShrU,
    I32RtoL,
    I32RtoR,
    I32Extend8S,
    I32Extend16S,
    Void,
}

/// The type signature attached to a structured control instruction: empty,
/// one value type, or a reference to a declared function type.
#[derive(Clone, Copy, Debug, PartialEq, Eq, Structural)]
pub enum BlockType {
    Empty,
    TypeIdx(TypeIdx),
    ValType(ValType),
}

/// The number of bytes of the canonical unsigned varint encoding of `n`:
/// one per seven significant bits, at least one.
pub fn num_of_leb128_bytes(n: u32) -> (r: usize)
    ensures
        r == enc_u(n as nat).len(),
{
    if n == 0 {
        1
    } else {
        let mut i: usize = 0;
        let mut m: u32 = n;
        while m > 0
            invariant
                m > 0 ==> enc_u(n as nat).len() == i + enc_u(m as nat).len(),
                m == 0 ==> enc_u(n as nat).len() == i,
                i <= 5,
            decreases m,
        {
            proof {
                assert(m as nat / 128 == (m / 128) as nat);
                assert(m >= 128 ==> enc_u(m as nat).len() == 1 + enc_u((m / 128) as nat).len());
                assert(m < 128 ==> enc_u(m as nat).len() == 1);
                assert(enc_u(n as nat).len() <= 5) by {
                    crate::varint::lemma_enc_u32_len(n);
                };
            }
            m = m / 128;
            i = i + 1;
        }
        i
    }
}

impl BlockType {
    /// The length in bytes of the canonical unsigned encoding of this block
    /// type: one byte for the empty and value-type forms, and the length of
    /// the index's unsigned varint encoding for the type-index form.
    pub fn bytes_len(&self) -> (r: usize)
        ensures
            self matches BlockType::TypeIdx(n) ==> r == enc_u(n as nat).len(),
            !(self matches BlockType::TypeIdx(n)) ==> r == 1,
    {
        match self {
            BlockType::Empty => 1,
            BlockType::ValType(_) => 1,
            BlockType::TypeIdx(n) => num_of_leb128_bytes(*n),
        }
    }
}

} // verus!

use vstd::prelude::*;

use crate::cursor::ByteCursor;
use crate::error::DecodeError;
use crate::error::Malformation;
use crate::instructions::BlockType;
use crate::instructions::Instruction;
use crate::types::val_type_of;
use crate::varint::leb_s;
use crate::varint::leb_u;

verus! {

/// What ended an instruction stream: its own `end` byte, the `else` byte
/// separating the branches of an `if`, or the end of the input (allowed
/// only at the outermost level).
#[derive(Clone, Copy, Debug, PartialEq, Eq, Structural)]
pub enum Terminator {
    End,
    Else,
    Input,
}

/// The mathematical shape of one decoded instruction: nested bodies are
/// sequences rather than vectors, so contracts can speak of them.  The
/// instructions the decoder never produces share one opaque shape.
pub enum InstrModel {
    Unreachable,
    Nop,
    Block(BlockType, Seq<InstrModel>),
    Loop(BlockType, Seq<InstrModel>),
    If(BlockType, Seq<InstrModel>, Option<Seq<InstrModel>>),
    Return,
    Call(u32),
    LocalGet(u32),
    I32Const(i32),
    I32Add,
    I32Sub,
    I32Mul,
    I32DivS,
    I32DivU,
    I32And,
    I32Or,
    Unmodeled,
}

/// The shape of an instruction.
pub open spec fn instr_model(i: Instruction) -> InstrModel
    decreases i,
{
    match i {
        Instruction::Unreachable => InstrModel::Unreachable,
        Instruction::Nop => InstrModel::Nop,
        Instruction::Block(bt, body) => InstrModel::Block(bt, instrs_model(body@)),
        Instruction::Loop(bt, body) => InstrModel::Loop(bt, instrs_model(body@)),
        Instruction::If(bt, thn, els) => InstrModel::If(
            bt,
            instrs_model(thn@),
            match els {
                Some(e) => Some(instrs_model(e@)),
                None => None,
            },
        ),
        Instruction::Return => InstrModel::Return,
        Instruction::Call(n) => InstrModel::Call(n),
        Instruction::LocalGet(n) => InstrModel::LocalGet(n),
        Instruction::I32Const(n) => InstrModel::I32Const(n),
        Instruction::I32Add => InstrModel::I32Add,
        Instruction::I32Sub => InstrModel::I32Sub,
        Instruction::I32Mul => InstrModel::I32Mul,
        Instruction::I32DivS => InstrModel::I32DivS,
        Instruction::I32DivU => InstrModel::I32DivU,
        Instruction::I32And => InstrModel::I32And,
        Instruction::I32Or => InstrModel::I32Or,
        _ => InstrModel::Unmodeled,
    }
}

/// The shapes of a sequence of instructions, in order.
pub open spec fn instrs_model(s: Seq<Instruction>) -> Seq<InstrModel>
    decreases s,
{
    if s.len() == 0 {
        Seq::empty()
    } else {
        seq![instr_model(s[0])] + instrs_model(s.subrange(1, s.len() as int))
    }
}

/// Past the first `n` consumed bytes of `s`.  A claim of more bytes than
/// remain empties the stream; the decoders never make one, which keeps the
/// definition total and the recursion below clearly grounded.
pub open spec fn advance(s: Seq<u8>, n: nat) -> Seq<u8> {
    if n <= s.len() {
        s.skip(n as int)
    } else {
        Seq::empty()
    }
}

/// The block type at the front of `s` and the bytes it spans: `0x40` is the
/// empty form, a value-type byte is the one-value form, and anything else
/// begins a signed variable-length type index.
pub open spec fn bt_parse(s: Seq<u8>) -> Result<(BlockType, nat), DecodeError> {
    if s.len() == 0 {
        Err(DecodeError::UnexpectedEof)
    } else if s[0] == 0x40 {
        Ok((BlockType::Empty, 1nat))
    } else if val_type_of(s[0]) is Some {
        Ok((BlockType::ValType(val_type_of(s[0]).unwrap()), 1nat))
    } else {
        match leb_s(s) {
            None => Err(DecodeError::UnexpectedEof),
            Some((v, l)) => if !(-0x8000_0000_0000_0000 <= v < 0x8000_0000_0000_0000 && l <= 10) {
                Err(DecodeError::Malformed(Malformation::VarintOverflow))
            } else if !(0 <= v < 0x1_0000_0000) {
                Err(DecodeError::Malformed(Malformation::BadBlockTypeIndex))
            } else {
                Ok((BlockType::TypeIdx(v as u32), l))
            },
        }
    }
}

/// One instruction stream, decoded from the front of `s`: the shapes of its
/// instructions, what ended it, and how many bytes it spans including the
/// terminator.  `allow_eof` admits running out of input as a terminator
/// (true only for a whole stream, never inside a construct); `allow_else`
/// admits the `else` byte (true only for the then-branch of an `if`).
pub open spec fn s_stream(s: Seq<u8>, allow_eof: bool, allow_else: bool) -> Result<
    (Seq<InstrModel>, Terminator, nat),
    DecodeError,
>
    decreases s.len(), 1int,
{
    if s.len() == 0 {
        if allow_eof {
            Ok((Seq::empty(), Terminator::Input, 0nat))
        } else {
            Err(DecodeError::UnexpectedEof)
        }
    } else if s[0] == 0x0B {
        Ok((Seq::empty(), Terminator::End, 1nat))
    } else if s[0] == 0x05 {
        if allow_else {
            Ok((Seq::empty(), Terminator::Else, 1nat))
        } else {
            Err(DecodeError::Malformed(Malformation::UnknownOpcode(0x05)))
        }
    } else {
        match s_instr(s[0], s.skip(1)) {
            Err(e) => Err(e),
            Ok((m, n)) => match s_stream(advance(s, n + 1), allow_eof, allow_else) {
                Err(e) => Err(e),
                Ok((rest, t, k)) => Ok((seq![m] + rest, t, 1 + n + k)),
            },
        }
    }
}

/// One instruction whose opcode byte `op` has been consumed, decoded from
/// the front of `s`: its shape and how many bytes beyond the opcode it
/// spans.  The three structured opcodes recurse into `s_stream` for their
/// bodies; everything else reads at most one immediate.
pub open spec fn s_instr(op: u8, s: Seq<u8>) -> Result<(InstrModel, nat), DecodeError>
    decreases s.len(), 0int,
{
    if op == 0x00 {
        Ok((InstrModel::Unreachable, 0nat))
    } else if op == 0x01 {
        Ok((InstrModel::Nop, 0nat))
    } else if op == 0x0F {
        Ok((InstrModel::Return, 0nat))
    } else if op == 0x6A {
        Ok((InstrModel::I32Add, 0nat))
    } else if op == 0x6B {
        Ok((InstrModel::I32Sub, 0nat))
    } else if op == 0x6C {
        Ok((InstrModel::I32Mul, 0nat))
    } else if op == 0x6D {
        Ok((InstrModel::I32DivS, 0nat))
    } else if op == 0x6F {
        Ok((InstrModel::I32DivU, 0nat))
    } else if op == 0x71 {
        Ok((InstrModel::I32And, 0nat))
    } else if op == 0x72 {
        Ok((InstrModel::I32Or, 0nat))
    } else if op == 0x10 || op == 0x20 {
        match leb_u(s) {
            None => Err(DecodeError::UnexpectedEof),
            Some((v, l)) => if v < 0x1_0000_0000_0000_0000 && l <= 10 {
                if op == 0x10 {
                    Ok((InstrModel::Call(v as u32), l))
                } else {
                    Ok((InstrModel::LocalGet(v as u32), l))
                }
            } else {
                Err(DecodeError::Malformed(Malformation::VarintOverflow))
            },
        }
    } else if op == 0x41 {
        match leb_s(s) {
            None => Err(DecodeError::UnexpectedEof),
            Some((v, l)) => if -0x8000_0000_0000_0000 <= v < 0x8000_0000_0000_0000 && l <= 10 {
                Ok((InstrModel::I32Const(v as i32), l))
            } else {
                Err(DecodeError::Malformed(Malformation::VarintOverflow))
            },
        }
    } else if op == 0x02 || op == 0x03 {
        match bt_parse(s) {
            Err(e) => Err(e),
            Ok((bt, bl)) => match s_stream(advance(s, bl), false, false) {
                Err(e) => Err(e),
                Ok((body, t, n)) => if op == 0x02 {
                    Ok((InstrModel::Block(bt, body), bl + n))
                } else {
                    Ok((InstrModel::Loop(bt, body), bl + n))
                },
            },
        }
    } else if op == 0x04 {
        match bt_parse(s) {
            Err(e) => Err(e),
            Ok((bt, bl)) => match s_stream(advance(s, bl), false, true) {
                Err(e) => Err(e),
                Ok((thn, t, n1)) => if t is End {
                    Ok((InstrModel::If(bt, thn, None), bl + n1))
                } else {
                    match s_stream(advance(s, bl + n1), false, false) {
                        Err(e) => Err(e),
                        Ok((els, t2, n2)) => Ok((InstrModel::If(bt, thn, Some(els)), bl + n1 + n2)),
                    }
                },
            },
        }
    } else {
        Err(DecodeError::Malformed(Malformation::UnknownOpcode(op)))
    }
}

/// A sequence of instructions and its sequence of shapes have the same
/// length and correspond position by position.
pub proof fn lemma_instrs_model_index(s: Seq<Instruction>)
    ensures
        instrs_model(s).len() == s.len(),
        forall|i: int| 0 <= i < s.len() ==> instrs_model(s)[i] == instr_model(s[i]),
    decreases s.len(),
{
    if s.len() > 0 {
        let tail = s.subrange(1, s.len() as int);
        lemma_instrs_model_index(tail);
        assert forall|i: int| 0 <= i < s.len() implies instrs_model(s)[i] == instr_model(
            s[i],
        ) by {
            if i > 0 {
                assert(instrs_model(s)[i] == instrs_model(tail)[i - 1]);
                assert(tail[i - 1] == s[i]);
            }
        }
    }
}

/// The shapes the decoder can produce: everything but the opaque shape,
/// with every nested body under the same bound.  In particular neither the
/// `end` nor the `else` terminator has a shape here: a terminator is
/// consumed, never emitted.
pub open spec fn model_wf(m: InstrModel) -> bool
    decreases m,
{
    match m {
        InstrModel::Block(bt, body) => models_wf(body),
        InstrModel::Loop(bt, body) => models_wf(body),
        InstrModel::If(bt, thn, els) => models_wf(thn) && match els {
            Some(e) => models_wf(e),
            None => true,
        },
        InstrModel::Unmodeled => false,
        _ => true,
    }
}

/// Whether every shape of the sequence, nested bodies included, is one the
/// decoder can produce.
pub open spec fn models_wf(s: Seq<InstrModel>) -> bool
    decreases s,
{
    if s.len() == 0 {
        true
    } else {
        model_wf(s[0]) && models_wf(s.subrange(1, s.len() as int))
    }
}

proof fn lemma_models_wf_cons(m: InstrModel, s: Seq<InstrModel>)
    ensures
        models_wf(seq![m] + s) == (model_wf(m) && models_wf(s)),
{
    let c = seq![m] + s;
    assert(c[0] == m);
    assert(c.subrange(1, c.len() as int) =~= s);
}

/// A decoded stream holds only instructions of the dispatch table, at every
/// nesting depth: the terminators that ended the stream and its nested
/// bodies were consumed and never appear in the produced sequences.
pub proof fn lemma_stream_models_wf(s: Seq<u8>, allow_eof: bool, allow_else: bool)
    ensures
        s_stream(s, allow_eof, allow_else) matches Ok((ms, t, n)) ==> models_wf(ms),
    decreases s.len(), 1int,
{
    if s.len() == 0 || s[0] == 0x0B || s[0] == 0x05 {
    } else {
        match s_instr(s[0], s.skip(1)) {
            Err(e) => {},
            Ok((m, n)) => {
                lemma_instr_model_wf(s[0], s.skip(1));
                lemma_stream_models_wf(advance(s, n + 1), allow_eof, allow_else);
                match s_stream(advance(s, n + 1), allow_eof, allow_else) {
                    Err(e) => {},
                    Ok((rest, t, k)) => {
                        lemma_models_wf_cons(m, rest);
                    },
                }
            },
        }
    }
}

/// A decoded instruction's shape is one the dispatch table produces.
proof fn lemma_instr_model_wf(op: u8, s: Seq<u8>)
    ensures
        s_instr(op, s) matches Ok((m, n)) ==> model_wf(m),
    decreases s.len(), 0int,
{
    if op == 0x02 || op == 0x03 || op == 0x04 {
        match bt_parse(s) {
            Err(e) => {},
            Ok((bt, bl)) => {
                lemma_stream_models_wf(advance(s, bl), false, op == 0x04);
                match s_stream(advance(s, bl), false, op == 0x04) {
                    Err(e) => {},
                    Ok((body, t, n1)) => {
                        if op == 0x04 && !(t is End) {
                            lemma_stream_models_wf(advance(s, bl + n1), false, false);
                        }
                    },
                }
            },
        }
    }
}

/// The bytes an instruction stream can consume as an opcode: the two
/// terminator bytes and the opcodes of the dispatch table.
pub open spec fn opcode_known(b: u8) -> bool {
    b == 0x0B || b == 0x05 || b == 0x00 || b == 0x01 || b == 0x0F || b == 0x6A || b == 0x6B || b
        == 0x6C || b == 0x6D || b == 0x6F || b == 0x71 || b == 0x72 || b == 0x10 || b == 0x20 || b
        == 0x41 || b == 0x02 || b == 0x03 || b == 0x04
}

/// A byte outside the opcode table fails the whole stream it stands at the
/// front of, whatever valid bytes surround it.
pub proof fn lemma_unknown_opcode_aborts(s: Seq<u8>, allow_eof: bool, allow_else: bool)
    requires
        s.len() > 0,
        !opcode_known(s[0]),
    ensures
        s_stream(s, allow_eof, allow_else) == Err::<(Seq<InstrModel>, Terminator, nat), DecodeError>(
            DecodeError::Malformed(Malformation::UnknownOpcode(s[0])),
        ),
{
    assert(s_instr(s[0], s.skip(1)) == Err::<(InstrModel, nat), DecodeError>(
        DecodeError::Malformed(Malformation::UnknownOpcode(s[0])),
    ));
}

/// A parsed block type spans one to `s.len()` bytes.
proof fn lemma_bt_parse_len(s: Seq<u8>)
    ensures
        bt_parse(s) matches Ok((bt, l)) ==> 1 <= l <= s.len(),
{
    crate::varint::lemma_leb_s_len(s);
}

/// A decoded stream spans at most `s.len()` bytes.
proof fn lemma_s_stream_len(s: Seq<u8>, allow_eof: bool, allow_else: bool)
    ensures
        s_stream(s, allow_eof, allow_else) matches Ok((ms, t, n)) ==> n <= s.len(),
    decreases s.len(), 1int,
{
    if s.len() == 0 {
    } else if s[0] == 0x0B || s[0] == 0x05 {
    } else {
        match s_instr(s[0], s.skip(1)) {
            Err(e) => {},
            Ok((m, n)) => {
                lemma_s_instr_len(s[0], s.skip(1));
                assert(advance(s, n + 1) =~= s.skip((n + 1) as int));
                lemma_s_stream_len(advance(s, n + 1), allow_eof, allow_else);
            },
        }
    }
}

/// A decoded instruction spans at most `s.len()` bytes beyond its opcode.
proof fn lemma_s_instr_len(op: u8, s: Seq<u8>)
    ensures
        s_instr(op, s) matches Ok((m, n)) ==> n <= s.len(),
    decreases s.len(), 0int,
{
    crate::varint::lemma_leb_u_len(s);
    crate::varint::lemma_leb_s_len(s);
    lemma_bt_parse_len(s);
    if op == 0x02 || op == 0x03 || op == 0x04 {
        match bt_parse(s) {
            Err(e) => {},
            Ok((bt, bl)) => {
                assert(advance(s, bl) =~= s.skip(bl as int));
                lemma_s_stream_len(advance(s, bl), false, op == 0x04);
                match s_stream(advance(s, bl), false, op == 0x04) {
                    Err(e) => {},
                    Ok((body, t, n1)) => {
                        if op == 0x04 && !(t is End) {
                            assert(advance(s, bl + n1) =~= s.skip((bl + n1) as int));
                            lemma_s_stream_len(advance(s, bl + n1), false, false);
                        }
                    },
                }
            },
        }
    }
}

/// The shape of a sequence extended at the front is the shape of the head
/// followed by the shapes of the tail.
proof fn lemma_instrs_model_cons(x: Instruction, s: Seq<Instruction>)
    ensures
        instrs_model(seq![x] + s) == seq![instr_model(x)] + instrs_model(s),
{
    let c = seq![x] + s;
    assert(c.len() == 1 + s.len());
    assert(c[0] == x);
    assert(c.subrange(1, c.len() as int) =~= s);
}

/// Decode the block type at the cursor.
fn decode_block_type(cur: &mut ByteCursor) -> (r: Result<BlockType, DecodeError>)
    requires
        old(cur).wf(),
    ensures
        final(cur).wf(),
        final(cur).remaining().len() <= old(cur).remaining().len(),
        bt_parse(old(cur).remaining()) matches Ok((bt, l)) ==> r == Ok::<
            BlockType,
            DecodeError,
        >(bt) && final(cur).remaining() == old(cur).remaining().skip(l as int),
        bt_parse(old(cur).remaining()) matches Err(e) ==> r == Err::<BlockType, DecodeError>(e),
{
    let b = match cur.peek() {
        Some(b) => b,
        None => {
            return Err(DecodeError::UnexpectedEof);
        },
    };
    if b == 0x40 {
        let _ = cur.read_byte();
        Ok(BlockType::Empty)
    } else {
        match crate::types::ValType::try_from(b) {
            Ok(v) => {
                let _ = cur.read_byte();
                Ok(BlockType::ValType(v))
            },
            Err(_) => {
                let idx = match cur.read_i64() {
                    Ok(x) => x,
                    Err(e) => {
                        return Err(e);
                    },
                };
                if idx < 0 || idx > 0xFFFF_FFFFi64 {
                    Err(DecodeError::Malformed(Malformation::BadBlockTypeIndex))
                } else {
                    Ok(BlockType::TypeIdx(idx as u32))
                }
            },
        }
    }
}

/// Decode one instruction whose opcode byte has been consumed, recursing
/// into nested streams for the structured opcodes.
fn decode_instr(op: u8, cur: &mut ByteCursor) -> (r: Result<Instruction, DecodeError>)
    requires
        old(cur).wf(),
    ensures
        final(cur).wf(),
        final(cur).remaining().len() <= old(cur).remaining().len(),
        s_instr(op, old(cur).remaining()) matches Ok((m, n)) ==> {
            &&& r matches Ok(i)
            &&& instr_model(i) == m
            &&& final(cur).remaining() == old(cur).remaining().skip(n as int)
        },
        s_instr(op, old(cur).remaining()) matches Err(e) ==> r == Err::<Instruction, DecodeError>(
            e,
        ),
    decreases old(cur).remaining().len(), 0int,
{
    let ghost s = old(cur).remaining();
    proof {
        assert(s.skip(0) =~= s);
    }
    match op {
        0x00 => Ok(Instruction::Unreachable),
        0x01 => Ok(Instruction::Nop),
        0x0F => Ok(Instruction::Return),
        0x6A => Ok(Instruction::I32Add),
        0x6B => Ok(Instruction::I32Sub),
        0x6C => Ok(Instruction::I32Mul),
        0x6D => Ok(Instruction::I32DivS),
        0x6F => Ok(Instruction::I32DivU),
        0x71 => Ok(Instruction::I32And),
        0x72 => Ok(Instruction::I32Or),
        0x10 => match cur.read_u32() {
            Ok(x) => Ok(Instruction::Call(x)),
            Err(e) => Err(e),
        },
        0x20 => match cur.read_u32() {
            Ok(x) => Ok(Instruction::LocalGet(x)),
            Err(e) => Err(e),
        },
        0x41 => match cur.read_i32() {
            Ok(x) => Ok(Instruction::I32Const(x)),
            Err(e) => Err(e),
        },
        0x02 | 0x03 => {
            let bt = match decode_block_type(cur) {
                Ok(bt) => bt,
                Err(e) => {
                    return Err(e);
                },
            };
            let ghost bl = bt_parse(s).unwrap().1;
            proof {
                lemma_bt_parse_len(s);
                assert(advance(s, bl) =~= s.skip(bl as int));
            }
            let (body, _t) = match decode_stream(cur, false, false) {
                Ok(p) => p,
                Err(e) => {
                    return Err(e);
                },
            };
            proof {
                lemma_s_stream_len(advance(s, bl), false, false);
                let n = s_stream(advance(s, bl), false, false).unwrap().2;
                assert(s.skip(bl as int).skip(n as int) =~= s.skip((bl + n) as int));
            }
            if op == 0x02 {
                Ok(Instruction::Block(bt, body))
            } else {
                Ok(Instruction::Loop(bt, body))
            }
        },
        0x04 => {
            let bt = match decode_block_type(cur) {
                Ok(bt) => bt,
                Err(e) => {
                    return Err(e);
                },
            };
            let ghost bl = bt_parse(s).unwrap().1;
            proof {
                lemma_bt_parse_len(s);
                assert(advance(s, bl) =~= s.skip(bl as int));
            }
            let (thn, t) = match decode_stream(cur, false, true) {
                Ok(p) => p,
                Err(e) => {
                    return Err(e);
                },
            };
            proof {
                lemma_s_stream_len(advance(s, bl), false, true);
                let n1 = s_stream(advance(s, bl), false, true).unwrap().2;
                assert(s.skip(bl as int).skip(n1 as int) =~= s.skip((bl + n1) as int));
            }
            match t {
                Terminator::End => Ok(Instruction::If(bt, thn, None)),
                _ => {
                    let ghost n1 = s_stream(advance(s, bl), false, true).unwrap().2;
                    proof {
                        assert(advance(s, bl + n1) =~= s.skip((bl + n1) as int));
                    }
                    let (els, _t2) = match decode_stream(cur, false, false) {
                        Ok(p) => p,
                        Err(e) => {
                            return Err(e);
                        },
                    };
                    proof {
                        lemma_s_stream_len(advance(s, bl + n1), false, false);
                        let n2 = s_stream(advance(s, bl + n1), false, false).unwrap().2;
                        assert(s.skip((bl + n1) as int).skip(n2 as int) =~= s.skip((bl + n1 + n2) as int));
                    }
                    Ok(Instruction::If(bt, thn, Some(els)))
                },
            }
        },
        _ => Err(DecodeError::Malformed(Malformation::UnknownOpcode(op))),
    }
}

/// Decode one instruction stream at the cursor, through its terminator.
fn decode_stream(cur: &mut ByteCursor, allow_eof: bool, allow_else: bool) -> (r: Result<
    (Vec<Instruction>, Terminator),
    DecodeError,
>)
    requires
        old(cur).wf(),
    ensures
        final(cur).wf(),
        final(cur).remaining().len() <= old(cur).remaining().len(),
        s_stream(old(cur).remaining(), allow_eof, allow_else) matches Ok((ms, t, n)) ==> {
            &&& r matches Ok(p)
            &&& instrs_model(p.0@) == ms
            &&& p.1 == t
            &&& final(cur).remaining() == old(cur).remaining().skip(n as int)
        },
        s_stream(old(cur).remaining(), allow_eof, allow_else) matches Err(e) ==> r == Err::<
            (Vec<Instruction>, Terminator),
            DecodeError,
        >(e),
    decreases old(cur).remaining().len(), 1int,
{
    let ghost s = old(cur).remaining();
    proof {
        assert(s.skip(0) =~= s);
    }
    if !cur.has_next() {
        if allow_eof {
            let v: Vec<Instruction> = Vec::new();
            Ok((v, Terminator::Input))
        } else {
            Err(DecodeError::UnexpectedEof)
        }
    } else {
        let b = match cur.read_byte() {
            Ok(b) => b,
            Err(e) => {
                proof {
                    assert(false);
                }
                return Err(e);
            },
        };
        if b == 0x0B {
            let v: Vec<Instruction> = Vec::new();
            Ok((v, Terminator::End))
        } else if b == 0x05 {
            if allow_else {
                let v: Vec<Instruction> = Vec::new();
                Ok((v, Terminator::Else))
            } else {
                Err(DecodeError::Malformed(Malformation::UnknownOpcode(0x05)))
            }
        } else {
            let inst = match decode_instr(b, cur) {
                Ok(i) => i,
                Err(e) => {
                    return Err(e);
                },
            };
            proof {
                lemma_s_instr_len(b, s.skip(1));
                let n = s_instr(b, s.skip(1)).unwrap().1;
                assert(s.skip(1).skip(n as int) =~= s.skip((1 + n) as int));
                assert(advance(s, n + 1) =~= s.skip((1 + n) as int));
            }
            let (mut rest, t) = match decode_stream(cur, allow_eof, allow_else) {
                Ok(p) => p,
                Err(e) => {
                    return Err(e);
                },
            };
            let ghost rest0 = rest@;
            rest.insert(0, inst);
            proof {
                let n = s_instr(b, s.skip(1)).unwrap().1;
                lemma_s_stream_len(advance(s, n + 1), allow_eof, allow_else);
                let k = s_stream(advance(s, n + 1), allow_eof, allow_else).unwrap().2;
                assert(rest@ =~= seq![inst] + rest0);
                lemma_instrs_model_cons(inst, rest0);
                assert(s.skip((1 + n) as int).skip(k as int) =~= s.skip((1 + n + k) as int));
            }
            Ok((rest, t))
        }
    }
}

/// Decode a whole instruction stream: the instructions in order, with the
/// terminating `end` consumed and not emitted.  The stream may also end at
/// the end of the input.  Decoding fails exactly when the modelled decode
/// fails, with the same error.
pub fn decode_instructions(bytes: Vec<u8>) -> (r: Result<Vec<Instruction>, DecodeError>)
    ensures
        s_stream(bytes@, true, false) matches Ok((ms, t, n)) ==> r matches Ok(v)
            && instrs_model(v@) == ms,
        s_stream(bytes@, true, false) matches Err(e) ==> r == Err::<Vec<Instruction>, DecodeError>(
            e,
        ),
{
    let mut cur = ByteCursor::new(bytes);
    match decode_stream(&mut cur, true, false) {
        Ok((v, _t)) => Ok(v),
        Err(e) => Err(e),
    }
}

/// `Vec<Instruction>` behind a newtype, decoded from bytes.
pub struct InstructionArrayWrapper(pub Vec<Instruction>);

impl InstructionArrayWrapper {
    /// Decode a whole instruction stream; `decode_instructions` in a shell.
    pub fn try_from(bytes: Vec<u8>) -> (r: Result<InstructionArrayWrapper, DecodeError>)
        ensures
            s_stream(bytes@, true, false) matches Ok((ms, t, n)) ==> r matches Ok(w)
                && instrs_model(w.0@) == ms,
            s_stream(bytes@, true, false) matches Err(e) ==> r matches Err(e2) && e2 == e,
    {
        match decode_instructions(bytes) {
            Ok(v) => Ok(InstructionArrayWrapper(v)),
            Err(e) => Err(e),
        }
    }
}

impl BlockType {
    /// Decode the block type at the front of `bytes`.
    pub fn try_from(bytes: Vec<u8>) -> (r: Result<BlockType, DecodeError>)
        ensures
            bt_parse(bytes@) matches Ok((bt, l)) ==> r == Ok::<BlockType, DecodeError>(bt),
            bt_parse(bytes@) matches Err(e) ==> r == Err::<BlockType, DecodeError>(e),
    {
        let mut cur = ByteCursor::new(bytes);
        decode_block_type(&mut cur)
    }
}

} // verus!

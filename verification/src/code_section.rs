use vstd::prelude::*;

use crate::cursor::ByteCursor;
use crate::error::DecodeError;
use crate::error::Malformation;
use crate::instr_decode::advance;
use crate::instr_decode::decode_instructions;
use crate::instr_decode::instrs_model;
use crate::instr_decode::s_stream;
use crate::instr_decode::InstrModel;
use crate::instructions::Expr;
use crate::types::val_type_of;
use crate::types::ValType;
use crate::varint::leb_u;

verus! {

/// One entry of the code section: a function's locals and body.
#[derive(Debug, PartialEq, Eq)]
pub struct Func {
    pub locals: Vec<ValType>,
    pub expr: Expr,
}

/// The mathematical shape of a code entry: the expanded locals and the
/// shapes of the body's instructions.
pub open spec fn code_func_model(f: Func) -> (Seq<ValType>, Seq<InstrModel>) {
    (f.locals@, instrs_model(f.expr@))
}

/// The shapes of a sequence of code entries, in order.
pub open spec fn code_funcs_model(s: Seq<Func>) -> Seq<(Seq<ValType>, Seq<InstrModel>)> {
    Seq::new(s.len(), |i: int| code_func_model(s[i]))
}

/// `g` locals groups at the front of `s`.  Each group is a repeat count and
/// one value-type byte, and expands to that many copies of the type, in
/// encounter order.
pub open spec fn s_local_groups(s: Seq<u8>, g: nat) -> Result<(Seq<ValType>, nat), DecodeError>
    decreases g,
{
    if g == 0 {
        Ok((Seq::empty(), 0nat))
    } else {
        match leb_u(s) {
            None => Err(DecodeError::UnexpectedEof),
            Some((rep, l)) => if !(rep < 0x1_0000_0000_0000_0000 && l <= 10) {
                Err(DecodeError::Malformed(Malformation::VarintOverflow))
            } else if s.len() <= l {
                Err(DecodeError::UnexpectedEof)
            } else {
                match val_type_of(s[l as int]) {
                    None => Err(
                        DecodeError::Malformed(Malformation::UnknownValType(s[l as int])),
                    ),
                    Some(vt) => match s_local_groups(advance(s, l + 1), (g - 1) as nat) {
                        Err(e) => Err(e),
                        Ok((rest, m)) => Ok(
                            (Seq::new(rep, |i: int| vt) + rest, l + 1 + m),
                        ),
                    },
                }
            },
        }
    }
}

/// The locals block at the front of `s`: a group count, then that many
/// run-length groups.
pub open spec fn s_locals(s: Seq<u8>) -> Result<(Seq<ValType>, nat), DecodeError> {
    match leb_u(s) {
        None => Err(DecodeError::UnexpectedEof),
        Some((g, l)) => if !(g < 0x1_0000_0000_0000_0000 && l <= 10) {
            Err(DecodeError::Malformed(Malformation::VarintOverflow))
        } else {
            match s_local_groups(advance(s, l), g) {
                Err(e) => Err(e),
                Ok((locals, n)) => Ok((locals, l + n)),
            }
        },
    }
}

/// One function body: the locals block, then the instruction stream.
/// Bytes after the stream's terminating `end` are ignored.
pub open spec fn s_func_body(s: Seq<u8>) -> Result<(Seq<ValType>, Seq<InstrModel>), DecodeError> {
    match s_locals(s) {
        Err(e) => Err(e),
        Ok((locals, n)) => match s_stream(advance(s, n), true, false) {
            Err(e) => Err(e),
            Ok((ms, t, m)) => Ok((locals, ms)),
        },
    }
}

/// `cnt` code entries at the front of `s`, each a byte-size prefix followed
/// by exactly that many bytes forming one function body.
pub open spec fn s_code_entries(s: Seq<u8>, cnt: nat) -> Result<
    (Seq<(Seq<ValType>, Seq<InstrModel>)>, nat),
    DecodeError,
>
    decreases cnt,
{
    if cnt == 0 {
        Ok((Seq::empty(), 0nat))
    } else {
        match leb_u(s) {
            None => Err(DecodeError::UnexpectedEof),
            Some((size, l)) => if !(size < 0x1_0000_0000_0000_0000 && l <= 10) {
                Err(DecodeError::Malformed(Malformation::VarintOverflow))
            } else if s.len() < l + size {
                Err(DecodeError::UnexpectedEof)
            } else {
                match s_func_body(s.subrange(l as int, (l + size) as int)) {
                    Err(e) => Err(e),
                    Ok(fb) => match s_code_entries(advance(s, l + size), (cnt - 1) as nat) {
                        Err(e) => Err(e),
                        Ok((rest, m)) => Ok((seq![fb] + rest, l + size + m)),
                    },
                }
            },
        }
    }
}

/// A whole code-section payload: a count, then that many size-prefixed
/// function bodies.  Bytes after the counted entries are ignored.
pub open spec fn s_code_section(s: Seq<u8>) -> Result<
    Seq<(Seq<ValType>, Seq<InstrModel>)>,
    DecodeError,
> {
    match leb_u(s) {
        None => Err(DecodeError::UnexpectedEof),
        Some((cnt, l)) => if !(cnt < 0x1_0000_0000_0000_0000 && l <= 10) {
            Err(DecodeError::Malformed(Malformation::VarintOverflow))
        } else {
            match s_code_entries(advance(s, l), cnt) {
                Err(e) => Err(e),
                Ok((fbs, n)) => Ok(fbs),
            }
        },
    }
}

/// Decode `g` locals groups at the cursor, expanding each group.
fn decode_local_groups(cur: &mut ByteCursor, g: u64) -> (r: Result<Vec<ValType>, DecodeError>)
    requires
        old(cur).wf(),
    ensures
        final(cur).wf(),
        final(cur).remaining().len() <= old(cur).remaining().len(),
        s_local_groups(old(cur).remaining(), g as nat) matches Ok((locals, n)) ==> {
            &&& r matches Ok(v)
            &&& v@ == locals
            &&& final(cur).remaining() == old(cur).remaining().skip(n as int)
        },
        s_local_groups(old(cur).remaining(), g as nat) matches Err(e) ==> r == Err::<
            Vec<ValType>,
            DecodeError,
        >(e),
    decreases g,
{
    let ghost s = old(cur).remaining();
    if g == 0 {
        let v: Vec<ValType> = Vec::new();
        proof {
            assert(s.skip(0) =~= s);
        }
        Ok(v)
    } else {
        let rep = match cur.read_u64() {
            Ok(x) => x,
            Err(e) => {
                return Err(e);
            },
        };
        let ghost l = leb_u(s).unwrap().1;
        proof {
            crate::varint::lemma_leb_u_len(s);
            assert(s.skip(l as int).len() == s.len() - l);
        }
        let b = match cur.read_byte() {
            Ok(b) => b,
            Err(e) => {
                return Err(e);
            },
        };
        proof {
            assert(s.skip(l as int)[0] == s[l as int]);
            assert(s.skip(l as int).skip(1) =~= s.skip((l + 1) as int));
            assert(advance(s, l + 1) =~= s.skip((l + 1) as int));
        }
        let vt = match crate::types::ValType::try_from(b) {
            Ok(v) => v,
            Err(e) => {
                return Err(e);
            },
        };
        let mut this: Vec<ValType> = Vec::new();
        let mut k: u64 = 0;
        proof {
            assert(this@ =~= Seq::new(0nat, |i: int| vt));
        }
        while k < rep
            invariant
                k <= rep,
                this@ == Seq::new(k as nat, |i: int| vt),
            decreases rep - k,
        {
            this.push(vt);
            k = k + 1;
            proof {
                assert(this@ =~= Seq::new(k as nat, |i: int| vt));
            }
        }
        let mut rest = match decode_local_groups(cur, g - 1) {
            Ok(v) => v,
            Err(e) => {
                return Err(e);
            },
        };
        let ghost rest0 = rest@;
        this.append(&mut rest);
        proof {
            let m = s_local_groups(advance(s, l + 1), (g - 1) as nat).unwrap().1;
            lemma_s_local_groups_len(advance(s, l + 1), (g - 1) as nat);
            assert(this@ =~= Seq::new(rep as nat, |i: int| vt) + rest0);
            assert(s.skip((l + 1) as int).skip(m as int) =~= s.skip((l + 1 + m) as int));
        }
        Ok(this)
    }
}

/// A parsed run of locals groups spans at most `s.len()` bytes.
proof fn lemma_s_local_groups_len(s: Seq<u8>, g: nat)
    ensures
        s_local_groups(s, g) matches Ok((locals, n)) ==> n <= s.len(),
    decreases g,
{
    if g > 0 {
        crate::varint::lemma_leb_u_len(s);
        match leb_u(s) {
            None => {},
            Some((rep, l)) => {
                if s.len() > l {
                    assert(advance(s, l + 1) =~= s.skip((l + 1) as int));
                    lemma_s_local_groups_len(advance(s, l + 1), (g - 1) as nat);
                }
            },
        }
    }
}

/// A parsed locals block spans at most `s.len()` bytes.
proof fn lemma_s_locals_len(s: Seq<u8>)
    ensures
        s_locals(s) matches Ok((locals, n)) ==> n <= s.len(),
{
    crate::varint::lemma_leb_u_len(s);
    match leb_u(s) {
        None => {},
        Some((g, l)) => {
            lemma_s_local_groups_len(advance(s, l), g);
            assert(advance(s, l) =~= s.skip(l as int));
        },
    }
}

/// Decode the locals block at the front of `bytes`, returning the expanded
/// locals and the bytes that follow the block.
pub fn decode_locals(bytes: Vec<u8>) -> (r: Result<(Vec<ValType>, Vec<u8>), DecodeError>)
    ensures
        s_locals(bytes@) matches Ok((locals, n)) ==> {
            &&& r matches Ok(p)
            &&& p.0@ == locals
            &&& p.1@ == bytes@.skip(n as int)
        },
        s_locals(bytes@) matches Err(e) ==> r == Err::<(Vec<ValType>, Vec<u8>), DecodeError>(e),
{
    let ghost s = bytes@;
    let mut cur = ByteCursor::new(bytes);
    let g = match cur.read_u64() {
        Ok(x) => x,
        Err(e) => {
            return Err(e);
        },
    };
    proof {
        let l = leb_u(s).unwrap().1;
        crate::varint::lemma_leb_u_len(s);
        assert(advance(s, l) =~= s.skip(l as int));
    }
    let locals = match decode_local_groups(&mut cur, g) {
        Ok(v) => v,
        Err(e) => {
            return Err(e);
        },
    };
    proof {
        let l = leb_u(s).unwrap().1;
        let n = s_local_groups(advance(s, l), g as nat).unwrap().1;
        lemma_s_local_groups_len(advance(s, l), g as nat);
        assert(s.skip(l as int).skip(n as int) =~= s.skip((l + n) as int));
    }
    let rest = cur.read_the_rest();
    Ok((locals, rest))
}

impl Func {
    /// Decode one function body: the locals block, then the instruction
    /// stream.
    pub fn try_from(bytes: Vec<u8>) -> (r: Result<Func, DecodeError>)
        ensures
            s_func_body(bytes@) matches Ok(fb) ==> r matches Ok(f) && code_func_model(f) == fb,
            s_func_body(bytes@) matches Err(e) ==> r == Err::<Func, DecodeError>(e),
    {
        let ghost s = bytes@;
        let (locals, rest) = match decode_locals(bytes) {
            Ok(p) => p,
            Err(e) => {
                return Err(e);
            },
        };
        proof {
            lemma_s_locals_len(s);
            match s_locals(s) {
                Ok((lv, n)) => {
                    assert(advance(s, n) =~= s.skip(n as int));
                },
                Err(_) => {},
            }
        }
        let expr = match decode_instructions(rest) {
            Ok(v) => v,
            Err(e) => {
                return Err(e);
            },
        };
        Ok(Func { locals, expr })
    }
}

/// Decode `cnt` size-prefixed code entries at the cursor.
#[verifier::rlimit(60)]
fn decode_code_entries(cur: &mut ByteCursor, cnt: u64) -> (r: Result<Vec<Func>, DecodeError>)
    requires
        old(cur).wf(),
    ensures
        final(cur).wf(),
        final(cur).remaining().len() <= old(cur).remaining().len(),
        s_code_entries(old(cur).remaining(), cnt as nat) matches Ok((fbs, n)) ==> {
            &&& r matches Ok(v)
            &&& code_funcs_model(v@) == fbs
            &&& final(cur).remaining() == old(cur).remaining().skip(n as int)
        },
        s_code_entries(old(cur).remaining(), cnt as nat) matches Err(e) ==> r == Err::<
            Vec<Func>,
            DecodeError,
        >(e),
    decreases cnt,
{
    let ghost s = old(cur).remaining();
    if cnt == 0 {
        let v: Vec<Func> = Vec::new();
        proof {
            assert(code_funcs_model(v@) =~= Seq::<(Seq<ValType>, Seq<InstrModel>)>::empty());
            assert(s.skip(0) =~= s);
        }
        Ok(v)
    } else {
        let size = match cur.read_u64() {
            Ok(x) => x,
            Err(e) => {
                return Err(e);
            },
        };
        let ghost l = leb_u(s).unwrap().1;
        proof {
            crate::varint::lemma_leb_u_len(s);
        }
        let rem = cur.remaining_len();
        if size > rem as u64 {
            return Err(DecodeError::UnexpectedEof);
        }
        let body_bytes = match cur.read_bytes(size as usize) {
            Ok(v) => v,
            Err(e) => {
                return Err(e);
            },
        };
        proof {
            assert(s.skip(l as int).take(size as int) =~= s.subrange(
                l as int,
                (l + size) as int,
            ));
            assert(s.skip(l as int).skip(size as int) =~= s.skip((l + size) as int));
            assert(advance(s, l + (size as nat)) =~= s.skip((l + size) as int));
        }
        let f = match Func::try_from(body_bytes) {
            Ok(f) => f,
            Err(e) => {
                return Err(e);
            },
        };
        let mut rest = match decode_code_entries(cur, cnt - 1) {
            Ok(v) => v,
            Err(e) => {
                return Err(e);
            },
        };
        let ghost rest0 = rest@;
        rest.insert(0, f);
        proof {
            let m = s_code_entries(advance(s, l + (size as nat)), (cnt - 1) as nat).unwrap().1;
            lemma_s_code_entries_len(advance(s, l + (size as nat)), (cnt - 1) as nat);
            assert(rest@ =~= seq![f] + rest0);
            assert(code_funcs_model(seq![f] + rest0) =~= seq![code_func_model(f)]
                + code_funcs_model(rest0));
            assert(s.skip((l + size) as int).skip(m as int) =~= s.skip((l + size + m) as int));
        }
        Ok(rest)
    }
}

/// A parsed run of code entries spans at most `s.len()` bytes.
proof fn lemma_s_code_entries_len(s: Seq<u8>, cnt: nat)
    ensures
        s_code_entries(s, cnt) matches Ok((fbs, n)) ==> n <= s.len(),
    decreases cnt,
{
    if cnt > 0 {
        crate::varint::lemma_leb_u_len(s);
        match leb_u(s) {
            None => {},
            Some((size, l)) => {
                if s.len() >= l + size {
                    assert(advance(s, l + size) =~= s.skip((l + size) as int));
                    lemma_s_code_entries_len(advance(s, l + (size as nat)), (cnt - 1) as nat);
                }
            },
        }
    }
}

/// Decode a whole code-section payload.  The decoded entries match the
/// modelled section exactly, and decoding fails exactly when the model
/// fails, with the same error.
pub fn decode(bytes: Vec<u8>) -> (r: Result<Vec<Func>, DecodeError>)
    ensures
        s_code_section(bytes@) matches Ok(fbs) ==> r matches Ok(v) && code_funcs_model(v@) == fbs,
        s_code_section(bytes@) matches Err(e) ==> r == Err::<Vec<Func>, DecodeError>(e),
{
    let ghost s = bytes@;
    let mut cur = ByteCursor::new(bytes);
    let cnt = match cur.read_u64() {
        Ok(x) => x,
        Err(e) => {
            return Err(e);
        },
    };
    proof {
        let l = leb_u(s).unwrap().1;
        crate::varint::lemma_leb_u_len(s);
        assert(advance(s, l) =~= s.skip(l as int));
    }
    match decode_code_entries(&mut cur, cnt) {
        Ok(v) => Ok(v),
        Err(e) => Err(e),
    }
}

} // verus!

use vstd::prelude::*;

use crate::cursor::ByteCursor;
use crate::error::DecodeError;
use crate::error::Malformation;
use crate::instr_decode::advance;
use crate::types::val_types_of;
use crate::types::FuncType;
use crate::types::ResultType;
use crate::types::ValType;
use crate::varint::leb_u;

verus! {

/// The mathematical shape of a function type: its parameter and result
/// lists as sequences.
pub open spec fn func_type_model(ft: FuncType) -> (Seq<ValType>, Seq<ValType>) {
    (ft.0.0@, ft.1.0@)
}

/// The shapes of a sequence of function types, in order.
pub open spec fn func_types_model(s: Seq<FuncType>) -> Seq<(Seq<ValType>, Seq<ValType>)> {
    Seq::new(s.len(), |i: int| func_type_model(s[i]))
}

/// The result-type list at the front of `s`: a count, then that many
/// value-type bytes.
pub open spec fn s_result_type(s: Seq<u8>) -> Result<(Seq<ValType>, nat), DecodeError> {
    match leb_u(s) {
        None => Err(DecodeError::UnexpectedEof),
        Some((cnt, l)) => if !(cnt < 0x1_0000_0000_0000_0000 && l <= 10) {
            Err(DecodeError::Malformed(Malformation::VarintOverflow))
        } else if s.len() < l + cnt {
            Err(DecodeError::UnexpectedEof)
        } else {
            match val_types_of(s.subrange(l as int, (l + cnt) as int)) {
                Err(e) => Err(e),
                Ok(vs) => Ok((vs, l + cnt)),
            }
        },
    }
}

/// The function type at the front of `s`: the fixed tag byte, then the
/// parameter and result lists.
pub open spec fn s_func_type(s: Seq<u8>) -> Result<((Seq<ValType>, Seq<ValType>), nat), DecodeError> {
    if s.len() == 0 {
        Err(DecodeError::UnexpectedEof)
    } else if s[0] != 0x60 {
        Err(DecodeError::Malformed(Malformation::BadFuncTypeTag(s[0])))
    } else {
        match s_result_type(s.skip(1)) {
            Err(e) => Err(e),
            Ok((params, n1)) => match s_result_type(advance(s, 1 + n1)) {
                Err(e) => Err(e),
                Ok((results, n2)) => Ok(((params, results), 1 + n1 + n2)),
            },
        }
    }
}

/// `cnt` function types, one after another, at the front of `s`.
pub open spec fn s_func_types(s: Seq<u8>, cnt: nat) -> Result<
    (Seq<(Seq<ValType>, Seq<ValType>)>, nat),
    DecodeError,
>
    decreases cnt,
{
    if cnt == 0 {
        Ok((Seq::empty(), 0nat))
    } else {
        match s_func_type(s) {
            Err(e) => Err(e),
            Ok((ft, n)) => match s_func_types(advance(s, n), (cnt - 1) as nat) {
                Err(e) => Err(e),
                Ok((rest, m)) => Ok((seq![ft] + rest, n + m)),
            },
        }
    }
}

/// A whole type-section payload: a count, then that many function types.
/// Bytes after the counted entries are ignored.
pub open spec fn s_type_section(s: Seq<u8>) -> Result<
    Seq<(Seq<ValType>, Seq<ValType>)>,
    DecodeError,
> {
    match leb_u(s) {
        None => Err(DecodeError::UnexpectedEof),
        Some((cnt, l)) => if !(cnt < 0x1_0000_0000_0000_0000 && l <= 10) {
            Err(DecodeError::Malformed(Malformation::VarintOverflow))
        } else {
            match s_func_types(advance(s, l), cnt) {
                Err(e) => Err(e),
                Ok((fts, n)) => Ok(fts),
            }
        },
    }
}

/// Decode the result-type list at the cursor.
fn decode_result_type(cur: &mut ByteCursor) -> (r: Result<ResultType, DecodeError>)
    requires
        old(cur).wf(),
    ensures
        final(cur).wf(),
        final(cur).remaining().len() <= old(cur).remaining().len(),
        s_result_type(old(cur).remaining()) matches Ok((vs, n)) ==> {
            &&& r matches Ok(rt)
            &&& rt.0@ == vs
            &&& final(cur).remaining() == old(cur).remaining().skip(n as int)
        },
        s_result_type(old(cur).remaining()) matches Err(e) ==> r == Err::<ResultType, DecodeError>(
            e,
        ),
{
    let ghost s = old(cur).remaining();
    let cnt = match cur.read_u64() {
        Ok(x) => x,
        Err(e) => {
            return Err(e);
        },
    };
    let ghost l = leb_u(s).unwrap().1;
    proof {
        crate::varint::lemma_leb_u_len(s);
    }
    let rem = cur.remaining_len();
    if cnt > rem as u64 {
        return Err(DecodeError::UnexpectedEof);
    }
    let bytes = match cur.read_bytes(cnt as usize) {
        Ok(v) => v,
        Err(e) => {
            return Err(e);
        },
    };
    proof {
        crate::varint::lemma_leb_u_len(s);
        assert(s.skip(l as int).take(cnt as int) =~= s.subrange(l as int, l + cnt as int));
        assert(s.skip(l as int).skip(cnt as int) =~= s.skip(l + cnt as int));
    }
    match ResultType::try_from(bytes) {
        Ok(rt) => Ok(rt),
        Err(e) => Err(e),
    }
}

/// Decode the function type at the cursor.
fn decode_func_type(cur: &mut ByteCursor) -> (r: Result<FuncType, DecodeError>)
    requires
        old(cur).wf(),
    ensures
        final(cur).wf(),
        final(cur).remaining().len() <= old(cur).remaining().len(),
        s_func_type(old(cur).remaining()) matches Ok((ft, n)) ==> {
            &&& r matches Ok(v)
            &&& func_type_model(v) == ft
            &&& final(cur).remaining() == old(cur).remaining().skip(n as int)
        },
        s_func_type(old(cur).remaining()) matches Err(e) ==> r == Err::<FuncType, DecodeError>(e),
{
    let ghost s = old(cur).remaining();
    let tag = match cur.read_byte() {
        Ok(b) => b,
        Err(e) => {
            return Err(e);
        },
    };
    if tag != 0x60 {
        return Err(DecodeError::Malformed(Malformation::BadFuncTypeTag(tag)));
    }
    let params = match decode_result_type(cur) {
        Ok(p) => p,
        Err(e) => {
            return Err(e);
        },
    };
    let ghost n1 = s_result_type(s.skip(1)).unwrap().1;
    proof {
        lemma_s_result_type_len(s.skip(1));
        assert(s.skip(1).skip(n1 as int) =~= s.skip((1 + n1) as int));
        assert(advance(s, 1 + n1) =~= s.skip((1 + n1) as int));
    }
    let results = match decode_result_type(cur) {
        Ok(p) => p,
        Err(e) => {
            return Err(e);
        },
    };
    proof {
        lemma_s_result_type_len(advance(s, 1 + n1));
        let n2 = s_result_type(advance(s, 1 + n1)).unwrap().1;
        assert(s.skip((1 + n1) as int).skip(n2 as int) =~= s.skip((1 + n1 + n2) as int));
    }
    Ok(FuncType(params, results))
}

/// A parsed result-type list spans at most `s.len()` bytes.
proof fn lemma_s_result_type_len(s: Seq<u8>)
    ensures
        s_result_type(s) matches Ok((vs, n)) ==> n <= s.len(),
{
    crate::varint::lemma_leb_u_len(s);
}

/// A parsed function type spans at most `s.len()` bytes.
proof fn lemma_s_func_type_len(s: Seq<u8>)
    ensures
        s_func_type(s) matches Ok((ft, n)) ==> 1 <= n <= s.len(),
{
    if s.len() > 0 && s[0] == 0x60 {
        lemma_s_result_type_len(s.skip(1));
        match s_result_type(s.skip(1)) {
            Ok((params, n1)) => {
                assert(advance(s, 1 + n1) =~= s.skip((1 + n1) as int));
                lemma_s_result_type_len(advance(s, 1 + n1));
            },
            Err(_) => {},
        }
    }
}

/// Decode `cnt` function types at the cursor.
fn decode_func_types(cur: &mut ByteCursor, cnt: u64) -> (r: Result<Vec<FuncType>, DecodeError>)
    requires
        old(cur).wf(),
    ensures
        final(cur).wf(),
        final(cur).remaining().len() <= old(cur).remaining().len(),
        s_func_types(old(cur).remaining(), cnt as nat) matches Ok((fts, n)) ==> {
            &&& r matches Ok(v)
            &&& func_types_model(v@) == fts
            &&& final(cur).remaining() == old(cur).remaining().skip(n as int)
        },
        s_func_types(old(cur).remaining(), cnt as nat) matches Err(e) ==> r == Err::<
            Vec<FuncType>,
            DecodeError,
        >(e),
    decreases cnt,
{
    let ghost s = old(cur).remaining();
    if cnt == 0 {
        let v: Vec<FuncType> = Vec::new();
        proof {
            assert(func_types_model(v@) =~= Seq::<(Seq<ValType>, Seq<ValType>)>::empty());
            assert(s.skip(0) =~= s);
        }
        Ok(v)
    } else {
        let ft = match decode_func_type(cur) {
            Ok(f) => f,
            Err(e) => {
                return Err(e);
            },
        };
        let ghost n = s_func_type(s).unwrap().1;
        proof {
            lemma_s_func_type_len(s);
            assert(advance(s, n) =~= s.skip(n as int));
        }
        let mut rest = match decode_func_types(cur, cnt - 1) {
            Ok(v) => v,
            Err(e) => {
                return Err(e);
            },
        };
        let ghost rest0 = rest@;
        rest.insert(0, ft);
        proof {
            let ghost m = s_func_types(advance(s, n), (cnt - 1) as nat).unwrap().1;
            lemma_s_func_types_len(advance(s, n), (cnt - 1) as nat);
            assert(rest@ =~= seq![ft] + rest0);
            assert(func_types_model(seq![ft] + rest0) =~= seq![func_type_model(ft)]
                + func_types_model(rest0));
            assert(s.skip(n as int).skip(m as int) =~= s.skip((n + m) as int));
        }
        Ok(rest)
    }
}

/// A parsed run of function types spans at most `s.len()` bytes.
proof fn lemma_s_func_types_len(s: Seq<u8>, cnt: nat)
    ensures
        s_func_types(s, cnt) matches Ok((fts, n)) ==> n <= s.len(),
    decreases cnt,
{
    if cnt > 0 {
        lemma_s_func_type_len(s);
        match s_func_type(s) {
            Ok((ft, n)) => {
                assert(advance(s, n) =~= s.skip(n as int));
                lemma_s_func_types_len(advance(s, n), (cnt - 1) as nat);
            },
            Err(_) => {},
        }
    }
}

/// Decode a whole type-section payload.  The decoded list matches the
/// modelled section exactly, and decoding fails exactly when the model
/// fails, with the same error.
pub fn decode(bytes: Vec<u8>) -> (r: Result<Vec<FuncType>, DecodeError>)
    ensures
        s_type_section(bytes@) matches Ok(fts) ==> r matches Ok(v) && func_types_model(v@) == fts,
        s_type_section(bytes@) matches Err(e) ==> r == Err::<Vec<FuncType>, DecodeError>(e),
{
    let ghost s = bytes@;
    let mut cur = ByteCursor::new(bytes);
    let cnt = match cur.read_u64() {
        Ok(x) => x,
        Err(e) => {
            return Err(e);
        },
    };
    proof {
        let l = leb_u(s).unwrap().1;
        crate::varint::lemma_leb_u_len(s);
        assert(advance(s, l) =~= s.skip(l as int));
    }
    match decode_func_types(&mut cur, cnt) {
        Ok(v) => Ok(v),
        Err(e) => Err(e),
    }
}

} // verus!

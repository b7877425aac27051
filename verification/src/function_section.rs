use vstd::prelude::*;

use crate::cursor::ByteCursor;
use crate::error::DecodeError;
use crate::error::Malformation;
use crate::instr_decode::advance;
use crate::varint::leb_u;

verus! {

/// `cnt` type indices, one after another, at the front of `s`; each is an
/// unsigned varint truncated to 32 bits.
pub open spec fn s_indices(s: Seq<u8>, cnt: nat) -> Result<(Seq<u32>, nat), DecodeError>
    decreases cnt,
{
    if cnt == 0 {
        Ok((Seq::empty(), 0nat))
    } else {
        match leb_u(s) {
            None => Err(DecodeError::UnexpectedEof),
            Some((v, l)) => if !(v < 0x1_0000_0000_0000_0000 && l <= 10) {
                Err(DecodeError::Malformed(Malformation::VarintOverflow))
            } else {
                match s_indices(advance(s, l), (cnt - 1) as nat) {
                    Err(e) => Err(e),
                    Ok((rest, m)) => Ok((seq![v as u32] + rest, l + m)),
                }
            },
        }
    }
}

/// A whole function-section payload: a count, then that many type indices.
/// Bytes after the counted entries are ignored.
pub open spec fn s_function_section(s: Seq<u8>) -> Result<Seq<u32>, DecodeError> {
    match leb_u(s) {
        None => Err(DecodeError::UnexpectedEof),
        Some((cnt, l)) => if !(cnt < 0x1_0000_0000_0000_0000 && l <= 10) {
            Err(DecodeError::Malformed(Malformation::VarintOverflow))
        } else {
            match s_indices(advance(s, l), cnt) {
                Err(e) => Err(e),
                Ok((idxs, n)) => Ok(idxs),
            }
        },
    }
}

/// Decode `cnt` type indices at the cursor.
fn decode_indices(cur: &mut ByteCursor, cnt: u64) -> (r: Result<Vec<u32>, DecodeError>)
    requires
        old(cur).wf(),
    ensures
        final(cur).wf(),
        final(cur).remaining().len() <= old(cur).remaining().len(),
        s_indices(old(cur).remaining(), cnt as nat) matches Ok((idxs, n)) ==> {
            &&& r matches Ok(v)
            &&& v@ == idxs
            &&& final(cur).remaining() == old(cur).remaining().skip(n as int)
        },
        s_indices(old(cur).remaining(), cnt as nat) matches Err(e) ==> r == Err::<
            Vec<u32>,
            DecodeError,
        >(e),
    decreases cnt,
{
    let ghost s = old(cur).remaining();
    if cnt == 0 {
        let v: Vec<u32> = Vec::new();
        proof {
            assert(s.skip(0) =~= s);
        }
        Ok(v)
    } else {
        let idx = match cur.read_u32() {
            Ok(x) => x,
            Err(e) => {
                return Err(e);
            },
        };
        let ghost l = leb_u(s).unwrap().1;
        proof {
            crate::varint::lemma_leb_u_len(s);
            assert(advance(s, l) =~= s.skip(l as int));
        }
        let mut rest = match decode_indices(cur, cnt - 1) {
            Ok(v) => v,
            Err(e) => {
                return Err(e);
            },
        };
        let ghost rest0 = rest@;
        rest.insert(0, idx);
        proof {
            let m = s_indices(advance(s, l), (cnt - 1) as nat).unwrap().1;
            lemma_s_indices_len(advance(s, l), (cnt - 1) as nat);
            assert(rest@ =~= seq![idx] + rest0);
            assert(s.skip(l as int).skip(m as int) =~= s.skip((l + m) as int));
        }
        Ok(rest)
    }
}

/// A parsed run of indices spans at most `s.len()` bytes.
proof fn lemma_s_indices_len(s: Seq<u8>, cnt: nat)
    ensures
        s_indices(s, cnt) matches Ok((idxs, n)) ==> n <= s.len(),
    decreases cnt,
{
    if cnt > 0 {
        crate::varint::lemma_leb_u_len(s);
        match leb_u(s) {
            None => {},
            Some((v, l)) => {
                assert(advance(s, l) =~= s.skip(l as int));
                lemma_s_indices_len(advance(s, l), (cnt - 1) as nat);
            },
        }
    }
}

/// Decode a whole function-section payload: the positional list of type
/// indices.  The decoded list matches the modelled section exactly, and
/// decoding fails exactly when the model fails, with the same error.
pub fn decode(bytes: Vec<u8>) -> (r: Result<Vec<u32>, DecodeError>)
    ensures
        s_function_section(bytes@) matches Ok(idxs) ==> r matches Ok(v) && v@ == idxs,
        s_function_section(bytes@) matches Err(e) ==> r == Err::<Vec<u32>, DecodeError>(e),
{
    let ghost s = bytes@;
    let mut cur = ByteCursor::new(bytes);
    let cnt = match cur.read_u64() {
        Ok(x) => x,
        Err(e) => {
            return Err(e);
        },
    };
    proof {
        let l = leb_u(s).unwrap().1;
        crate::varint::lemma_leb_u_len(s);
        assert(advance(s, l) =~= s.skip(l as int));
    }
    match decode_indices(&mut cur, cnt) {
        Ok(v) => Ok(v),
        Err(e) => Err(e),
    }
}

} // verus!

use vstd::prelude::*;

use crate::cursor::ByteCursor;
use crate::error::DecodeError;
use crate::error::Malformation;
use crate::instr_decode::advance;
use crate::module::Export;
use crate::module::ExportDesc;
use crate::varint::leb_u;
use vstd::utf8::decode_utf8;
use vstd::utf8::valid_utf8;

verus! {

/// The mathematical shape of an export: its name as characters, and its
/// description.
pub open spec fn export_model(e: Export) -> (Seq<char>, ExportDesc) {
    (e.name@, e.desc)
}

/// The shapes of a sequence of exports, in order.
pub open spec fn exports_model(s: Seq<Export>) -> Seq<(Seq<char>, ExportDesc)> {
    Seq::new(s.len(), |i: int| export_model(s[i]))
}

/// The fixed table from an export tag byte to its description kind.
pub open spec fn export_desc_of(tag: u8, idx: u32) -> Option<ExportDesc> {
    if tag == 0x00 {
        Some(ExportDesc::Func(idx))
    } else if tag == 0x01 {
        Some(ExportDesc::Table(idx))
    } else if tag == 0x02 {
        Some(ExportDesc::Mem(idx))
    } else if tag == 0x03 {
        Some(ExportDesc::Global(idx))
    } else {
        None
    }
}

/// The export at the front of `s`: a length-prefixed UTF-8 name, a tag
/// byte, and a variable-length index.
pub open spec fn s_export(s: Seq<u8>) -> Result<((Seq<char>, ExportDesc), nat), DecodeError> {
    match leb_u(s) {
        None => Err(DecodeError::UnexpectedEof),
        Some((nlen, l)) => if !(nlen < 0x1_0000_0000_0000_0000 && l <= 10) {
            Err(DecodeError::Malformed(Malformation::VarintOverflow))
        } else if s.len() < l + nlen {
            Err(DecodeError::UnexpectedEof)
        } else {
            let name_bytes = s.subrange(l as int, (l + nlen) as int);
            if !valid_utf8(name_bytes) {
                Err(DecodeError::Malformed(Malformation::InvalidUtf8))
            } else if s.len() == l + nlen {
                Err(DecodeError::UnexpectedEof)
            } else {
                let tag = s[(l + nlen) as int];
                match leb_u(advance(s, l + nlen + 1)) {
                    None => Err(DecodeError::UnexpectedEof),
                    Some((v, li)) => if !(v < 0x1_0000_0000_0000_0000 && li <= 10) {
                        Err(DecodeError::Malformed(Malformation::VarintOverflow))
                    } else {
                        match export_desc_of(tag, v as u32) {
                            None => Err(DecodeError::Malformed(Malformation::BadExportTag(tag))),
                            Some(desc) => Ok(
                                ((decode_utf8(name_bytes), desc), l + nlen + 1 + li),
                            ),
                        }
                    },
                }
            }
        },
    }
}

/// `cnt` exports, one after another, at the front of `s`.
pub open spec fn s_exports(s: Seq<u8>, cnt: nat) -> Result<
    (Seq<(Seq<char>, ExportDesc)>, nat),
    DecodeError,
>
    decreases cnt,
{
    if cnt == 0 {
        Ok((Seq::empty(), 0nat))
    } else {
        match s_export(s) {
            Err(e) => Err(e),
            Ok((ex, n)) => match s_exports(advance(s, n), (cnt - 1) as nat) {
                Err(e) => Err(e),
                Ok((rest, m)) => Ok((seq![ex] + rest, n + m)),
            },
        }
    }
}

/// A whole export-section payload: a count, then that many exports.  Bytes
/// after the counted entries are ignored.
pub open spec fn s_export_section(s: Seq<u8>) -> Result<Seq<(Seq<char>, ExportDesc)>, DecodeError> {
    match leb_u(s) {
        None => Err(DecodeError::UnexpectedEof),
        Some((cnt, l)) => if !(cnt < 0x1_0000_0000_0000_0000 && l <= 10) {
            Err(DecodeError::Malformed(Malformation::VarintOverflow))
        } else {
            match s_exports(advance(s, l), cnt) {
                Err(e) => Err(e),
                Ok((exs, n)) => Ok(exs),
            }
        },
    }
}

/// Relies on `String::from_utf8`: it succeeds exactly on the byte
/// sequences that are valid UTF-8, and then yields their decoded
/// characters, as `vstd`'s `valid_utf8` and `decode_utf8` state them.
#[verifier::external_body]
fn string_from_utf8(bytes: Vec<u8>) -> (r: Option<String>)
    ensures
        r is Some <==> valid_utf8(bytes@),
        r matches Some(s) ==> s@ == decode_utf8(bytes@),
{
    match String::from_utf8(bytes) {
        Ok(s) => Some(s),
        Err(_) => None,
    }
}

/// Decode the export at the cursor.
fn decode_export(cur: &mut ByteCursor) -> (r: Result<Export, DecodeError>)
    requires
        old(cur).wf(),
    ensures
        final(cur).wf(),
        final(cur).remaining().len() <= old(cur).remaining().len(),
        s_export(old(cur).remaining()) matches Ok((ex, n)) ==> {
            &&& r matches Ok(e)
            &&& export_model(e) == ex
            &&& final(cur).remaining() == old(cur).remaining().skip(n as int)
        },
        s_export(old(cur).remaining()) matches Err(e) ==> r == Err::<Export, DecodeError>(e),
{
    let ghost s = old(cur).remaining();
    let nlen = match cur.read_u64() {
        Ok(x) => x,
        Err(e) => {
            return Err(e);
        },
    };
    let ghost l = leb_u(s).unwrap().1;
    proof {
        crate::varint::lemma_leb_u_len(s);
    }
    let rem = cur.remaining_len();
    if nlen > rem as u64 {
        return Err(DecodeError::UnexpectedEof);
    }
    let name_bytes = match cur.read_bytes(nlen as usize) {
        Ok(v) => v,
        Err(e) => {
            return Err(e);
        },
    };
    proof {
        assert(s.skip(l as int).take(nlen as int) =~= s.subrange(l as int, (l + nlen) as int));
        assert(s.skip(l as int).skip(nlen as int) =~= s.skip((l + nlen) as int));
    }
    let name = match string_from_utf8(name_bytes) {
        Some(n) => n,
        None => {
            return Err(DecodeError::Malformed(Malformation::InvalidUtf8));
        },
    };
    let tag = match cur.read_byte() {
        Ok(b) => b,
        Err(e) => {
            return Err(e);
        },
    };
    proof {
        assert(s.skip((l + nlen) as int)[0] == s[(l + nlen) as int]);
        assert(s.skip((l + nlen) as int).skip(1) =~= s.skip((l + nlen + 1) as int));
        assert(advance(s, l + (nlen as nat) + 1) =~= s.skip((l + nlen + 1) as int));
    }
    let idx = match cur.read_u32() {
        Ok(x) => x,
        Err(e) => {
            return Err(e);
        },
    };
    proof {
        crate::varint::lemma_leb_u_len(advance(s, l + (nlen as nat) + 1));
        match leb_u(advance(s, l + (nlen as nat) + 1)) {
            Some((v, li)) => {
                assert(s.skip((l + nlen + 1) as int).skip(li as int) =~= s.skip(
                    (l + nlen + 1 + li) as int,
                ));
            },
            None => {},
        }
    }
    let desc = match tag {
        0x00 => ExportDesc::Func(idx),
        0x01 => ExportDesc::Table(idx),
        0x02 => ExportDesc::Mem(idx),
        0x03 => ExportDesc::Global(idx),
        _ => {
            return Err(DecodeError::Malformed(Malformation::BadExportTag(tag)));
        },
    };
    Ok(Export { name, desc })
}

/// A parsed export spans at most `s.len()` bytes.
proof fn lemma_s_export_len(s: Seq<u8>)
    ensures
        s_export(s) matches Ok((ex, n)) ==> 1 <= n <= s.len(),
{
    crate::varint::lemma_leb_u_len(s);
    match leb_u(s) {
        None => {},
        Some((nlen, l)) => {
            crate::varint::lemma_leb_u_len(advance(s, l + nlen + 1));
        },
    }
}

/// Decode `cnt` exports at the cursor.
fn decode_exports(cur: &mut ByteCursor, cnt: u64) -> (r: Result<Vec<Export>, DecodeError>)
    requires
        old(cur).wf(),
    ensures
        final(cur).wf(),
        final(cur).remaining().len() <= old(cur).remaining().len(),
        s_exports(old(cur).remaining(), cnt as nat) matches Ok((exs, n)) ==> {
            &&& r matches Ok(v)
            &&& exports_model(v@) == exs
            &&& final(cur).remaining() == old(cur).remaining().skip(n as int)
        },
        s_exports(old(cur).remaining(), cnt as nat) matches Err(e) ==> r == Err::<
            Vec<Export>,
            DecodeError,
        >(e),
    decreases cnt,
{
    let ghost s = old(cur).remaining();
    if cnt == 0 {
        let v: Vec<Export> = Vec::new();
        proof {
            assert(exports_model(v@) =~= Seq::<(Seq<char>, ExportDesc)>::empty());
            assert(s.skip(0) =~= s);
        }
        Ok(v)
    } else {
        let ex = match decode_export(cur) {
            Ok(e) => e,
            Err(e) => {
                return Err(e);
            },
        };
        let ghost n = s_export(s).unwrap().1;
        proof {
            lemma_s_export_len(s);
            assert(advance(s, n) =~= s.skip(n as int));
        }
        let mut rest = match decode_exports(cur, cnt - 1) {
            Ok(v) => v,
            Err(e) => {
                return Err(e);
            },
        };
        let ghost rest0 = rest@;
        rest.insert(0, ex);
        proof {
            let m = s_exports(advance(s, n), (cnt - 1) as nat).unwrap().1;
            lemma_s_exports_len(advance(s, n), (cnt - 1) as nat);
            assert(rest@ =~= seq![ex] + rest0);
            assert(exports_model(seq![ex] + rest0) =~= seq![export_model(ex)] + exports_model(
                rest0,
            ));
            assert(s.skip(n as int).skip(m as int) =~= s.skip((n + m) as int));
        }
        Ok(rest)
    }
}

/// A parsed run of exports spans at most `s.len()` bytes.
proof fn lemma_s_exports_len(s: Seq<u8>, cnt: nat)
    ensures
        s_exports(s, cnt) matches Ok((exs, n)) ==> n <= s.len(),
    decreases cnt,
{
    if cnt > 0 {
        lemma_s_export_len(s);
        match s_export(s) {
            Ok((ex, n)) => {
                assert(advance(s, n) =~= s.skip(n as int));
                lemma_s_exports_len(advance(s, n), (cnt - 1) as nat);
            },
            Err(_) => {},
        }
    }
}

/// Decode a whole export-section payload.  The decoded list matches the
/// modelled section exactly, and decoding fails exactly when the model
/// fails, with the same error.
pub fn decode(bytes: Vec<u8>) -> (r: Result<Vec<Export>, DecodeError>)
    ensures
        s_export_section(bytes@) matches Ok(exs) ==> r matches Ok(v) && exports_model(v@) == exs,
        s_export_section(bytes@) matches Err(e) ==> r == Err::<Vec<Export>, DecodeError>(e),
{
    let ghost s = bytes@;
    let mut cur = ByteCursor::new(bytes);
    let cnt = match cur.read_u64() {
        Ok(x) => x,
        Err(e) => {
            return Err(e);
        },
    };
    proof {
        let l = leb_u(s).unwrap().1;
        crate::varint::lemma_leb_u_len(s);
        assert(advance(s, l) =~= s.skip(l as int));
    }
    match decode_exports(&mut cur, cnt) {
        Ok(v) => Ok(v),
        Err(e) => Err(e),
    }
}

} // verus!

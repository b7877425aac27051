use vstd::prelude::*;

use crate::code_section;
use crate::cursor::le_u32;
use crate::cursor::ByteCursor;
use crate::error::DecodeError;
use crate::error::Malformation;
use crate::instr_decode::advance;
use crate::instr_decode::instrs_model;
use crate::instr_decode::InstrModel;
use crate::module::ExportDesc;
use crate::module::Func;
use crate::module::Module;
use crate::section::decode_sections;
use crate::section::empty_sections_model;
use crate::section::s_sections;
use crate::types::ValType;

verus! {

/// Whether `s` starts with the format's fixed four magic bytes.
pub open spec fn has_magic(s: Seq<u8>) -> bool {
    s.len() >= 4 && s[0] == 0x00 && s[1] == 0x61 && s[2] == 0x73 && s[3] == 0x6D
}

/// The module header at the front of `s`: the four magic bytes, then a
/// four-byte little-endian version that must be 1.  A wrong magic fails
/// before anything else is read.
pub open spec fn s_header(s: Seq<u8>) -> Result<(u32, nat), DecodeError> {
    if s.len() < 4 {
        Err(DecodeError::UnexpectedEof)
    } else if !has_magic(s) {
        Err(DecodeError::Malformed(Malformation::BadMagic))
    } else if s.len() < 8 {
        Err(DecodeError::UnexpectedEof)
    } else if le_u32(s.skip(4)) != 1 {
        Err(DecodeError::UnsupportedVersion(le_u32(s.skip(4))))
    } else {
        Ok((1u32, 8nat))
    }
}

/// Read and check the module header, returning the version.  Succeeds
/// exactly when the stream starts with the magic bytes and version 1;
/// a stream with any other four-byte prefix fails with `BadMagic` before
/// any section is read.
pub fn decode_header(cur: &mut ByteCursor) -> (r: Result<u32, DecodeError>)
    requires
        old(cur).wf(),
    ensures
        final(cur).wf(),
        s_header(old(cur).remaining()) matches Ok((v, n)) ==> r == Ok::<u32, DecodeError>(v)
            && final(cur).remaining() == old(cur).remaining().skip(n as int),
        s_header(old(cur).remaining()) matches Err(e) ==> r == Err::<u32, DecodeError>(e),
{
    let ghost s = old(cur).remaining();
    let magic = match cur.read_bytes(4) {
        Ok(v) => v,
        Err(e) => {
            return Err(e);
        },
    };
    if !(magic[0] == 0x00 && magic[1] == 0x61 && magic[2] == 0x73 && magic[3] == 0x6D) {
        return Err(DecodeError::Malformed(Malformation::BadMagic));
    }
    let version = match cur.read_u32_le() {
        Ok(v) => v,
        Err(e) => {
            return Err(e);
        },
    };
    if version != 1 {
        return Err(DecodeError::UnsupportedVersion(version));
    }
    proof {
        assert(s.skip(4).skip(4) =~= s.skip(8));
    }
    Ok(version)
}

/// Zip the function section's type indices and the code section's entries
/// positionally into `Func` records.  For any pair of lists of unequal
/// length this always fails with `SectionLengthMismatch` and never
/// truncates; for lists of equal length it always succeeds, pairing
/// position `i` of both into the function at position `i`.
pub fn try_merge_to_funcs(function_section: Vec<u32>, code_section: Vec<code_section::Func>) -> (r:
    Result<Vec<Func>, DecodeError>)
    ensures
        function_section@.len() != code_section@.len() ==> r == Err::<Vec<Func>, DecodeError>(
            DecodeError::Malformed(Malformation::SectionLengthMismatch),
        ),
        function_section@.len() == code_section@.len() ==> {
            &&& r matches Ok(v)
            &&& v@.len() == function_section@.len()
            &&& forall|i: int|
                0 <= i < v@.len() ==> {
                    &&& (#[trigger] v@[i]).type_ == function_section@[i]
                    &&& v@[i].locals == code_section@[i].locals
                    &&& v@[i].body == code_section@[i].expr
                }
        },
{
    let n = function_section.len();
    if code_section.len() != n {
        return Err(DecodeError::Malformed(Malformation::SectionLengthMismatch));
    }
    let ghost code0 = code_section@;
    let mut code = code_section;
    let mut funcs: Vec<Func> = Vec::new();
    let mut i: usize = 0;
    while i < n
        invariant
            0 <= i <= n,
            n == function_section@.len() == code0.len(),
            code@ =~= code0.skip(i as int),
            funcs@.len() == i,
            forall|j: int|
                0 <= j < i ==> {
                    &&& (#[trigger] funcs@[j]).type_ == function_section@[j]
                    &&& funcs@[j].locals == code0[j].locals
                    &&& funcs@[j].body == code0[j].expr
                },
        decreases n - i,
    {
        let entry = code.remove(0);
        proof {
            assert(code0.skip(i as int)[0] == code0[i as int]);
            assert(code0.skip(i as int).skip(1) =~= code0.skip(i as int + 1));
        }
        let f = Func { type_: function_section[i], locals: entry.locals, body: entry.expr };
        funcs.push(f);
        i = i + 1;
    }
    Ok(funcs)
}

/// Any stream whose first four bytes are not the magic sequence fails with
/// `BadMagic` before any section is read, whatever follows.
pub proof fn lemma_bad_magic_fails(s: Seq<u8>)
    ensures
        s.len() >= 4 && !has_magic(s) ==> s_module(s) == Err::<ModuleModel, DecodeError>(
            DecodeError::Malformed(Malformation::BadMagic),
        ),
{
}

/// The mathematical shape of a decoded module.
pub struct ModuleModel {
    pub version: u32,
    pub types: Seq<(Seq<ValType>, Seq<ValType>)>,
    pub funcs: Seq<(u32, Seq<ValType>, Seq<InstrModel>)>,
    pub exports: Seq<(Seq<char>, ExportDesc)>,
}

/// The shape of a module.
pub open spec fn module_model(m: Module) -> ModuleModel {
    ModuleModel {
        version: m.version,
        types: crate::type_section::func_types_model(m.types@),
        funcs: Seq::new(
            m.funcs@.len(),
            |i: int|
                (m.funcs@[i].type_, m.funcs@[i].locals@, instrs_model(m.funcs@[i].body@)),
        ),
        exports: crate::export_section::exports_model(m.exports@),
    }
}

/// The module encoded by `s`: the header, then the aggregated sections,
/// with the function and code sections zipped positionally.  Aggregation
/// fails when the two have different lengths — the one cross-section
/// invariant, checked at this single point.
pub open spec fn s_module(s: Seq<u8>) -> Result<ModuleModel, DecodeError> {
    match s_header(s) {
        Err(e) => Err(e),
        Ok((version, n)) => match s_sections(advance(s, n), empty_sections_model()) {
            Err(e) => Err(e),
            Ok(sm) => if sm.funcs.len() != sm.code.len() {
                Err(DecodeError::Malformed(Malformation::SectionLengthMismatch))
            } else {
                Ok(
                    ModuleModel {
                        version: version,
                        types: sm.types,
                        funcs: Seq::new(
                            sm.funcs.len(),
                            |i: int| (sm.funcs[i], sm.code[i].0, sm.code[i].1),
                        ),
                        exports: sm.exports,
                    },
                )
            },
        },
    }
}

/// Decode a whole binary module.  The result matches the modelled module
/// exactly — on success the function and code sections are guaranteed to
/// have been zipped one to one — and decoding fails exactly when the model
/// fails, with the same error.
pub fn decode(bytes: Vec<u8>) -> (r: Result<Module, DecodeError>)
    ensures
        s_module(bytes@) matches Ok(mm) ==> r matches Ok(m) && module_model(m) == mm,
        s_module(bytes@) matches Err(e) ==> r == Err::<Module, DecodeError>(e),
{
    let ghost s = bytes@;
    let mut cur = ByteCursor::new(bytes);
    let version = match decode_header(&mut cur) {
        Ok(v) => v,
        Err(e) => {
            return Err(e);
        },
    };
    proof {
        assert(advance(s, 8) =~= s.skip(8));
    }
    let sections = match decode_sections(&mut cur) {
        Ok(secs) => secs,
        Err(e) => {
            return Err(e);
        },
    };
    let ghost sm = s_sections(advance(s, 8), empty_sections_model()).unwrap();
    let types = sections.type_section;
    let exports = sections.export_section;
    let funcs = match try_merge_to_funcs(sections.function_section, sections.code_section) {
        Ok(v) => v,
        Err(e) => {
            return Err(e);
        },
    };
    let m = Module { version, types, funcs, exports };
    proof {
        let mm = s_module(s).unwrap();
        assert(module_model(m).funcs =~= mm.funcs);
    }
    Ok(m)
}

} // verus!

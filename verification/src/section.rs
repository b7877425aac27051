use vstd::prelude::*;

use crate::code_section;
use crate::cursor::ByteCursor;
use crate::error::DecodeError;
use crate::error::Malformation;
use crate::export_section;
use crate::export_section::exports_model;
use crate::function_section;
use crate::instr_decode::advance;
use crate::instr_decode::InstrModel;
use crate::module::Export;
use crate::module::ExportDesc;
use crate::type_section;
use crate::type_section::func_types_model;
use crate::types::FuncType;
use crate::types::ValType;
use crate::varint::leb_u;

verus! {

/// The section ids the format defines.
/// <https://webassembly.github.io/spec/core/binary/modules.html#sections>
#[derive(Clone, Copy, Debug, PartialEq, Eq, Structural)]
pub enum SectionID {
    Custom,
    Type,
    Import,
    Function,
    Table,
    Memory,
    Global,
    Export,
    Start,
    Element,
    Code,
    Data,
    DataCount,
}

/// The fixed table from an id byte to its section id; bytes past the table
/// map to `None`.
pub open spec fn section_id_of(b: u8) -> Option<SectionID> {
    if b == 0 {
        Some(SectionID::Custom)
    } else if b == 1 {
        Some(SectionID::Type)
    } else if b == 2 {
        Some(SectionID::Import)
    } else if b == 3 {
        Some(SectionID::Function)
    } else if b == 4 {
        Some(SectionID::Table)
    } else if b == 5 {
        Some(SectionID::Memory)
    } else if b == 6 {
        Some(SectionID::Global)
    } else if b == 7 {
        Some(SectionID::Export)
    } else if b == 8 {
        Some(SectionID::Start)
    } else if b == 9 {
        Some(SectionID::Element)
    } else if b == 10 {
        Some(SectionID::Code)
    } else if b == 11 {
        Some(SectionID::Data)
    } else if b == 12 {
        Some(SectionID::DataCount)
    } else {
        None
    }
}

/// The id byte of a section id.
pub open spec fn section_id_byte(id: SectionID) -> u8 {
    match id {
        SectionID::Custom => 0,
        SectionID::Type => 1,
        SectionID::Import => 2,
        SectionID::Function => 3,
        SectionID::Table => 4,
        SectionID::Memory => 5,
        SectionID::Global => 6,
        SectionID::Export => 7,
        SectionID::Start => 8,
        SectionID::Element => 9,
        SectionID::Code => 10,
        SectionID::Data => 11,
        SectionID::DataCount => 12,
    }
}

impl SectionID {
    /// Decode one section id byte.
    pub fn from_byte(b: u8) -> (r: Option<SectionID>)
        ensures
            r == section_id_of(b),
    {
        match b {
            0 => Some(SectionID::Custom),
            1 => Some(SectionID::Type),
            2 => Some(SectionID::Import),
            3 => Some(SectionID::Function),
            4 => Some(SectionID::Table),
            5 => Some(SectionID::Memory),
            6 => Some(SectionID::Global),
            7 => Some(SectionID::Export),
            8 => Some(SectionID::Start),
            9 => Some(SectionID::Element),
            10 => Some(SectionID::Code),
            11 => Some(SectionID::Data),
            12 => Some(SectionID::DataCount),
            _ => None,
        }
    }

    /// The id byte of this section id.
    pub fn to_byte(&self) -> (r: u8)
        ensures
            r == section_id_byte(*self),
    {
        match self {
            SectionID::Custom => 0,
            SectionID::Type => 1,
            SectionID::Import => 2,
            SectionID::Function => 3,
            SectionID::Table => 4,
            SectionID::Memory => 5,
            SectionID::Global => 6,
            SectionID::Export => 7,
            SectionID::Start => 8,
            SectionID::Element => 9,
            SectionID::Code => 10,
            SectionID::Data => 11,
            SectionID::DataCount => 12,
        }
    }
}

/// One decoded section's content.
pub enum Section {
    Type(Vec<FuncType>),
    Function(Vec<u32>),
    Code(Vec<code_section::Func>),
    Export(Vec<Export>),
    Custom,
}

/// The mathematical shape of one decoded section's content.
pub enum SectionModel {
    Type(Seq<(Seq<ValType>, Seq<ValType>)>),
    Function(Seq<u32>),
    Code(Seq<(Seq<ValType>, Seq<InstrModel>)>),
    Export(Seq<(Seq<char>, ExportDesc)>),
    Custom,
}

/// The shape of a decoded section.
pub open spec fn section_model(sec: Section) -> SectionModel {
    match sec {
        Section::Type(v) => SectionModel::Type(func_types_model(v@)),
        Section::Function(v) => SectionModel::Function(v@),
        Section::Code(v) => SectionModel::Code(code_section::code_funcs_model(v@)),
        Section::Export(v) => SectionModel::Export(exports_model(v@)),
        Section::Custom => SectionModel::Custom,
    }
}

/// What decoding a section payload yields for a given id: custom sections
/// are recognized and discarded, the four decoded kinds go to their
/// decoders, and every other id is an unsupported feature — skipping such a
/// section silently would change what the module means.
pub open spec fn s_section_decode(id: SectionID, bytes: Seq<u8>) -> Result<
    SectionModel,
    DecodeError,
> {
    match id {
        SectionID::Custom => Ok(SectionModel::Custom),
        SectionID::Type => match type_section::s_type_section(bytes) {
            Err(e) => Err(e),
            Ok(m) => Ok(SectionModel::Type(m)),
        },
        SectionID::Function => match function_section::s_function_section(bytes) {
            Err(e) => Err(e),
            Ok(m) => Ok(SectionModel::Function(m)),
        },
        SectionID::Export => match export_section::s_export_section(bytes) {
            Err(e) => Err(e),
            Ok(m) => Ok(SectionModel::Export(m)),
        },
        SectionID::Code => match code_section::s_code_section(bytes) {
            Err(e) => Err(e),
            Ok(m) => Ok(SectionModel::Code(m)),
        },
        _ => Err(DecodeError::UnsupportedFeature(section_id_byte(id))),
    }
}

impl Section {
    /// Decode one section's payload, dispatching on its id.
    pub fn decode(id: SectionID, bytes: Vec<u8>) -> (r: Result<Section, DecodeError>)
        ensures
            s_section_decode(id, bytes@) matches Ok(m) ==> r matches Ok(sec) && section_model(sec)
                == m,
            s_section_decode(id, bytes@) matches Err(e) ==> r == Err::<Section, DecodeError>(e),
    {
        match id {
            SectionID::Custom => Ok(Section::Custom),
            SectionID::Type => match type_section::decode(bytes) {
                Ok(v) => Ok(Section::Type(v)),
                Err(e) => Err(e),
            },
            SectionID::Function => match function_section::decode(bytes) {
                Ok(v) => Ok(Section::Function(v)),
                Err(e) => Err(e),
            },
            SectionID::Export => match export_section::decode(bytes) {
                Ok(v) => Ok(Section::Export(v)),
                Err(e) => Err(e),
            },
            SectionID::Code => match code_section::decode(bytes) {
                Ok(v) => Ok(Section::Code(v)),
                Err(e) => Err(e),
            },
            _ => Err(DecodeError::UnsupportedFeature(id.to_byte())),
        }
    }
}

/// The aggregated section contents of a module, one empty-by-default list
/// per decoded kind, so a module lacking a section decodes validly.
pub struct Sections {
    pub type_section: Vec<FuncType>,
    pub function_section: Vec<u32>,
    pub code_section: Vec<code_section::Func>,
    pub export_section: Vec<Export>,
}

/// The mathematical shape of the aggregate.
pub struct SectionsModel {
    pub types: Seq<(Seq<ValType>, Seq<ValType>)>,
    pub funcs: Seq<u32>,
    pub code: Seq<(Seq<ValType>, Seq<InstrModel>)>,
    pub exports: Seq<(Seq<char>, ExportDesc)>,
}

/// The shape of an aggregate.
pub open spec fn sections_model(s: Sections) -> SectionsModel {
    SectionsModel {
        types: func_types_model(s.type_section@),
        funcs: s.function_section@,
        code: code_section::code_funcs_model(s.code_section@),
        exports: exports_model(s.export_section@),
    }
}

/// The aggregate before any section was seen.
pub open spec fn empty_sections_model() -> SectionsModel {
    SectionsModel {
        types: Seq::empty(),
        funcs: Seq::empty(),
        code: Seq::empty(),
        exports: Seq::empty(),
    }
}

impl Default for Sections {
    /// The aggregate with every list empty.
    fn default() -> (r: Sections)
        ensures
            sections_model(r) == empty_sections_model(),
    {
        let r = Sections {
            type_section: Vec::new(),
            function_section: Vec::new(),
            code_section: Vec::new(),
            export_section: Vec::new(),
        };
        proof {
            assert(func_types_model(r.type_section@) =~= Seq::<(Seq<ValType>, Seq<ValType>)>::empty());
            assert(code_section::code_funcs_model(r.code_section@) =~= Seq::<
                (Seq<ValType>, Seq<InstrModel>),
            >::empty());
            assert(exports_model(r.export_section@) =~= Seq::<(Seq<char>, ExportDesc)>::empty());
        }
        r
    }
}

/// A later section of a kind replaces an earlier one of the same kind.
pub open spec fn s_add_section(m: SectionsModel, sm: SectionModel) -> SectionsModel {
    match sm {
        SectionModel::Type(t) => SectionsModel { types: t, ..m },
        SectionModel::Function(f) => SectionsModel { funcs: f, ..m },
        SectionModel::Code(c) => SectionsModel { code: c, ..m },
        SectionModel::Export(e) => SectionsModel { exports: e, ..m },
        SectionModel::Custom => m,
    }
}

impl Sections {
    /// Store one decoded section in its slot of the aggregate.
    pub fn add_section(&mut self, section: Section)
        ensures
            sections_model(*final(self)) == s_add_section(
                sections_model(*old(self)),
                section_model(section),
            ),
    {
        match section {
            Section::Type(v) => self.type_section = v,
            Section::Function(v) => self.function_section = v,
            Section::Code(v) => self.code_section = v,
            Section::Export(v) => self.export_section = v,
            Section::Custom => (),
        }
    }
}

/// The section record at the front of `s`: an id byte, a length varint,
/// and a payload of exactly that many bytes.
pub open spec fn s_frame(s: Seq<u8>) -> Result<((SectionID, Seq<u8>), nat), DecodeError> {
    if s.len() == 0 {
        Err(DecodeError::UnexpectedEof)
    } else {
        match leb_u(s.skip(1)) {
            None => Err(DecodeError::UnexpectedEof),
            Some((len, l)) => if !(len < 0x1_0000_0000_0000_0000 && l <= 10) {
                Err(DecodeError::Malformed(Malformation::VarintOverflow))
            } else {
                match section_id_of(s[0]) {
                    None => Err(DecodeError::Malformed(Malformation::UnknownSectionId(s[0]))),
                    Some(id) => if s.len() < 1 + l + len {
                        Err(DecodeError::UnexpectedEof)
                    } else {
                        Ok(((id, s.subrange((1 + l) as int, (1 + l + len) as int)), 1 + l + len))
                    },
                }
            },
        }
    }
}

/// Read one section frame at the cursor: its id and its payload bytes.
pub fn decode_section_type(cur: &mut ByteCursor) -> (r: Result<(SectionID, Vec<u8>), DecodeError>)
    requires
        old(cur).wf(),
    ensures
        final(cur).wf(),
        final(cur).remaining().len() <= old(cur).remaining().len(),
        s_frame(old(cur).remaining()) matches Ok(((id, payload), n)) ==> {
            &&& r matches Ok(p)
            &&& p.0 == id
            &&& p.1@ == payload
            &&& final(cur).remaining() == old(cur).remaining().skip(n as int)
        },
        s_frame(old(cur).remaining()) matches Err(e) ==> r == Err::<
            (SectionID, Vec<u8>),
            DecodeError,
        >(e),
{
    let ghost s = old(cur).remaining();
    let id_byte = match cur.read_byte() {
        Ok(b) => b,
        Err(e) => {
            return Err(e);
        },
    };
    let len = match cur.read_u64() {
        Ok(x) => x,
        Err(e) => {
            return Err(e);
        },
    };
    let ghost l = leb_u(s.skip(1)).unwrap().1;
    proof {
        crate::varint::lemma_leb_u_len(s.skip(1));
        assert(s.skip(1).skip(l as int) =~= s.skip((1 + l) as int));
    }
    let id = match SectionID::from_byte(id_byte) {
        Some(id) => id,
        None => {
            return Err(DecodeError::Malformed(Malformation::UnknownSectionId(id_byte)));
        },
    };
    let rem = cur.remaining_len();
    if len > rem as u64 {
        return Err(DecodeError::UnexpectedEof);
    }
    let payload = match cur.read_bytes(len as usize) {
        Ok(v) => v,
        Err(e) => {
            return Err(e);
        },
    };
    proof {
        assert(s.skip((1 + l) as int).take(len as int) =~= s.subrange(
            (1 + l) as int,
            (1 + l + len) as int,
        ));
        assert(s.skip((1 + l) as int).skip(len as int) =~= s.skip((1 + l + len) as int));
    }
    Ok((id, payload))
}

/// The whole section stream at the front of `s`, folded into the aggregate
/// starting from `m`.
pub open spec fn s_sections(s: Seq<u8>, m: SectionsModel) -> Result<SectionsModel, DecodeError>
    decreases s.len(),
{
    if s.len() == 0 {
        Ok(m)
    } else {
        match s_frame(s) {
            Err(e) => Err(e),
            Ok(((id, payload), n)) => match s_section_decode(id, payload) {
                Err(e) => Err(e),
                Ok(sm) => s_sections(advance(s, n), s_add_section(m, sm)),
            },
        }
    }
}

/// A parsed frame spans one to `s.len()` bytes.
proof fn lemma_s_frame_len(s: Seq<u8>)
    ensures
        s_frame(s) matches Ok((f, n)) ==> 1 <= n <= s.len(),
{
}

/// Read, decode and fold sections into the aggregate until the input is
/// exhausted.
fn decode_sections_from(cur: &mut ByteCursor, sections: Sections) -> (r: Result<
    Sections,
    DecodeError,
>)
    requires
        old(cur).wf(),
    ensures
        final(cur).wf(),
        s_sections(old(cur).remaining(), sections_model(sections)) matches Ok(m) ==> r matches Ok(
            secs,
        ) && sections_model(secs) == m,
        s_sections(old(cur).remaining(), sections_model(sections)) matches Err(e) ==> r == Err::<
            Sections,
            DecodeError,
        >(e),
    decreases old(cur).remaining().len(),
{
    let ghost s = old(cur).remaining();
    if !cur.has_next() {
        return Ok(sections);
    }
    let (id, payload) = match decode_section_type(cur) {
        Ok(p) => p,
        Err(e) => {
            return Err(e);
        },
    };
    let sec = match Section::decode(id, payload) {
        Ok(sec) => sec,
        Err(e) => {
            return Err(e);
        },
    };
    let mut acc = sections;
    acc.add_section(sec);
    proof {
        lemma_s_frame_len(s);
        let n = s_frame(s).unwrap().1;
        assert(advance(s, n) =~= s.skip(n as int));
    }
    decode_sections_from(cur, acc)
}

/// Read, decode and aggregate every section until the input is exhausted.
pub fn decode_sections(cur: &mut ByteCursor) -> (r: Result<Sections, DecodeError>)
    requires
        old(cur).wf(),
    ensures
        final(cur).wf(),
        s_sections(old(cur).remaining(), empty_sections_model()) matches Ok(m) ==> r matches Ok(
            secs,
        ) && sections_model(secs) == m,
        s_sections(old(cur).remaining(), empty_sections_model()) matches Err(e) ==> r == Err::<
            Sections,
            DecodeError,
        >(e),
{
    let sections: Sections = Default::default();
    decode_sections_from(cur, sections)
}

} // verus!

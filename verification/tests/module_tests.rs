use chibiwasm::code_section;
use chibiwasm::cursor::ByteCursor;
use chibiwasm::decode::decode_header;
use chibiwasm::decode::try_merge_to_funcs;
use chibiwasm::section::decode_section_type;
use chibiwasm::section::decode_sections;
use chibiwasm::section::SectionID;
use chibiwasm::DecodeError;
use chibiwasm::Export;
use chibiwasm::Func;
use chibiwasm::FuncType;
use chibiwasm::Instruction;
use chibiwasm::Malformation;
use chibiwasm::NumType;
use chibiwasm::ResultType;
use chibiwasm::ValType;

/// The binary form of a module exporting nothing, holding one function that
/// adds its two 32-bit parameters.
fn add_module_bytes() -> Vec<u8> {
    vec![
        0x00, 0x61, 0x73, 0x6D, 0x01, 0x00, 0x00, 0x00, // header
        0x01, 0x07, 0x01, 0x60, 0x02, 0x7F, 0x7F, 0x01, 0x7F, // type section
        0x03, 0x02, 0x01, 0x00, // function section
        0x0A, 0x09, 0x01, 0x07, 0x00, 0x20, 0x00, 0x20, 0x01, 0x6A, 0x0B, // code section
    ]
}

/// The binary form of the empty module: just the header.
fn empty_module_bytes() -> Vec<u8> {
    vec![0x00, 0x61, 0x73, 0x6D, 0x01, 0x00, 0x00, 0x00]
}

#[test]
fn decode_header_test() {
    //Given
    let mut reader = ByteCursor::new(empty_module_bytes());
    //When & Then
    let version = decode_header(&mut reader).unwrap();
    assert_eq!(version, 1);
}

#[test]
fn decode() {
    //Given
    let bytes = add_module_bytes();
    //when
    let module = chibiwasm::decode(bytes).unwrap();
    //then
    assert_eq!(module.exports, Vec::<Export>::new());
    assert_eq!(
        module.types,
        vec![FuncType(
            ResultType(vec![
                ValType::Number(NumType::I32),
                ValType::Number(NumType::I32)
            ]),
            ResultType(vec![ValType::Number(NumType::I32)])
        )]
    );
    assert_eq!(
        module.funcs,
        vec![Func {
            type_: 0,
            locals: vec![],
            body: vec![
                Instruction::LocalGet(0),
                Instruction::LocalGet(1),
                Instruction::I32Add
            ]
        }]
    );
}

#[test]
fn decode_section_type_test() {
    //Given
    let mut reader = ByteCursor::new(add_module_bytes());
    let _ = reader.read_bytes(8);
    //When
    let (sec, content) = decode_section_type(&mut reader).unwrap();
    //Then
    assert_eq!((sec, content.len()), (SectionID::Type, 7));

    //When
    let (sec, content) = decode_section_type(&mut reader).unwrap();
    //Then
    assert_eq!((sec, content.len()), (SectionID::Function, 2));

    //When
    let (sec, content) = decode_section_type(&mut reader).unwrap();
    //Then
    assert_eq!((sec, content.len()), (SectionID::Code, 9));
}

#[test]
fn section_decode_section() {
    //Given
    let mut reader = ByteCursor::new(add_module_bytes());
    let _ = reader.read_bytes(8);

    //When
    let sections = decode_sections(&mut reader).unwrap();

    //Then
    assert_eq!(sections.type_section.len(), 1);
    assert_eq!(sections.function_section.len(), 1);
    assert_eq!(sections.export_section.len(), 0);
    assert_eq!(sections.code_section.len(), 1);
}

#[test]
fn invalid_magic_fails_before_sections() {
    // Any wrong four-byte prefix fails, whatever follows it.
    let mut bytes = add_module_bytes();
    bytes[3] = 0x6E;
    assert_eq!(
        chibiwasm::decode(bytes),
        Err(DecodeError::Malformed(Malformation::BadMagic))
    );
    assert_eq!(
        chibiwasm::decode(vec![0xDE, 0xAD, 0xBE, 0xEF]),
        Err(DecodeError::Malformed(Malformation::BadMagic))
    );
    // Fewer than four bytes end before the magic can be checked.
    assert_eq!(
        chibiwasm::decode(vec![0x00, 0x61]),
        Err(DecodeError::UnexpectedEof)
    );
}

#[test]
fn unsupported_version_is_rejected() {
    let mut bytes = empty_module_bytes();
    bytes[4] = 0x02;
    assert_eq!(
        chibiwasm::decode(bytes),
        Err(DecodeError::UnsupportedVersion(2))
    );
}

#[test]
fn unequal_function_and_code_sections_fail() {
    // Two type indices but one code entry: assembly must fail, never
    // truncate.
    let funcs = vec![0u32, 0];
    let body = code_section::Func {
        locals: vec![],
        expr: vec![],
    };
    assert_eq!(
        try_merge_to_funcs(funcs, vec![body]),
        Err(DecodeError::Malformed(Malformation::SectionLengthMismatch))
    );
    // The same through a whole module: a function section with one entry
    // and no code section.
    let bytes = vec![
        0x00, 0x61, 0x73, 0x6D, 0x01, 0x00, 0x00, 0x00, // header
        0x03, 0x02, 0x01, 0x00, // function section with one entry
    ];
    assert_eq!(
        chibiwasm::decode(bytes),
        Err(DecodeError::Malformed(Malformation::SectionLengthMismatch))
    );
}

#[test]
fn merge_zips_positionally() {
    let funcs = vec![4u32, 9];
    let a = code_section::Func {
        locals: vec![ValType::Number(NumType::I32)],
        expr: vec![Instruction::Nop],
    };
    let b = code_section::Func {
        locals: vec![],
        expr: vec![Instruction::I32Add],
    };
    let merged = try_merge_to_funcs(funcs, vec![a, b]).unwrap();
    assert_eq!(
        merged,
        vec![
            Func {
                type_: 4,
                locals: vec![ValType::Number(NumType::I32)],
                body: vec![Instruction::Nop]
            },
            Func {
                type_: 9,
                locals: vec![],
                body: vec![Instruction::I32Add]
            },
        ]
    );
}

#[test]
fn unsupported_section_is_a_hard_failure() {
    // A memory section (id 5) is recognized but not handled.
    let mut bytes = empty_module_bytes();
    bytes.extend_from_slice(&[0x05, 0x03, 0x01, 0x00, 0x01]);
    assert_eq!(chibiwasm::decode(bytes), Err(DecodeError::UnsupportedFeature(5)));
}

#[test]
fn unknown_section_id_is_malformed() {
    let mut bytes = empty_module_bytes();
    bytes.extend_from_slice(&[0x0D, 0x00]);
    assert_eq!(
        chibiwasm::decode(bytes),
        Err(DecodeError::Malformed(Malformation::UnknownSectionId(0x0D)))
    );
}

#[test]
fn custom_section_is_ignored() {
    // A custom section between the header and a type section changes
    // nothing.
    let mut bytes = empty_module_bytes();
    bytes.extend_from_slice(&[0x00, 0x03, 0x01, 0x68, 0x69]); // custom, 3 bytes
    bytes.extend_from_slice(&[0x01, 0x04, 0x01, 0x60, 0x00, 0x00]); // one empty type
    let module = chibiwasm::decode(bytes).unwrap();
    assert_eq!(module.version, 1);
    assert_eq!(
        module.types,
        vec![FuncType(ResultType(vec![]), ResultType(vec![]))]
    );
    assert_eq!(module.funcs, vec![]);
    assert_eq!(module.exports, vec![]);
}

#[test]
fn empty_module_decodes() {
    let module = chibiwasm::decode(empty_module_bytes()).unwrap();
    assert_eq!(module.version, 1);
    assert_eq!(module.types, vec![]);
    assert_eq!(module.funcs, vec![]);
    assert_eq!(module.exports, vec![]);
}

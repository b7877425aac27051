use chibiwasm::code_section;
use chibiwasm::code_section::decode_locals;
use chibiwasm::code_section::Func;
use chibiwasm::export_section;
use chibiwasm::function_section;
use chibiwasm::type_section;
use chibiwasm::DecodeError;
use chibiwasm::Export;
use chibiwasm::ExportDesc;
use chibiwasm::FuncType;
use chibiwasm::Instruction::I32Add;
use chibiwasm::Instruction::LocalGet;
use chibiwasm::Malformation;
use chibiwasm::NumType;
use chibiwasm::RefType;
use chibiwasm::ResultType;
use chibiwasm::ValType;

#[test]
fn decode_func() {
    let bytes = vec![0x00u8, 0x20, 0x00, 0x20, 0x01, 0x6a, 0x0b];
    let f = Func::try_from(bytes).unwrap();
    assert_eq!(
        f,
        Func {
            locals: vec![],
            expr: vec![LocalGet(0), LocalGet(1), I32Add]
        }
    );
}

#[test]
fn export_test_decode() {
    //given
    let bytes = vec![0x01u8, 0x03, 0x61, 0x64, 0x64, 0x00, 0x00];
    //when
    let x = export_section::decode(bytes).unwrap();
    //then
    assert_eq!(x.len(), 1);
    assert_eq!(
        x[0],
        Export {
            name: "add".to_string(),
            desc: ExportDesc::Func(0)
        }
    );
}

#[test]
fn function_test_decode() {
    //given
    let bytes = vec![0x02u8, 0x00, 0x02];
    //when
    let x = function_section::decode(bytes).unwrap();
    //then
    assert_eq!(x.len(), 2);
    assert_eq!(x, vec![0x00u32, 0x02]);
}

#[test]
fn test() {
    //given
    let bytes = vec![0x01u8, 0x60, 0x02, 0x7f, 0x7C, 0x01, 0x7b];
    //when
    let content = type_section::decode(bytes).unwrap();
    //then
    assert_eq!(content.len(), 1);
    assert_eq!(
        content[0],
        FuncType(
            ResultType(vec![
                ValType::Number(NumType::I32),
                ValType::Number(NumType::F64)
            ]),
            ResultType(vec![ValType::Vec])
        )
    );
}

#[test]
fn decode_result_type() {
    //given
    let bytes = vec![0x7Fu8, 0x7B, 0x6F];
    //when
    let ResultType(x) = ResultType::try_from(bytes).unwrap();
    //then
    assert_eq!(x.len(), 3);
    assert_eq!(x[0], ValType::Number(NumType::I32));
    assert_eq!(x[1], ValType::Vec);
    assert_eq!(x[2], ValType::Ref(RefType::ExternRef));
}

#[test]
fn locals_run_length_expansion() {
    // Two groups: three i32 and one f64 expand in encounter order.
    let bytes = vec![0x02u8, 0x03, 0x7F, 0x01, 0x7C];
    let (locals, rest) = decode_locals(bytes).unwrap();
    assert_eq!(
        locals,
        vec![
            ValType::Number(NumType::I32),
            ValType::Number(NumType::I32),
            ValType::Number(NumType::I32),
            ValType::Number(NumType::F64)
        ]
    );
    assert_eq!(rest, Vec::<u8>::new());
}

#[test]
fn unknown_val_type_is_malformed() {
    assert_eq!(
        ResultType::try_from(vec![0x7Fu8, 0x42]),
        Err(DecodeError::Malformed(Malformation::UnknownValType(0x42)))
    );
    // In a locals group too.
    assert_eq!(
        decode_locals(vec![0x01u8, 0x01, 0x42]),
        Err(DecodeError::Malformed(Malformation::UnknownValType(0x42)))
    );
}

#[test]
fn bad_func_type_tag_is_malformed() {
    let bytes = vec![0x01u8, 0x61, 0x00, 0x00];
    assert_eq!(
        type_section::decode(bytes),
        Err(DecodeError::Malformed(Malformation::BadFuncTypeTag(0x61)))
    );
}

#[test]
fn bad_export_tag_is_malformed() {
    let bytes = vec![0x01u8, 0x01, 0x61, 0x04, 0x00];
    assert_eq!(
        export_section::decode(bytes),
        Err(DecodeError::Malformed(Malformation::BadExportTag(0x04)))
    );
}

#[test]
fn invalid_utf8_name_is_malformed() {
    // 0xFF can begin no UTF-8 sequence.
    let bytes = vec![0x01u8, 0x01, 0xFF, 0x00, 0x00];
    assert_eq!(
        export_section::decode(bytes),
        Err(DecodeError::Malformed(Malformation::InvalidUtf8))
    );
}

#[test]
fn multi_byte_utf8_name_is_decoded() {
    // The name bytes 0xC3 0xA9 are one character, not two.
    let bytes = vec![0x01u8, 0x02, 0xC3, 0xA9, 0x00, 0x07];
    let x = export_section::decode(bytes).unwrap();
    assert_eq!(x.len(), 1);
    assert_eq!(x[0].name, "\u{e9}".to_string());
    assert_eq!(x[0].name.chars().count(), 1);
    assert_eq!(x[0].desc, ExportDesc::Func(7));
}

#[test]
fn truncated_code_entry_is_unexpected_eof() {
    // The size prefix promises more bytes than the payload holds.
    let bytes = vec![0x01u8, 0x07, 0x00, 0x20];
    assert_eq!(
        code_section::decode(bytes),
        Err(DecodeError::UnexpectedEof)
    );
}

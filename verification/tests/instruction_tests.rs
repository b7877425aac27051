use chibiwasm::instr_decode::InstructionArrayWrapper;
use chibiwasm::instructions::num_of_leb128_bytes;
use chibiwasm::BlockType;
use chibiwasm::DecodeError;
use chibiwasm::Instruction;
use chibiwasm::Malformation;
use chibiwasm::NumType;
use chibiwasm::ValType;

#[test]
fn decode_instructions() {
    assert_eq!(
        chibiwasm::decode_instructions(vec![0x20u8, 0x44, 0x20, 0x33, 0x6A]).unwrap(),
        vec![
            Instruction::LocalGet(68),
            Instruction::LocalGet(51),
            Instruction::I32Add
        ]
    );

    assert_eq!(
        chibiwasm::decode_instructions(vec![
            0x6Au8, 0x04, 0xA1, 0x86, 0x15, 0x6B, 0x6C, 0x05, 0x71, 0x72, 0x0B
        ])
        .unwrap(),
        vec![
            Instruction::I32Add,
            Instruction::If(
                BlockType::TypeIdx(344865),
                vec![Instruction::I32Sub, Instruction::I32Mul],
                Some(vec![Instruction::I32And, Instruction::I32Or])
            )
        ]
    );
}

#[test]
fn block_type_try_from() {
    let bytes = vec![0x40u8, 0x01, 0x02];
    assert_eq!(BlockType::try_from(bytes).unwrap(), BlockType::Empty);

    let bytes = vec![0x7Du8, 0x01, 0x02];
    assert_eq!(
        BlockType::try_from(bytes).unwrap(),
        BlockType::ValType(ValType::Number(NumType::F32))
    );

    let bytes = vec![0xA1_u8, 0x86, 0x15];
    assert_eq!(BlockType::try_from(bytes).unwrap(), BlockType::TypeIdx(344865));
}

#[test]
fn instructions_try_from() {
    let bytes = vec![0x20u8, 0x44, 0x20, 0x33, 0x6A];
    let InstructionArrayWrapper(insts) = InstructionArrayWrapper::try_from(bytes).unwrap();

    assert_eq!(
        insts,
        vec![
            Instruction::LocalGet(68),
            Instruction::LocalGet(51),
            Instruction::I32Add
        ]
    );
}

#[test]
fn calc_num_of_leb128_byte() {
    assert_eq!(num_of_leb128_bytes(0), 1);
    assert_eq!(num_of_leb128_bytes(1), 1);
    assert_eq!(num_of_leb128_bytes(127), 1);
    assert_eq!(num_of_leb128_bytes(128), 2);
    assert_eq!(num_of_leb128_bytes(512), 2);
    assert_eq!(num_of_leb128_bytes(16384), 3);
}

#[test]
fn block_type_bytes_len() {
    assert_eq!(BlockType::Empty.bytes_len(), 1);
    assert_eq!(
        BlockType::ValType(ValType::Number(NumType::F32)).bytes_len(),
        1
    );
    assert_eq!(BlockType::TypeIdx(0).bytes_len(), 1);
    assert_eq!(BlockType::TypeIdx(344865).bytes_len(), 3);
}

#[test]
fn opcode_table_simple() {
    // Every no-operand opcode of the table, in one stream: each byte is one
    // instruction.
    assert_eq!(
        chibiwasm::decode_instructions(vec![
            0x00u8, 0x01, 0x0F, 0x6A, 0x6B, 0x6C, 0x6D, 0x6F, 0x71, 0x72
        ])
        .unwrap(),
        vec![
            Instruction::Unreachable,
            Instruction::Nop,
            Instruction::Return,
            Instruction::I32Add,
            Instruction::I32Sub,
            Instruction::I32Mul,
            Instruction::I32DivS,
            Instruction::I32DivU,
            Instruction::I32And,
            Instruction::I32Or,
        ]
    );
}

#[test]
fn opcode_table_immediates() {
    // A varint immediate is consumed exactly: the byte after it is the next
    // instruction.
    assert_eq!(
        chibiwasm::decode_instructions(vec![0x10u8, 0x85, 0x01, 0x6A]).unwrap(),
        vec![Instruction::Call(133), Instruction::I32Add]
    );
    assert_eq!(
        chibiwasm::decode_instructions(vec![0x20u8, 0x00, 0x41, 0x7F, 0x6A]).unwrap(),
        vec![
            Instruction::LocalGet(0),
            Instruction::I32Const(-1),
            Instruction::I32Add
        ]
    );
}

#[test]
fn opcode_table_structured() {
    assert_eq!(
        chibiwasm::decode_instructions(vec![0x02u8, 0x40, 0x0B]).unwrap(),
        vec![Instruction::Block(BlockType::Empty, vec![])]
    );
    assert_eq!(
        chibiwasm::decode_instructions(vec![0x03u8, 0x7F, 0x6A, 0x0B]).unwrap(),
        vec![Instruction::Loop(
            BlockType::ValType(ValType::Number(NumType::I32)),
            vec![Instruction::I32Add]
        )]
    );
    assert_eq!(
        chibiwasm::decode_instructions(vec![0x04u8, 0x40, 0x01, 0x0B]).unwrap(),
        vec![Instruction::If(BlockType::Empty, vec![Instruction::Nop], None)]
    );
}

#[test]
fn nested_blocks_decode_recursively() {
    // A loop inside a block: the inner `end` belongs to the loop, the outer
    // one to the block.  A flat scan for the first terminator byte would get
    // this wrong.
    assert_eq!(
        chibiwasm::decode_instructions(vec![0x02u8, 0x40, 0x03, 0x40, 0x6A, 0x0B, 0x0B]).unwrap(),
        vec![Instruction::Block(
            BlockType::Empty,
            vec![Instruction::Loop(BlockType::Empty, vec![Instruction::I32Add])]
        )]
    );
    // An if nested in an if's else branch.
    assert_eq!(
        chibiwasm::decode_instructions(vec![
            0x04u8, 0x40, 0x01, 0x05, 0x04, 0x40, 0x6B, 0x0B, 0x0B, 0x6A
        ])
        .unwrap(),
        vec![
            Instruction::If(
                BlockType::Empty,
                vec![Instruction::Nop],
                Some(vec![Instruction::If(
                    BlockType::Empty,
                    vec![Instruction::I32Sub],
                    None
                )])
            ),
            Instruction::I32Add
        ]
    );
}

#[test]
fn unknown_opcode_is_malformed() {
    // An undefined opcode aborts the whole stream, whatever surrounds it.
    assert_eq!(
        chibiwasm::decode_instructions(vec![0x20u8, 0x00, 0xFF, 0x6A]),
        Err(DecodeError::Malformed(Malformation::UnknownOpcode(0xFF)))
    );
    // Nested inside an otherwise valid block, it still aborts everything.
    assert_eq!(
        chibiwasm::decode_instructions(vec![0x02u8, 0x40, 0xFF, 0x0B]),
        Err(DecodeError::Malformed(Malformation::UnknownOpcode(0xFF)))
    );
}

#[test]
fn else_outside_if_is_malformed() {
    assert_eq!(
        chibiwasm::decode_instructions(vec![0x05u8]),
        Err(DecodeError::Malformed(Malformation::UnknownOpcode(0x05)))
    );
    assert_eq!(
        chibiwasm::decode_instructions(vec![0x02u8, 0x40, 0x05, 0x0B]),
        Err(DecodeError::Malformed(Malformation::UnknownOpcode(0x05)))
    );
}

#[test]
fn unterminated_block_is_unexpected_eof() {
    assert_eq!(
        chibiwasm::decode_instructions(vec![0x02u8, 0x40, 0x6A]),
        Err(DecodeError::UnexpectedEof)
    );
    assert_eq!(
        chibiwasm::decode_instructions(vec![0x04u8]),
        Err(DecodeError::UnexpectedEof)
    );
}

#[test]
fn negative_block_type_index_is_malformed() {
    // 0x7F decodes as the signed varint -1, which is no type index, but is
    // a value type; 0x41 decodes as -63 and is nothing at all.
    assert_eq!(
        chibiwasm::decode_instructions(vec![0x02u8, 0x41, 0x6A, 0x0B]),
        Err(DecodeError::Malformed(Malformation::BadBlockTypeIndex))
    );
}

use stack_based_virtual_machine::vm::instruction::Opcode;

#[test]
fn operation_decode_encode() {
    let opcode: Opcode = 1.into();
    let operand1: i16 = 1;
    let operand2: i8 = 2;

    let instruction: u32 = Opcode::encode(opcode.clone(), 1, 2);
    assert_eq!((opcode, operand1, operand2), Opcode::decode(instruction));
}

#[test]
fn instruction_byte() {
    let instruction = 0xb32 as u32;
    println!("{}", instruction);
    assert_eq!(
        instruction,
        Opcode::byte_array_to_instruction(Opcode::instruction_to_byte_array(instruction))
    );
}

#[test]
fn encode_layout_exact() {
    // Opcode ordinal in the top byte, operand1 big-endian in the middle two,
    // operand2 in the low byte.
    assert_eq!(Opcode::encode(Opcode::PUSH, 0x0102, 3), 0x0301_0203);
    assert_eq!(Opcode::encode(Opcode::HALT, 0, 0), 0);
}

#[test]
fn encode_negative_operands_round_trip() {
    let word = Opcode::encode(Opcode::PUSH, -1, -1);
    assert_eq!(word, 0x03FF_FFFF);
    assert_eq!(Opcode::decode(word), (Opcode::PUSH, -1, -1));
    let word = Opcode::encode(Opcode::JMP, -32768, 2);
    assert_eq!(Opcode::decode(word), (Opcode::JMP, -32768, 2));
}

#[test]
fn decode_is_total() {
    // An unassigned ordinal, the reserved maximum included, decodes to the
    // illegal opcode instead of failing.
    let (op, o1, o2) = Opcode::decode(Opcode::encode(Opcode::ILG, 5, 6));
    assert_eq!((op, o1, o2), (Opcode::ILG, 5, 6));
    let (op, _, _) = Opcode::decode(0x6300_0000);
    assert_eq!(op, Opcode::ILG);
}

#[test]
fn byte_array_layout_exact() {
    assert_eq!(Opcode::instruction_to_byte_array(0x0102_0304), [1, 2, 3, 4]);
    assert_eq!(Opcode::byte_array_to_instruction([1, 2, 3, 4]), 0x0102_0304);
}

#[test]
fn ordinal_conversions() {
    assert_eq!(u8::from(Opcode::HALT), 0);
    assert_eq!(u8::from(Opcode::RETURN), 23);
    assert_eq!(u8::from(Opcode::ILG), u8::MAX);
    assert_eq!(Opcode::from(24u8), Opcode::ILG);
    assert_eq!(Opcode::from(11u8), Opcode::JMP);
}

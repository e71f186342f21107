use stack_based_virtual_machine::vm::cpu::CPU;
use stack_based_virtual_machine::vm::cpu::FaultKind;
use stack_based_virtual_machine::vm::frame::Frame;
use stack_based_virtual_machine::vm::instruction::Opcode;

#[test]
fn arithmetic() {
    let program = vec![
        Opcode::encode(Opcode::PUSH, 2, 0),
        Opcode::encode(Opcode::PUSH, 5, 0),
        Opcode::encode(Opcode::ADD, 0, 0),
        Opcode::encode(Opcode::PUSH, 3, 0),
        Opcode::encode(Opcode::SUB, 0, 0),
        Opcode::encode(Opcode::PUSH, 4, 0),
        Opcode::encode(Opcode::MUL, 0, 0),
        Opcode::encode(Opcode::PUSH, 2, 0),
        Opcode::encode(Opcode::DIV, 0, 0),
        Opcode::encode(Opcode::PUSH, 2, 0),
        Opcode::encode(Opcode::POP, 0, 0),
        Opcode::encode(Opcode::PUSH, 5, 0),
        Opcode::encode(Opcode::MOD, 0, 0),
        Opcode::encode(Opcode::HALT, 0, 0),
    ];
    let mut cpu = CPU::new(program);

    assert_eq!(3, cpu.run().unwrap());
}

#[test]
fn logic() {
    let program = vec![
        Opcode::encode(Opcode::PUSH, 10, 0),
        Opcode::encode(Opcode::PUSH, 2, 0),
        Opcode::encode(Opcode::CMP, 0, 0),
        Opcode::encode(Opcode::JNE, 1, 0),
        Opcode::encode(Opcode::HALT, 0, 0),
    ];
    let mut cpu = CPU::new(program);

    assert_eq!(0, cpu.run().unwrap());
}

#[test]
fn functions() {
    let program = vec![
        Opcode::encode(Opcode::PUSH, 10, 0),
        Opcode::encode(Opcode::PUSH, 5, 0),
        Opcode::encode(Opcode::CALL, 3, 1),
        Opcode::encode(Opcode::STDOUT, 0, 0),
        Opcode::encode(Opcode::HALT, 1, 0),
        // subroutine that returns the larger of its two arguments
        Opcode::encode(Opcode::STORE, 0, 0),
        Opcode::encode(Opcode::STORE, 1, 0),
        Opcode::encode(Opcode::LOAD, 0, 0),
        Opcode::encode(Opcode::LOAD, 1, 0),
        Opcode::encode(Opcode::CMP, 0, 0),
        Opcode::encode(Opcode::JL, 3, 1),
        Opcode::encode(Opcode::LOAD, 0, 0),
        Opcode::encode(Opcode::RETURN, 1, 0),
        Opcode::encode(Opcode::LOAD, 1, 0),
        Opcode::encode(Opcode::RETURN, 1, 0),
    ];

    let mut cpu = CPU::new(program);
    assert_eq!(10, cpu.run().unwrap());
}

#[test]
fn sub_ordering() {
    // The operand pushed earlier is the left-hand side: 10 - 3, not 3 - 10.
    let program = vec![
        Opcode::encode(Opcode::PUSH, 10, 0),
        Opcode::encode(Opcode::PUSH, 3, 0),
        Opcode::encode(Opcode::SUB, 0, 0),
        Opcode::encode(Opcode::HALT, 0, 0),
    ];
    assert_eq!(7, CPU::new(program).run().unwrap());
}

#[test]
fn div_ordering() {
    let program = vec![
        Opcode::encode(Opcode::PUSH, 10, 0),
        Opcode::encode(Opcode::PUSH, 3, 0),
        Opcode::encode(Opcode::DIV, 0, 0),
        Opcode::encode(Opcode::HALT, 0, 0),
    ];
    assert_eq!(3, CPU::new(program).run().unwrap());
}

#[test]
fn cmp_equal_sets_zero_flag_and_je_taken() {
    let program = vec![
        Opcode::encode(Opcode::PUSH, 5, 0),
        Opcode::encode(Opcode::PUSH, 5, 0),
        Opcode::encode(Opcode::CMP, 0, 0),
        Opcode::encode(Opcode::JE, 7, 0),
        Opcode::encode(Opcode::PUSH, 1, 0),
        Opcode::encode(Opcode::HALT, 0, 0),
        Opcode::encode(Opcode::HALT, 0, 0),
        Opcode::encode(Opcode::PUSH, 42, 0),
        Opcode::encode(Opcode::HALT, 0, 0),
    ];
    assert_eq!(42, CPU::new(program).run().unwrap());
}

#[test]
fn cmp_negative_clears_both_flags() {
    // PUSH 1; PUSH 5; CMP pushes -4: the zero flag is clear and the sign
    // flag (strictly positive) is clear, so neither JE nor JG is taken.
    let program = vec![
        Opcode::encode(Opcode::PUSH, 1, 0),
        Opcode::encode(Opcode::PUSH, 5, 0),
        Opcode::encode(Opcode::CMP, 0, 0),
        Opcode::encode(Opcode::JE, 7, 0),
        Opcode::encode(Opcode::JG, 7, 0),
        Opcode::encode(Opcode::PUSH, 9, 0),
        Opcode::encode(Opcode::HALT, 0, 0),
        Opcode::encode(Opcode::PUSH, 42, 0),
        Opcode::encode(Opcode::HALT, 0, 0),
    ];
    assert_eq!(9, CPU::new(program).run().unwrap());
}

#[test]
fn addressing_modes_land_on_same_target() {
    // Absolute, forward-relative and backward-relative jumps aimed at the
    // same logical target from different sources all land there.
    let absolute = vec![
        Opcode::encode(Opcode::JMP, 3, 0),
        Opcode::encode(Opcode::PUSH, 1, 0),
        Opcode::encode(Opcode::HALT, 0, 0),
        Opcode::encode(Opcode::PUSH, 99, 0),
        Opcode::encode(Opcode::HALT, 0, 0),
    ];
    assert_eq!(99, CPU::new(absolute).run().unwrap());

    let forward = vec![
        Opcode::encode(Opcode::JMP, 3, 1),
        Opcode::encode(Opcode::PUSH, 1, 0),
        Opcode::encode(Opcode::HALT, 0, 0),
        Opcode::encode(Opcode::PUSH, 99, 0),
        Opcode::encode(Opcode::HALT, 0, 0),
    ];
    assert_eq!(99, CPU::new(forward).run().unwrap());

    let backward = vec![
        Opcode::encode(Opcode::JMP, 5, 1),
        Opcode::encode(Opcode::PUSH, 1, 0),
        Opcode::encode(Opcode::HALT, 0, 0),
        Opcode::encode(Opcode::PUSH, 99, 0),
        Opcode::encode(Opcode::HALT, 0, 0),
        Opcode::encode(Opcode::JMP, 2, 2),
    ];
    assert_eq!(99, CPU::new(backward).run().unwrap());
}

#[test]
fn call_store_isolation() {
    // The subroutine stores 99 into its own slot 0; the caller's slot 0
    // still holds 5 after the return.
    let program = vec![
        Opcode::encode(Opcode::PUSH, 5, 0),
        Opcode::encode(Opcode::STORE, 0, 0),
        Opcode::encode(Opcode::CALL, 5, 0),
        Opcode::encode(Opcode::LOAD, 0, 0),
        Opcode::encode(Opcode::HALT, 0, 0),
        Opcode::encode(Opcode::PUSH, 99, 0),
        Opcode::encode(Opcode::STORE, 0, 0),
        Opcode::encode(Opcode::RETURN, 0, 0),
    ];
    assert_eq!(5, CPU::new(program).run().unwrap());
}

#[test]
fn pop_underflow_faults() {
    let program = vec![Opcode::encode(Opcode::POP, 0, 0)];
    let fault = CPU::new(program).run().unwrap_err();
    assert_eq!(fault.kind, FaultKind::StackUnderflow);
    assert_eq!(fault.address, 0);
    assert_eq!(fault.instruction, Some((Opcode::POP, 0, 0)));
}

#[test]
fn stdout_peek_keeps_value() {
    let program = vec![
        Opcode::encode(Opcode::PUSH, 7, 0),
        Opcode::encode(Opcode::STDOUT, 0, 0),
        Opcode::encode(Opcode::HALT, 0, 0),
    ];
    assert_eq!(7, CPU::new(program).run().unwrap());
}

#[test]
fn stdout_keeps_stack_depth() {
    let program = vec![
        Opcode::encode(Opcode::PUSH, 7, 0),
        Opcode::encode(Opcode::STDOUT, 0, 0),
        Opcode::encode(Opcode::LEN, 0, 0),
        Opcode::encode(Opcode::HALT, 0, 0),
    ];
    assert_eq!(1, CPU::new(program).run().unwrap());
}

#[test]
fn len_pushes_depth() {
    let program = vec![
        Opcode::encode(Opcode::PUSH, 4, 0),
        Opcode::encode(Opcode::PUSH, 9, 0),
        Opcode::encode(Opcode::LEN, 0, 0),
        Opcode::encode(Opcode::HALT, 0, 0),
    ];
    assert_eq!(2, CPU::new(program).run().unwrap());
}

#[test]
fn dup_doubles_top() {
    let program = vec![
        Opcode::encode(Opcode::PUSH, 3, 0),
        Opcode::encode(Opcode::DUP, 0, 0),
        Opcode::encode(Opcode::ADD, 0, 0),
        Opcode::encode(Opcode::HALT, 0, 0),
    ];
    assert_eq!(6, CPU::new(program).run().unwrap());
}

#[test]
fn halt_on_empty_stack_yields_zero() {
    let program = vec![Opcode::encode(Opcode::HALT, 0, 0)];
    assert_eq!(0, CPU::new(program).run().unwrap());
}

#[test]
fn division_by_zero_faults() {
    let program = vec![
        Opcode::encode(Opcode::PUSH, 5, 0),
        Opcode::encode(Opcode::PUSH, 0, 0),
        Opcode::encode(Opcode::DIV, 0, 0),
        Opcode::encode(Opcode::HALT, 0, 0),
    ];
    let fault = CPU::new(program).run().unwrap_err();
    assert_eq!(fault.kind, FaultKind::ArithmeticFault);
    assert_eq!(fault.address, 2);
}

#[test]
fn illegal_opcode_faults() {
    let program = vec![Opcode::encode(Opcode::ILG, 0, 0)];
    let fault = CPU::new(program).run().unwrap_err();
    assert_eq!(fault.kind, FaultKind::IllegalOpcode);
}

#[test]
fn unknown_variable_faults() {
    let program = vec![Opcode::encode(Opcode::LOAD, 3, 0)];
    let fault = CPU::new(program).run().unwrap_err();
    assert_eq!(fault.kind, FaultKind::UnknownVariable);
}

#[test]
fn return_without_caller_faults() {
    let program = vec![Opcode::encode(Opcode::RETURN, 0, 0)];
    let fault = CPU::new(program).run().unwrap_err();
    assert_eq!(fault.kind, FaultKind::CallStackUnderflow);
}

#[test]
fn running_off_the_end_faults() {
    let program = vec![Opcode::encode(Opcode::PUSH, 1, 0)];
    let fault = CPU::new(program).run().unwrap_err();
    assert_eq!(fault.kind, FaultKind::OutOfProgram);
    assert_eq!(fault.address, 1);
    assert_eq!(fault.instruction, None);
}

#[test]
fn jump_outside_program_faults() {
    let program = vec![
        Opcode::encode(Opcode::JMP, 100, 0),
        Opcode::encode(Opcode::HALT, 0, 0),
    ];
    let fault = CPU::new(program).run().unwrap_err();
    assert_eq!(fault.kind, FaultKind::OutOfProgram);
    assert_eq!(fault.address, 0);
}

#[test]
fn wrapping_arithmetic() {
    // Two's-complement wrap on overflow: 32767 + 1 gives -32768, and the
    // one overflowing division i16::MIN / -1 gives i16::MIN.
    let program = vec![
        Opcode::encode(Opcode::PUSH, 32767, 0),
        Opcode::encode(Opcode::PUSH, 1, 0),
        Opcode::encode(Opcode::ADD, 0, 0),
        Opcode::encode(Opcode::HALT, 0, 0),
    ];
    assert_eq!(-32768, CPU::new(program).run().unwrap());

    let program = vec![
        Opcode::encode(Opcode::PUSH, -32768, 0),
        Opcode::encode(Opcode::PUSH, -1, 0),
        Opcode::encode(Opcode::DIV, 0, 0),
        Opcode::encode(Opcode::HALT, 0, 0),
    ];
    assert_eq!(-32768, CPU::new(program).run().unwrap());
}

#[test]
fn negative_modulo_truncates_toward_zero() {
    let program = vec![
        Opcode::encode(Opcode::PUSH, -7, 0),
        Opcode::encode(Opcode::PUSH, 3, 0),
        Opcode::encode(Opcode::MOD, 0, 0),
        Opcode::encode(Opcode::HALT, 0, 0),
    ];
    assert_eq!(-1, CPU::new(program).run().unwrap());
}

#[test]
fn stdin_without_input_faults() {
    // Under a test harness the standard input channel is closed: the read
    // yields an empty line, which does not parse as a signed integer.
    let program = vec![Opcode::encode(Opcode::STDIN, 0, 0)];
    let fault = CPU::new(program).run().unwrap_err();
    assert_eq!(fault.kind, FaultKind::InputParseFailure);
}

#[test]
fn frame_scope_store_load() {
    let mut frame = Frame::new(7);
    assert_eq!(frame.return_address, 7);
    frame.store(1, 2);
    frame.store(1, 3);
    assert_eq!(frame.load(&1), Some(&3));
    assert_eq!(frame.load(&9), None);
}

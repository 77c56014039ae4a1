use arcvm::engine::{pause_prompt, Engine, Pause, ResetKind};

fn run(bytes: &[u8]) -> (Engine, arcvm::engine::RunOutput) {
    let program: Vec<u8> = bytes.to_vec();
    let mut engine = Engine::new();
    let out = engine.run_to_pause(&program);
    (engine, out)
}

#[test]
fn empty_program_ends_immediately() {
    let (engine, out) = run(&[]);
    assert_eq!(out.pause, Pause::EndOfProgram);
    assert!(out.outputs.is_empty());
    assert!(engine.stack().is_empty());
    assert_eq!(engine.pc(), 0);
}

#[test]
fn fresh_engine_has_zeroed_variable_bank() {
    let engine = Engine::new();
    assert_eq!(engine.vars().len(), 64);
    assert!(engine.vars().iter().all(|v| *v == 0));
    assert!(engine.stack().is_empty());
    assert_eq!(engine.pc(), 0);
}

#[test]
fn add_two_and_two_leaves_single_four() {
    let (engine, out) = run(&[0x02, 0x02, 0x09]);
    assert_eq!(out.pause, Pause::EndOfProgram);
    assert_eq!(engine.stack().as_slice(), &[4u64]);
}

#[test]
fn scenario_a_prints_hello_then_halts() {
    let (engine, out) = run(&[0x01, 0x05, b'H', b'e', b'l', b'l', b'o', 0x31]);
    assert_eq!(out.outputs, vec![b"Hello".to_vec()]);
    assert_eq!(out.pause, Pause::Halted);
    assert!(engine.stack().is_empty());
}

#[test]
fn scenario_b_adds_and_stores_into_slot_zero() {
    let (engine, out) = run(&[0x02, 0x03, 0x09, 0x32]);
    assert_eq!(out.pause, Pause::EndOfProgram);
    assert!(engine.stack().is_empty());
    assert_eq!(engine.vars()[0], 5);
}

#[test]
fn scenario_c_divides_equal_values_to_one() {
    let (engine, out) = run(&[0x04, 0x04, 0x12]);
    assert_eq!(out.pause, Pause::EndOfProgram);
    assert_eq!(engine.stack().as_slice(), &[1u64]);
}

#[test]
fn scenario_d_divide_on_empty_stack_is_harmless() {
    // The divisor falls back to 1, the dividend is unavailable, nothing is
    // pushed: the stack stays empty and the run continues.
    let (engine, out) = run(&[0x12]);
    assert_eq!(out.pause, Pause::EndOfProgram);
    assert!(engine.stack().is_empty());
    assert!(engine.vars().iter().all(|v| *v == 0));
}

#[test]
fn arithmetic_underflow_is_a_noop() {
    for op in [0x09u8, 0x10, 0x11] {
        let (engine, out) = run(&[op]);
        assert_eq!(out.pause, Pause::EndOfProgram);
        assert!(engine.stack().is_empty());

        let (engine, _) = run(&[0x02, op]);
        assert_eq!(engine.stack().as_slice(), &[2u64]);
    }
}

#[test]
fn divide_with_a_lone_operand_keeps_it() {
    // The missing divisor falls back to 1, so the lone dividend goes back
    // as 2 / 1 == 2.
    let (engine, out) = run(&[0x02, 0x12]);
    assert_eq!(out.pause, Pause::EndOfProgram);
    assert_eq!(engine.stack().as_slice(), &[2u64]);
}

#[test]
fn divide_by_zero_on_stack_falls_back_to_one() {
    // push 3; push 2; push 2; sub -> 0; divide: divisor 0 becomes 1
    let (engine, out) = run(&[0x03, 0x02, 0x02, 0x10, 0x12]);
    assert_eq!(out.pause, Pause::EndOfProgram);
    assert_eq!(engine.stack().as_slice(), &[3u64]);
}

#[test]
fn subtraction_wraps_modulo_two_to_the_64() {
    let (engine, _) = run(&[0x02, 0x03, 0x10]);
    assert_eq!(engine.stack().as_slice(), &[u64::MAX]);
}

#[test]
fn multiplication_of_two_99s() {
    let (engine, _) = run(&[0x06, 0x06, 0x11]);
    assert_eq!(engine.stack().as_slice(), &[9801u64]);
}

#[test]
fn push_opcodes_push_their_exact_literals() {
    let cases: &[(u8, u64)] = &[
        (0x02, 2),
        (0x03, 3),
        (0x04, 42),
        (0x05, 0x53545249),
        (0x06, 99),
        (0x07, 0x57414954),
        (0x08, 0x53544400),
        (0x13, 0xDEADBEEF),
        (0x14, 0xCAFEBABE),
        (0x15, 0xFEEDFACE),
        (0x18, 0xB105F00D),
        (0x19, 0xB007B007),
        (0x20, 0x10AD10AD),
        (0x21, 0xC0DECAFE),
        (0x22, 0x7E57C0DE),
        (0x23, 0x0BADC0DE),
        (0x24, 0xFACEFEED),
        (0x25, 0xC001D00D),
        (0x26, 0xBEEFBEEF),
        (0x27, 0xF00DF00D),
        (0x28, 0xB16B00B5),
    ];
    for (op, value) in cases {
        let (engine, out) = run(&[*op]);
        assert_eq!(out.pause, Pause::EndOfProgram);
        assert_eq!(engine.stack().as_slice(), &[*value]);
    }
}

#[test]
fn triple_push_opcode_pushes_three_literals() {
    let (engine, _) = run(&[0x29]);
    assert_eq!(engine.stack().as_slice(), &[12u64, 34, 56]);
}

#[test]
fn clear_empties_the_stack() {
    let (engine, _) = run(&[0x02, 0x03, 0x30]);
    assert!(engine.stack().is_empty());
}

#[test]
fn store_pops_into_slot_zero_only() {
    let (engine, _) = run(&[0x02, 0x32]);
    assert_eq!(engine.vars()[0], 2);
    assert!(engine.vars()[1..].iter().all(|v| *v == 0));
    assert!(engine.stack().is_empty());
}

#[test]
fn store_on_empty_stack_stores_zero() {
    // The first store takes the 2; the second finds the stack empty.
    let (engine, _) = run(&[0x02, 0x32, 0x32]);
    assert_eq!(engine.vars()[0], 0);
}

#[test]
fn halt_stops_without_touching_state() {
    let (engine, out) = run(&[0x31, 0x02]);
    assert_eq!(out.pause, Pause::Halted);
    assert!(engine.stack().is_empty());
    assert_eq!(engine.pc(), 0);
}

#[test]
fn power_opcodes_report_their_reset_kind() {
    let (_, out) = run(&[0x16]);
    assert_eq!(out.pause, Pause::PowerReset(ResetKind::Cold));
    let (_, out) = run(&[0x17]);
    assert_eq!(out.pause, Pause::PowerReset(ResetKind::Shutdown));
}

#[test]
fn unknown_opcodes_are_skipped() {
    let (engine, out) = run(&[0x77, 0xAB, 0x00, 0x1A]);
    assert_eq!(out.pause, Pause::EndOfProgram);
    assert!(engine.stack().is_empty());
    assert!(out.outputs.is_empty());
}

#[test]
fn truncated_print_advances_exactly_one_byte() {
    // Length byte 0x03 declares more text than the program holds, so the
    // print is skipped and the length byte itself runs as an opcode next.
    let (engine, out) = run(&[0x01, 0x03, 0x00]);
    assert!(out.outputs.is_empty());
    assert_eq!(engine.stack().as_slice(), &[3u64]);
}

#[test]
fn print_with_missing_length_byte_is_skipped() {
    let (engine, out) = run(&[0x01]);
    assert!(out.outputs.is_empty());
    assert_eq!(out.pause, Pause::EndOfProgram);
    assert!(engine.stack().is_empty());
}

#[test]
fn invalid_utf8_payload_is_consumed_but_not_printed() {
    // The 0xFF payload byte is consumed as text, not run as an opcode.
    let (engine, out) = run(&[0x01, 0x01, 0xFF, 0x02]);
    assert!(out.outputs.is_empty());
    assert_eq!(out.pause, Pause::EndOfProgram);
    assert_eq!(engine.stack().as_slice(), &[2u64]);
}

#[test]
fn multibyte_utf8_payload_is_printed() {
    let (_, out) = run(&[0x01, 0x02, 0xC3, 0xA9]);
    assert_eq!(out.outputs, vec![vec![0xC3, 0xA9]]);
}

#[test]
fn interactive_halt_reports_its_target() {
    let program = vec![0xFF, 0x10, 0x00];
    let mut engine = Engine::new();
    let out = engine.run_to_pause(&program);
    assert_eq!(out.pause, Pause::AwaitKey(0x0010));
    assert_eq!(engine.pc(), 0);
}

#[test]
fn out_of_range_target_is_never_taken_even_with_escape() {
    let program = vec![0xFF, 0x10, 0x00];
    let mut engine = Engine::new();
    let out = engine.run_to_pause(&program);
    assert!(matches!(out.pause, Pause::AwaitKey(_)));
    engine.resume_with_key(&program, 0x0017);
    assert_eq!(engine.pc(), 3);
    let out = engine.run_to_pause(&program);
    assert_eq!(out.pause, Pause::EndOfProgram);
}

#[test]
fn ordinary_key_steps_past_the_interactive_halt() {
    let program = vec![0xFF, 0x00, 0x00, 0x02];
    let mut engine = Engine::new();
    let out = engine.run_to_pause(&program);
    assert!(matches!(out.pause, Pause::AwaitKey(0)));
    engine.resume_with_key(&program, 0x0000);
    assert_eq!(engine.pc(), 3);
    let out = engine.run_to_pause(&program);
    assert_eq!(out.pause, Pause::EndOfProgram);
    assert_eq!(engine.stack().as_slice(), &[2u64]);
}

#[test]
fn escape_takes_an_in_range_backward_jump() {
    let program = vec![0x02, 0xFF, 0x00, 0x00];
    let mut engine = Engine::new();
    let out = engine.run_to_pause(&program);
    assert_eq!(out.pause, Pause::AwaitKey(0));
    assert_eq!(engine.stack().as_slice(), &[2u64]);
    engine.resume_with_key(&program, 0x0017);
    assert_eq!(engine.pc(), 0);
    let out = engine.run_to_pause(&program);
    assert_eq!(out.pause, Pause::AwaitKey(0));
    assert_eq!(engine.stack().as_slice(), &[2u64, 2]);
}

#[test]
fn truncated_interactive_halt_is_skipped() {
    let (engine, out) = run(&[0xFF, 0x00]);
    assert_eq!(out.pause, Pause::EndOfProgram);
    assert!(engine.stack().is_empty());
}

#[test]
fn prompt_text_is_fixed() {
    assert_eq!(
        pause_prompt(),
        "HALT: Press any key to continue, or ESC to jump...\r\n"
    );
}

#[test]
fn zero_length_print_emits_empty_text() {
    let (_, out) = run(&[0x01, 0x00]);
    assert_eq!(out.outputs, vec![Vec::<u8>::new()]);
    assert_eq!(out.pause, Pause::EndOfProgram);
}

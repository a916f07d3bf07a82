// Tests of the virtual machine: arithmetic wraparound, the defined no-ops,
// conditional skipping, the stack discipline, the debug renderings and the
// fatal faults.

use tinyvm::assembler::read_all_tokens;
use tinyvm::assembler::Compiler;
use tinyvm::assembler::Parser;
use tinyvm::assembler::AsmError;
use tinyvm::fmt;
use tinyvm::vm::Fault;
use tinyvm::vm::StepOutcome;
use tinyvm::vm::VM;

fn load_image(image: &[u8]) -> VM {
    let mut vm = VM::new();
    for byte in image {
        vm.set(*byte);
    }
    vm.reset();
    vm
}

fn run_source(source: &[u8]) -> VM {
    let tokens = read_all_tokens(source);
    let mut parser = Parser::new(source, tokens);
    let parsed = parser.parse().expect("Unable to parse");
    let mut compiler = Compiler::new();
    let image = compiler.compile(&parsed).expect("Unable to compile");
    let mut vm = load_image(&image);
    let outcome = vm.run(1_000_000);
    assert_eq!(outcome, StepOutcome::Halted);
    vm
}

#[test]
fn adds_and_prints_decimal() {
    let vm = run_source(b"set a, 5\nset b, 3\nadd a, b\ndbg a, 0\nexit\n");
    assert_eq!(vm.output().as_slice(), b"8\n");
}

#[test]
fn load_and_print_covers_wide_immediates() {
    let vm = run_source(b"set a, 65535\ndbg a, 0\nexit\n");
    assert_eq!(vm.output().as_slice(), b"65535\n");
}

#[test]
fn register_zero_reads_as_zero_after_load() {
    let vm = run_source(b"set zero, 9\ndbg zero, 0\nexit\n");
    assert_eq!(vm.output().as_slice(), b"0\n");
    assert_eq!(vm.register(0), 0);
}

#[test]
fn register_zero_alias_z_is_the_same_slot() {
    let vm = run_source(b"set z, 9\ndbg z, 0\nexit\n");
    assert_eq!(vm.output().as_slice(), b"0\n");
}

#[test]
fn addition_wraps_around() {
    let vm = run_source(b"set a, 40000\nset b, 40000\nadd a, b\ndbg a, 0\nexit\n");
    assert_eq!(vm.output().as_slice(), b"14464\n");
}

#[test]
fn addition_wraps_to_zero_at_the_edge() {
    let vm = run_source(b"set a, 65535\nset b, 1\nadd a, b\ndbg a, 0\nexit\n");
    assert_eq!(vm.output().as_slice(), b"0\n");
}

#[test]
fn subtraction_wraps_below_zero() {
    let vm = run_source(b"set a, 3\nset b, 5\nsub a, b\ndbg a, 0\nexit\n");
    assert_eq!(vm.output().as_slice(), b"65534\n");
}

#[test]
fn multiplication_wraps() {
    let vm = run_source(b"set a, 300\nset b, 300\nmul a, b\ndbg a, 0\nexit\n");
    assert_eq!(vm.output().as_slice(), b"24464\n");
}

#[test]
fn division_truncates() {
    let vm = run_source(b"set a, 7\nset b, 2\ndiv a, b\ndbg a, 0\nexit\n");
    assert_eq!(vm.output().as_slice(), b"3\n");
}

#[test]
fn signed_division_truncates_toward_zero() {
    // -7 / 2 is -3, stored as 65533
    let vm = run_source(b"set a, 7\nneg a\nset b, 2\ndiv a, b\ndbg a, 0\nexit\n");
    assert_eq!(vm.output().as_slice(), b"65533\n");
}

#[test]
fn division_by_zero_register_is_a_noop() {
    let vm = run_source(b"set a, 7\ndiv a, b\ndbg a, 0\nexit\n");
    assert_eq!(vm.output().as_slice(), b"7\n");
}

#[test]
fn modulo_by_zero_register_is_a_noop() {
    let vm = run_source(b"set a, 7\nmod a, b\ndbg a, 0\nexit\n");
    assert_eq!(vm.output().as_slice(), b"7\n");
}

#[test]
fn modulo_keeps_dividend_sign() {
    let vm = run_source(b"set a, 7\nset b, 2\nmod a, b\ndbg a, 0\nexit\n");
    assert_eq!(vm.output().as_slice(), b"1\n");
}

#[test]
fn negation_is_twos_complement() {
    let vm = run_source(b"set a, 5\nneg a\ndbg a, 0\nexit\n");
    assert_eq!(vm.output().as_slice(), b"65531\n");
}

#[test]
fn move_copies_registers() {
    let vm = run_source(b"mov m, sp\ndbg m, 0\nexit\n");
    assert_eq!(vm.output().as_slice(), b"1022\n");
}

#[test]
fn skip_marker_skips_guarded_instruction_when_flag_false() {
    // 1 > 2 is false, so `then` skips the load; c keeps reading zero
    let vm = run_source(b"set a, 1\nset b, 2\ngt a, b\nthen\nset c, 9\ndbg c, 0\nexit\n");
    assert_eq!(vm.output().as_slice(), b"0\n");
}

#[test]
fn skip_marker_runs_guarded_instruction_when_flag_true() {
    let vm = run_source(b"set a, 1\nset b, 2\nlt a, b\nthen\nset c, 9\ndbg c, 0\nexit\n");
    assert_eq!(vm.output().as_slice(), b"9\n");
}

#[test]
fn else_marker_is_the_complement() {
    let vm = run_source(b"set a, 1\nset b, 2\ngt a, b\nelse\nset c, 7\ndbg c, 0\nexit\n");
    assert_eq!(vm.output().as_slice(), b"7\n");
    let vm2 = run_source(b"set a, 1\nset b, 2\nlt a, b\nelse\nset c, 7\ndbg c, 0\nexit\n");
    assert_eq!(vm2.output().as_slice(), b"0\n");
}

#[test]
fn comparisons_set_the_flag() {
    assert!(run_source(b"set a, 1\nset b, 2\nlt a, b\nexit\n").flag());
    assert!(!run_source(b"set a, 1\nset b, 2\ngt a, b\nexit\n").flag());
    assert!(run_source(b"set a, 2\nset b, 2\nge a, b\nexit\n").flag());
    assert!(run_source(b"set a, 2\nset b, 2\nle a, b\nexit\n").flag());
    assert!(run_source(b"set a, 2\nset b, 2\neq a, b\nexit\n").flag());
    assert!(!run_source(b"set a, 2\nset b, 2\nneq a, b\nexit\n").flag());
}

#[test]
fn comparisons_are_signed() {
    // 65535 is -1 as a signed word, so it is less than 1
    assert!(run_source(b"set a, 65535\nset b, 1\nlt a, b\nexit\n").flag());
}

#[test]
fn push_then_pop_restores_register_and_stack_pointer() {
    let vm = run_source(b"set a, 1234\npush a\nset a, 1\npop a\ndbg a, 0\nexit\n");
    assert_eq!(vm.output().as_slice(), b"1234\n");
    assert_eq!(vm.register(15), 1022);
}

#[test]
fn call_and_return_resume_after_the_call() {
    let vm = run_source(b"call subr\ndbg a, 0\nexit\nsubr:\nset a, 99\nret\n");
    assert_eq!(vm.output().as_slice(), b"99\n");
    assert_eq!(vm.register(15), 1022);
}

#[test]
fn forward_jump_lands_on_its_label() {
    // the jump skips the second load entirely, so a keeps its first value
    let vm = run_source(b"set a, 1\njmp over\nset a, 9\nover:\ndbg a, 0\nexit\n");
    assert_eq!(vm.output().as_slice(), b"1\n");
}

#[test]
fn backward_jump_lands_on_its_label() {
    // the skipped backward jump aside, the loop re-enters exactly at the
    // label: two passes print two values
    let vm = run_source(b"set a, 2\nset b, 1\ntop:\ndbg a, 0\nsub a, b\ngt a, zero\nthen\njmp top\nexit\n");
    assert_eq!(vm.output().as_slice(), b"2\n1\n");
}

#[test]
fn conditional_loop_counts_down() {
    // counts a down from 3, printing each value
    let src = b"set a, 3\nset b, 1\nagain:\ndbg a, 0\nsub a, b\ngt a, zero\nthen\njmp again\nexit\n";
    let vm = run_source(src);
    assert_eq!(vm.output().as_slice(), b"3\n2\n1\n");
}

#[test]
fn debug_modes_render_hex_and_padding() {
    assert_eq!(
        run_source(b"set a, 255\ndbg a, 1\nexit\n").output().as_slice(),
        b"ff\n"
    );
    assert_eq!(
        run_source(b"set a, 255\ndbg a, 2\nexit\n").output().as_slice(),
        b"00255\n"
    );
    assert_eq!(
        run_source(b"set a, 255\ndbg a, 3\nexit\n").output().as_slice(),
        b"00FF\n"
    );
    assert_eq!(
        run_source(b"set a, 255\ndbg a, 4\nexit\n").output().as_slice(),
        b"0x00FF\n"
    );
}

#[test]
fn debug_modes_above_ten_omit_the_line_break() {
    assert_eq!(
        run_source(b"set a, 255\ndbg a, 10\nexit\n").output().as_slice(),
        b"255"
    );
    assert_eq!(
        run_source(b"set a, 255\ndbg a, 11\nexit\n").output().as_slice(),
        b"ff"
    );
    assert_eq!(
        run_source(b"set a, 255\ndbg a, 12\nexit\n").output().as_slice(),
        b"00255"
    );
    assert_eq!(
        run_source(b"set a, 255\ndbg a, 13\nexit\n").output().as_slice(),
        b"00FF"
    );
    assert_eq!(
        run_source(b"set a, 255\ndbg a, 14\nexit\n").output().as_slice(),
        b"0x00FF"
    );
}

#[test]
fn debug_unknown_mode_dumps_machine_state() {
    let vm = run_source(b"dbg a, 7\nexit\n");
    let out = vm.output();
    assert_eq!(out[0], b'{');
    assert_eq!(out[out.len() - 1], b'}');
    let text = String::from_utf8_lossy(out);
    assert!(text.contains("pc:"));
    assert!(text.contains("registers:"));
}

#[test]
fn disassembly_lists_decoded_instructions() {
    let mut vm = VM::new();
    vm.set(1);
    let listing = vm.disassembly();
    assert!(listing.starts_with(b"0000  Exit\n0001  Nop\n"));
}

#[test]
fn invalid_opcode_faults() {
    let mut vm = load_image(&[200]);
    assert_eq!(vm.run(10), StepOutcome::Faulted(Fault::InvalidOpcode));
}

#[test]
fn register_out_of_bounds_faults() {
    // a narrow load whose destination byte exceeds the sixteen registers
    let mut vm = load_image(&[6, 200, 5]);
    assert_eq!(vm.run(10), StepOutcome::Faulted(Fault::OutOfBoundsRegister));
}

#[test]
fn running_off_the_end_of_memory_faults() {
    // a forward jump into the zeroed arena: the machine executes no-ops
    // until the counter leaves the 1024-byte memory
    let mut vm = load_image(&[2, 255]);
    assert_eq!(vm.run(5000), StepOutcome::Faulted(Fault::OutOfBoundsMemory));
}

#[test]
fn spent_budget_reports_continue() {
    let src = b"spin:\njmp spin\nexit\n";
    let tokens = read_all_tokens(src);
    let mut parser = Parser::new(src, tokens);
    let parsed = parser.parse().expect("Unable to parse");
    let mut compiler = Compiler::new();
    let image = compiler.compile(&parsed).expect("Unable to compile");
    let mut vm = load_image(&image);
    assert_eq!(vm.run(100), StepOutcome::Continue);
    assert_eq!(vm.run(100), StepOutcome::Continue);
}

#[test]
fn formatting_renders_exact_digits() {
    let mut v: Vec<u8> = Vec::new();
    fmt::push_dec(&mut v, 0);
    assert_eq!(v, b"0".to_vec());
    let mut v2: Vec<u8> = Vec::new();
    fmt::push_dec(&mut v2, 65535);
    assert_eq!(v2, b"65535".to_vec());
    let mut v3: Vec<u8> = Vec::new();
    fmt::push_hex4(&mut v3, 43981);
    assert_eq!(v3, b"ABCD".to_vec());
    let mut v4: Vec<u8> = Vec::new();
    fmt::push_hex_lower(&mut v4, 48879);
    assert_eq!(v4, b"beef".to_vec());
    let mut v5: Vec<u8> = Vec::new();
    fmt::push_dec5(&mut v5, 42);
    assert_eq!(v5, b"00042".to_vec());
    let mut v6: Vec<u8> = Vec::new();
    fmt::push_dec_pad4(&mut v6, 42);
    assert_eq!(v6, b"  42".to_vec());
    let mut v7: Vec<u8> = Vec::new();
    fmt::push_hex2(&mut v7, 7);
    assert_eq!(v7, b"07".to_vec());
}

#[test]
fn oversized_wide_immediate_truncates_to_sixteen_bits() {
    let vm = run_source(b"set a, 70000\ndbg a, 0\nexit\n");
    assert_eq!(vm.output().as_slice(), b"4464\n");
}

#[test]
fn hex_literals_load_their_value() {
    let vm = run_source(b"set a, 0x10\ndbg a, 0\nexit\n");
    assert_eq!(vm.output().as_slice(), b"16\n");
}

#[test]
fn assemble_and_load_run_in_one_call_each() {
    let image = tinyvm::assembler::assemble(b"set a, 5\nset b, 3\nadd a, b\ndbg a, 0\nexit\n")
        .expect("Unable to assemble");
    let mut vm = VM::new();
    vm.load(&image);
    vm.reset();
    assert_eq!(vm.run(1000), StepOutcome::Halted);
    assert_eq!(vm.output().as_slice(), b"8\n");
}

#[test]
fn assemble_reports_parse_and_resolution_errors() {
    assert!(matches!(
        tinyvm::assembler::assemble(b"qwe\n"),
        Err(AsmError::Parse(_))
    ));
    assert!(matches!(
        tinyvm::assembler::assemble(b"jmp nowhere\n"),
        Err(AsmError::Compile(_))
    ));
}

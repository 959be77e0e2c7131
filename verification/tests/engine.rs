//! End-to-end tests of the tokenizer, the executor and the converter.

use bf::machine::{BFInterpreter, Phase};
use bf::ops::Dialect;
use bf::tokenizer::tokenize;
use bf::translate::translate;

/// Ample step budget for programs that terminate quickly.
const FUEL: u64 = 1_000_000;

fn machine_for(source: &[u8], dialect: Dialect) -> BFInterpreter {
    let program = tokenize(source, dialect).expect("program should tokenize");
    BFInterpreter::new(program)
}

#[test]
fn increment_twice_and_print() {
    let mut m = machine_for(b"++.", Dialect::Symbol);
    assert!(m.run(FUEL));
    assert_eq!(m.phase(), Phase::Halted);
    assert_eq!(m.output(), &vec![2u8]);
}

#[test]
fn input_is_echoed() {
    let mut m = machine_for(b",.", Dialect::Symbol);
    assert!(m.run(FUEL));
    assert_eq!(m.phase(), Phase::AwaitingInput);
    assert!(m.provide_input(b'A', FUEL));
    assert_eq!(m.phase(), Phase::Halted);
    assert_eq!(m.output(), &vec![b'A']);
}

#[test]
fn loop_transfers_cell_value() {
    let mut m = machine_for(b"+++[>+<-]", Dialect::Symbol);
    assert!(m.run(FUEL));
    assert_eq!(m.phase(), Phase::Halted);
    assert_eq!(m.cell(0), 0);
    assert_eq!(m.cell(1), 3);
}

#[test]
fn loop_stack_is_empty_after_normal_exit() {
    // Were a stale entry left per iteration, the depth after this loop
    // would be positive.
    let mut m = machine_for(b"+++[>+<-]", Dialect::Symbol);
    assert!(m.run(FUEL));
    assert_eq!(m.loop_depth(), 0);
}

#[test]
fn unmatched_loop_end_is_a_structural_error() {
    let err = tokenize(b"]", Dialect::Symbol).expect_err("an unmatched bracket must not tokenize");
    assert_eq!(err.position, 0);
}

#[test]
fn unmatched_loop_start_is_a_structural_error() {
    let err = tokenize(b"+[", Dialect::Symbol).expect_err("an unclosed loop must not tokenize");
    assert_eq!(err.position, 1);
}

#[test]
fn innermost_unclosed_loop_start_is_reported() {
    let err = tokenize(b"[[]", Dialect::Symbol).expect_err("an unclosed loop must not tokenize");
    assert_eq!(err.position, 0);
}

#[test]
fn keyword_unmatched_brackets_are_structural_errors() {
    assert_eq!(tokenize(b"23", Dialect::Keyword).unwrap_err().position, 0);
    assert_eq!(tokenize(b"eris", Dialect::Keyword).unwrap_err().position, 0);
}

#[test]
fn keyword_program_shifts_increments_prints() {
    let mut m = machine_for(b"kallisti5pineal", Dialect::Keyword);
    assert!(m.run(FUEL));
    assert_eq!(m.phase(), Phase::Halted);
    assert_eq!(m.output(), &vec![1u8]);
    assert_eq!(m.pointer(), 1);
    assert_eq!(m.cell(1), 1);
}

#[test]
fn increment_decrement_are_inverse() {
    let mut m = machine_for(b"+-", Dialect::Symbol);
    assert!(m.run(FUEL));
    assert_eq!(m.cell(0), 0);

    let mut m = machine_for(b"-+", Dialect::Symbol);
    assert!(m.run(FUEL));
    assert_eq!(m.cell(0), 0);
}

#[test]
fn cell_arithmetic_wraps_modulo_256() {
    let mut m = machine_for(b"-", Dialect::Symbol);
    assert!(m.run(FUEL));
    assert_eq!(m.cell(0), 255);

    let source = "+".repeat(256);
    let mut m = machine_for(source.as_bytes(), Dialect::Symbol);
    assert!(m.run(FUEL));
    assert_eq!(m.cell(0), 0);
}

#[test]
fn pointer_wraps_at_both_tape_ends() {
    let mut m = machine_for(b"<", Dialect::Symbol);
    assert!(m.run(FUEL));
    assert_eq!(m.pointer(), 29999);

    let source = ">".repeat(30000);
    let mut m = machine_for(source.as_bytes(), Dialect::Symbol);
    assert!(m.run(FUEL));
    assert_eq!(m.pointer(), 0);
}

#[test]
fn translate_rewrites_every_symbol() {
    let out = translate(b"><+-.,[]");
    assert_eq!(out, b"kallistifnord5hailpinealchaos23eris".to_vec());
}

#[test]
fn translate_skips_unmapped_characters() {
    let out = translate(b"a + b\n");
    assert_eq!(out, b"5".to_vec());
}

#[test]
fn dialects_run_identically() {
    let source: &[u8] = b"+++[>+<-].";
    let translated = translate(source);

    let mut symbol = machine_for(source, Dialect::Symbol);
    let mut keyword = machine_for(&translated, Dialect::Keyword);
    assert!(symbol.run(FUEL));
    assert!(keyword.run(FUEL));

    assert_eq!(symbol.phase(), keyword.phase());
    assert_eq!(symbol.output(), keyword.output());
    assert_eq!(symbol.pointer(), keyword.pointer());
    for i in 0..8 {
        assert_eq!(symbol.cell(i), keyword.cell(i));
    }
}

#[test]
fn unrecognized_symbol_characters_are_skipped() {
    let mut m = machine_for(b"a + b\n.", Dialect::Symbol);
    assert!(m.run(FUEL));
    assert_eq!(m.output(), &vec![1u8]);
}

#[test]
fn keyword_embedded_in_longer_word_still_matches() {
    let mut m = machine_for(b"xfnordy", Dialect::Keyword);
    assert_eq!(m.pointer(), 0);
    assert!(m.run(FUEL));
    assert_eq!(m.pointer(), 29999);
}

#[test]
fn truncated_keyword_is_skipped() {
    let mut m = machine_for(b"fnor", Dialect::Keyword);
    assert!(m.run(FUEL));
    assert_eq!(m.phase(), Phase::Halted);
    assert_eq!(m.pointer(), 0);
}

#[test]
fn empty_program_halts_immediately() {
    let mut m = machine_for(b"", Dialect::Symbol);
    assert_eq!(m.phase(), Phase::Halted);
    assert!(m.run(FUEL));
    assert_eq!(m.output(), &Vec::new());
}

#[test]
fn input_at_program_end_halts_without_suspending() {
    let mut m = machine_for(b",", Dialect::Symbol);
    assert!(m.run(FUEL));
    assert_eq!(m.phase(), Phase::Halted);
}

#[test]
fn run_stops_when_the_budget_is_consumed() {
    let mut m = machine_for(b"+[]", Dialect::Symbol);
    assert!(!m.run(1000));
    assert_eq!(m.phase(), Phase::Running);
    assert!(!m.run(1000));
    assert_eq!(m.phase(), Phase::Running);
}

#[test]
fn reset_clears_state_and_optionally_the_tape() {
    let mut m = machine_for(b"++.", Dialect::Symbol);
    assert!(m.run(FUEL));
    assert_eq!(m.output(), &vec![2u8]);

    m.reset(false);
    assert_eq!(m.phase(), Phase::Running);
    assert_eq!(m.output(), &Vec::new());
    assert_eq!(m.cell(0), 2);
    assert!(m.run(FUEL));
    assert_eq!(m.output(), &vec![4u8]);

    m.reset(true);
    assert_eq!(m.cell(0), 0);
    assert_eq!(m.pointer(), 0);
    assert!(m.run(FUEL));
    assert_eq!(m.output(), &vec![2u8]);
}

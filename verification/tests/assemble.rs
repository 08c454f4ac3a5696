use assembler::bingen::{encode_inst, generate};
use assembler::comp;
use assembler::compile;
use assembler::postproc::{Instruction, Program};
use assembler::span::Span;

fn at(start: usize, end: usize) -> Result<Vec<u16>, Span> {
    Err(Span { start, end })
}

#[test]
fn immediate_add_then_breakpoint() {
    assert_eq!(comp("addi r1 5\nbp\n"), Ok(vec![0xA15, 0x400]));
}

#[test]
fn backward_jump_is_twos_complement() {
    assert_eq!(comp("loop: addi r0 1\njmpr loop\n"), Ok(vec![0xA01, 0x70D]));
}

#[test]
fn empty_source_gives_no_words() {
    assert_eq!(comp(""), Ok(vec![]));
    assert_eq!(comp("\n\n  \t\n"), Ok(vec![]));
}

#[test]
fn last_statement_needs_no_line_feed() {
    assert_eq!(comp("bp"), Ok(vec![0x400]));
    assert_eq!(comp("add r1 r2"), Ok(vec![0x812]));
}

#[test]
fn every_mnemonic_has_its_opcode() {
    let src = "x: ldw r1 r2\nstw r1 r2\nldwr r1 3\nstwr r1 3\nbp\njmpa r7\nbnsr r1 x\njmpr 9\n\
               add r1 r2\nnor r1 r2\naddi r1 3\nnori r1 3\naddr r1 r2\nnorr r1 r2\naddir r1 3\nnorira r1 3\n";
    assert_eq!(
        comp(src),
        Ok(vec![
            0x012, 0x112, 0x213, 0x313, 0x400, 0x507, 0x618, 0x700, 0x812, 0x912, 0xA13, 0xB13, 0xC12,
            0xD12, 0xE13, 0xF13
        ])
    );
}

#[test]
fn mnemonics_and_registers_ignore_case() {
    assert_eq!(comp("ADD R1 r2\nNoRiRa r3 4\n"), Ok(vec![0x812, 0xF34]));
}

#[test]
fn registers_wrap_to_four_bits() {
    assert_eq!(comp("add r17 r34\n"), Ok(vec![0x812]));
    assert_eq!(comp("ldw r255 r256\n"), Ok(vec![0x0F0]));
    assert_eq!(comp("norr r4095 r65536\n"), Ok(vec![0xDF0]));
}

#[test]
fn integers_wrap_to_four_bits() {
    assert_eq!(comp("addi r1 999\n"), Ok(vec![0xA17]));
    assert_eq!(comp("addi r1 -1\n"), Ok(vec![0xA1F]));
    assert_eq!(comp("addi r1 -256\n"), Ok(vec![0xA10]));
    assert_eq!(comp("addi r1 0x1F\n"), Ok(vec![0xA1F]));
    assert_eq!(comp("addi r1 0xab\n"), Ok(vec![0xA1B]));
}

#[test]
fn label_before_and_after_its_use_gives_one_address() {
    let words = comp("ldwr r1 here\nbp\nhere: bp\nldwr r1 here\n").unwrap();
    assert_eq!(words, vec![0x212, 0x400, 0x400, 0x212]);
    assert_eq!(words[0], words[3]);
}

#[test]
fn label_at_the_end_names_the_next_address() {
    assert_eq!(comp("jmpr end\nend:\n"), Ok(vec![0x70F]));
}

#[test]
fn label_and_statement_share_a_line() {
    assert_eq!(comp("a: b: bp\njmpa r1\nldwr r0 b\n"), Ok(vec![0x400, 0x501, 0x200]));
}

#[test]
fn displacement_bounds() {
    assert_eq!(comp("jmpr 9\n"), Ok(vec![0x707]));
    assert_eq!(comp("jmpr 10\n"), at(5, 7));
    assert_eq!(comp("jmpr -6\n"), Ok(vec![0x708]));
    assert_eq!(comp("jmpr -7\n"), at(5, 7));
    assert_eq!(comp("bp\nbnsr r3 10\n"), Ok(vec![0x400, 0x637]));
    assert_eq!(comp("bp\nbnsr r3 11\n"), at(11, 13));
    assert_eq!(comp("bp\nbnsr r3 -5\n"), Ok(vec![0x400, 0x638]));
    assert_eq!(comp("bp\nbnsr r3 -6\n"), at(11, 13));
}

#[test]
fn displacement_does_not_wrap() {
    assert_eq!(comp("jmpr 258\n"), at(5, 8));
    assert_eq!(comp("jmpr 0x102\n"), at(5, 10));
}

#[test]
fn displacement_to_a_far_label_fails() {
    let mut src = String::from("jmpr far\n");
    for _ in 0..10 {
        src.push_str("bp\n");
    }
    src.push_str("far: bp\n");
    assert_eq!(comp(&src), at(5, 8));
}

#[test]
fn second_definition_of_a_label_fails() {
    assert_eq!(comp("a: bp\na: bp\n"), at(6, 8));
    assert_eq!(comp("a: bp\nb: bp\nA: bp\nb:\n"), at(18, 20));
}

#[test]
fn unknown_mnemonic_fails_at_the_statement() {
    assert_eq!(comp("foo r1\n"), at(0, 6));
    assert_eq!(comp("bp\nmov r1 r2\n"), at(3, 12));
}

#[test]
fn wrong_operand_count_fails_at_the_statement() {
    assert_eq!(comp("add r1\n"), at(0, 6));
    assert_eq!(comp("add r1 r2 r3\n"), at(0, 12));
    assert_eq!(comp("jmpa\n"), at(0, 4));
    assert_eq!(comp("bp r1\n"), at(0, 5));
}

#[test]
fn wrong_operand_kind_fails_at_the_operand() {
    assert_eq!(comp("add r1 5\n"), at(7, 8));
    assert_eq!(comp("add 5 r1\n"), at(4, 5));
    assert_eq!(comp("addi r1 r2\n"), at(8, 10));
    assert_eq!(comp("jmpr r2\n"), at(5, 7));
    assert_eq!(comp("add x r1\n"), at(4, 5));
}

#[test]
fn first_operand_is_checked_first() {
    assert_eq!(comp("bnsr 1 99\n"), at(5, 6));
}

#[test]
fn unknown_label_fails_at_the_operand() {
    assert_eq!(comp("addi r1 nowhere\n"), at(8, 15));
    assert_eq!(comp("jmpr nowhere\n"), at(5, 12));
}

#[test]
fn only_the_first_error_is_reported() {
    assert_eq!(comp("foo\nbar\n"), at(0, 3));
    assert_eq!(comp("bp\nadd r1\nfoo\n"), at(3, 9));
}

#[test]
fn stray_tokens_fail_where_they_stand() {
    assert_eq!(comp("5\n"), at(0, 1));
    assert_eq!(comp("bp\nr12 bp\n"), at(3, 6));
    assert_eq!(comp("add r1 x: \n"), at(7, 9));
}

#[test]
fn bytes_that_start_no_token_fail() {
    assert_eq!(comp("addi r1 $\n"), at(8, 9));
    assert_eq!(comp("addi r1 - 1\n"), at(8, 9));
    assert_eq!(comp("bp\n/ bp\n"), at(3, 4));
    assert_eq!(comp("addi r1 \u{e9}\n"), at(8, 10));
}

#[test]
fn numbers_too_large_for_the_machine_fail() {
    assert_eq!(comp("addi r1 99999999999999999999999999999999999999999\n"), at(8, 49));
    assert_eq!(comp("add r99999999999999999999999999999999999999999 r1\n"), at(4, 46));
    assert_eq!(comp("addi r1 0xfffffffffffffffffffffffffffffffff\n"), at(8, 43));
}

#[test]
fn comments_are_skipped() {
    assert_eq!(comp("// first\naddi r1 5\n// last\n"), Ok(vec![0xA15]));
    assert_eq!(comp("    // indented\n\tbp\n"), Ok(vec![0x400]));
}

#[test]
fn line_feed_behind_a_comment_ends_the_statement() {
    assert_eq!(comp("addi r1 5 // c\nbp\n"), Ok(vec![0xA15, 0x400]));
    assert_eq!(comp("bp // c\nbp\n"), Ok(vec![0x400, 0x400]));
    assert_eq!(comp("add r1 // to be\nr2\n"), at(16, 18));
    assert_eq!(comp("add r1 // to be\n"), at(0, 6));
    assert_eq!(comp("a: // here\nbp // stop\njmpr a // back\n"), Ok(vec![0x400, 0x70D]));
}

#[test]
fn comment_may_end_the_text() {
    assert_eq!(comp("bp\n// end"), Ok(vec![0x400]));
    assert_eq!(comp("bp // end"), Ok(vec![0x400]));
    assert_eq!(comp("//"), Ok(vec![]));
}

#[test]
fn one_slash_is_no_comment() {
    assert_eq!(comp("bp / c\n"), at(3, 4));
}

#[test]
fn compile_takes_bytes() {
    assert_eq!(compile(b"addi r1 5\nbp\n"), Ok(vec![0xA15, 0x400]));
    assert_eq!(compile(&[0xff]), at(0, 1));
}

#[test]
fn fields_are_masked_when_encoded() {
    assert_eq!(encode_inst(&Instruction::Add(0x1F, 0x2E)), 0x8FE);
    assert_eq!(encode_inst(&Instruction::Jmpa(0x13)), 0x503);
    assert_eq!(encode_inst(&Instruction::Jmpr(0xFD)), 0x70D);
    assert_eq!(encode_inst(&Instruction::Breakpt), 0x400);
}

#[test]
fn words_come_in_instruction_order() {
    let p = Program {
        insts: vec![Instruction::Norira(1, 2), Instruction::Ldw(3, 4), Instruction::Bnsr(5, 6)],
    };
    assert_eq!(generate(p), vec![0xF12, 0x034, 0x656]);
    assert_eq!(generate(Program { insts: vec![] }), Vec::<u16>::new());
}

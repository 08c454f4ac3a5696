use assembler::image::image;
use assembler::lexer::{find_run_end, find_skip_end, next_token, read_digits, Class, Lexeme, Token};
use assembler::parser::{
    copy_range, find_label, parse, parse_inst, parse_ldef, same_bytes, RawInstruction, RawOperands, RawProgram,
};
use assembler::postproc::{
    find_signature, lowercase, make_instruction, post_proc, resolve, resolve_field, value_of, Instruction, Kind,
};
use assembler::span::Span;

fn sp(start: usize, end: usize) -> Span {
    Span { start, end }
}

fn token_at(src: &str, pos: usize) -> (Result<Token, ()>, Span) {
    let l = next_token(src.as_bytes(), pos).unwrap();
    (l.token, l.span)
}

#[test]
fn scanner_tells_the_five_tokens_apart() {
    let src = "r12 -34 0x1f name: word\n";
    assert_eq!(token_at(src, 0), (Ok(Token::Register(12)), sp(0, 3)));
    assert_eq!(token_at(src, 3), (Ok(Token::Integer(-34)), sp(4, 7)));
    assert_eq!(token_at(src, 7), (Ok(Token::Integer(31)), sp(8, 12)));
    assert_eq!(token_at(src, 12), (Ok(Token::LabelDef), sp(13, 18)));
    assert_eq!(token_at(src, 18), (Ok(Token::Ident), sp(19, 23)));
    assert_eq!(token_at(src, 23), (Ok(Token::Newline), sp(23, 24)));
    assert!(next_token(src.as_bytes(), 24).is_none());
}

#[test]
fn scanner_takes_the_longest_match() {
    assert_eq!(token_at("r12x", 0), (Ok(Token::Ident), sp(0, 4)));
    assert_eq!(token_at("r12:", 0), (Ok(Token::LabelDef), sp(0, 4)));
    assert_eq!(token_at("r", 0), (Ok(Token::Ident), sp(0, 1)));
    assert_eq!(token_at("R007", 0), (Ok(Token::Register(7)), sp(0, 4)));
    assert_eq!(token_at("0x", 0), (Ok(Token::Integer(0)), sp(0, 1)));
    assert_eq!(token_at("0x", 1), (Ok(Token::Ident), sp(1, 2)));
    assert_eq!(token_at("0X1f", 0), (Ok(Token::Integer(0)), sp(0, 1)));
    assert_eq!(token_at("12ab", 0), (Ok(Token::Integer(12)), sp(0, 2)));
    assert_eq!(token_at("0xABg", 0), (Ok(Token::Integer(171)), sp(0, 4)));
    assert_eq!(token_at("_a1 :", 0), (Ok(Token::Ident), sp(0, 3)));
}

#[test]
fn scanner_reads_the_extreme_integers() {
    let max = isize::MAX.to_string();
    let min = isize::MIN.to_string();
    assert_eq!(token_at(&max, 0), (Ok(Token::Integer(isize::MAX)), sp(0, max.len())));
    assert_eq!(token_at(&min, 0), (Ok(Token::Integer(isize::MIN)), sp(0, min.len())));
    let over = format!("{}", isize::MAX as u128 + 1);
    assert_eq!(token_at(&over, 0), (Err(()), sp(0, over.len())));
    let under = format!("-{}", isize::MAX as u128 + 2);
    assert_eq!(token_at(&under, 0), (Err(()), sp(0, under.len())));
    let reg = format!("r{}", usize::MAX);
    assert_eq!(token_at(&reg, 0), (Ok(Token::Register(usize::MAX)), sp(0, reg.len())));
    let reg_over = format!("r{}", usize::MAX as u128 + 1);
    assert_eq!(token_at(&reg_over, 0), (Err(()), sp(0, reg_over.len())));
}

#[test]
fn scanner_skips_blanks_and_comments() {
    assert_eq!(find_skip_end(b"  \t\r x", 0), 5);
    assert_eq!(find_skip_end(b"  \n x", 0), 2);
    assert_eq!(find_skip_end(b"// c\n  // d\nx", 0), 4);
    assert_eq!(find_skip_end(b"// c\n  // d\nx", 5), 11);
    assert_eq!(find_skip_end(b"// c", 0), 4);
    assert_eq!(find_skip_end(b"  // c // d", 0), 11);
    assert_eq!(find_skip_end(b"/ c", 0), 0);
    assert_eq!(find_skip_end(b"   ", 1), 3);
}

#[test]
fn runs_end_at_the_first_byte_outside_the_class() {
    assert_eq!(find_run_end(b"123abc", 0, Class::Digit), 3);
    assert_eq!(find_run_end(b"123abcg", 0, Class::Hex), 6);
    assert_eq!(find_run_end(b"ab_9-", 0, Class::Word), 4);
    assert_eq!(find_run_end(b"ab\ncd", 0, Class::Line), 2);
    assert_eq!(find_run_end(b"abc", 3, Class::Word), 3);
    assert_eq!(find_run_end("\u{20ac}x".as_bytes(), 1, Class::Continuation), 3);
}

#[test]
fn digits_are_read_in_both_bases() {
    assert_eq!(read_digits(b"x1234", 1, 5, false), Some(1234));
    assert_eq!(read_digits(b"1234", 0, 4, true), Some(0x1234));
    assert_eq!(read_digits(b"fF", 0, 2, true), Some(255));
    assert_eq!(read_digits(b"12", 1, 1, false), Some(0));
    assert_eq!(read_digits(b"99999999999999999999999999", 0, 26, false), None);
}

fn name(r: &RawOperands) -> Option<&[u8]> {
    match r {
        RawOperands::Name(n) => Some(n.as_slice()),
        _ => None,
    }
}

#[test]
fn parser_keeps_statements_and_labels() {
    let p = parse(b"loop: addi r0 1\nJmpr loop\n").unwrap();
    assert_eq!(p.labels, vec![(b"loop".to_vec(), 0usize)]);
    assert_eq!(p.insts.len(), 2);
    assert_eq!(p.insts[0].inst, b"addi".to_vec());
    assert_eq!(p.insts[0].span, sp(6, 15));
    assert_eq!(p.insts[0].oprs.len(), 2);
    assert!(matches!(p.insts[0].oprs[0], (RawOperands::Register(0), Span { start: 11, end: 13 })));
    assert!(matches!(p.insts[0].oprs[1], (RawOperands::Integer(1), Span { start: 14, end: 15 })));
    assert_eq!(p.insts[1].inst, b"Jmpr".to_vec());
    assert_eq!(p.insts[1].span, sp(16, 25));
    assert_eq!(name(&p.insts[1].oprs[0].0), Some(&b"loop"[..]));
    assert_eq!(p.insts[1].oprs[0].1, sp(21, 25));
}

#[test]
fn parser_binds_a_label_to_the_next_instruction() {
    let p = parse(b"a:\nbp\nb: c:\nbp\nbp\nd:").unwrap();
    assert_eq!(
        p.labels,
        vec![(b"a".to_vec(), 0usize), (b"b".to_vec(), 1), (b"c".to_vec(), 1), (b"d".to_vec(), 3)]
    );
    assert_eq!(p.insts.len(), 3);
}

#[test]
fn parser_refuses_what_is_out_of_place() {
    assert_eq!(parse(b"bp\n7 bp\n").unwrap_err(), sp(3, 4));
    assert_eq!(parse(b"bp a:\n").unwrap_err(), sp(3, 5));
    assert_eq!(parse(b"a: a:\n").unwrap_err(), sp(3, 5));
    assert_eq!(parse(b"bp ?\n").unwrap_err(), sp(3, 4));
}

#[test]
fn statement_span_ends_with_its_last_token() {
    let p = parse(b"  bp   \n add r1   r2  // c\n").unwrap();
    assert_eq!(p.insts.len(), 2);
    assert_eq!(p.insts[0].span, sp(2, 4));
    assert_eq!(p.insts[1].span, sp(9, 20));
}

#[test]
fn comment_is_dropped_and_the_line_still_ends() {
    let p = parse(b"addi r1 5 // c\nbp\n").unwrap();
    assert_eq!(p.insts.len(), 2);
    assert_eq!(p.insts[0].inst, b"addi".to_vec());
    assert_eq!(p.insts[0].oprs.len(), 2);
    assert_eq!(p.insts[0].span, sp(0, 9));
    assert_eq!(p.insts[1].inst, b"bp".to_vec());
    assert_eq!(p.insts[1].oprs.len(), 0);
    let l = next_token(b"x // c\ny", 1).unwrap();
    assert_eq!((l.token, l.span), (Ok(Token::Newline), sp(6, 7)));
}

#[test]
fn byte_helpers() {
    assert_eq!(copy_range(b"hello", 1, 3), b"el".to_vec());
    assert_eq!(copy_range(b"hello", 2, 2), Vec::<u8>::new());
    assert!(same_bytes(b"abc", b"abc"));
    assert!(!same_bytes(b"abc", b"abd"));
    assert!(!same_bytes(b"abc", b"ab"));
    assert_eq!(lowercase(&b"AdD_iZ9".to_vec()), b"add_iz9".to_vec());
}

#[test]
fn first_label_of_a_name_is_found() {
    let labels = vec![(b"a".to_vec(), 4usize), (b"b".to_vec(), 5), (b"a".to_vec(), 6)];
    assert_eq!(find_label(&labels, &b"a".to_vec()), Some(4));
    assert_eq!(find_label(&labels, &b"b".to_vec()), Some(5));
    assert_eq!(find_label(&labels, &b"c".to_vec()), None);
}

#[test]
fn signature_table() {
    let s = find_signature(&b"jmpa".to_vec()).unwrap();
    assert_eq!((s.opcode, s.first, s.second), (5, None, Some(Kind::Register)));
    let s = find_signature(&b"BNSR".to_vec()).unwrap();
    assert_eq!((s.opcode, s.first, s.second), (6, Some(Kind::Register), Some(Kind::Offset)));
    let s = find_signature(&b"bp".to_vec()).unwrap();
    assert_eq!((s.opcode, s.first, s.second), (4, None, None));
    let s = find_signature(&b"addir".to_vec()).unwrap();
    assert_eq!((s.opcode, s.first, s.second), (14, Some(Kind::Register), Some(Kind::Integer)));
    assert!(find_signature(&b"addx".to_vec()).is_none());
    assert!(find_signature(&b"".to_vec()).is_none());
}

#[test]
fn instructions_are_built_by_opcode() {
    assert_eq!(make_instruction(0, 1, 2), Instruction::Ldw(1, 2));
    assert_eq!(make_instruction(4, 1, 2), Instruction::Breakpt);
    assert_eq!(make_instruction(5, 1, 2), Instruction::Jmpa(2));
    assert_eq!(make_instruction(7, 1, 2), Instruction::Jmpr(2));
    assert_eq!(make_instruction(15, 1, 2), Instruction::Norira(1, 2));
}

#[test]
fn operands_resolve_by_kind() {
    let labels = vec![(b"far".to_vec(), 300usize), (b"near".to_vec(), 3)];
    assert_eq!(value_of(&RawOperands::Integer(-4), &labels), Some(-4));
    assert_eq!(value_of(&RawOperands::Name(b"far".to_vec()), &labels), Some(300));
    assert_eq!(value_of(&RawOperands::Name(b"x".to_vec()), &labels), None);
    assert_eq!(value_of(&RawOperands::Register(1), &labels), None);
    assert_eq!(resolve_field(Kind::Register, &RawOperands::Register(0x123), 0, &labels), Some(0x23));
    assert_eq!(resolve_field(Kind::Register, &RawOperands::Integer(1), 0, &labels), None);
    assert_eq!(resolve_field(Kind::Integer, &RawOperands::Integer(-3), 0, &labels), Some(0xFD));
    assert_eq!(resolve_field(Kind::Integer, &RawOperands::Integer(isize::MIN), 0, &labels), Some(0));
    assert_eq!(resolve_field(Kind::Integer, &RawOperands::Name(b"far".to_vec()), 0, &labels), Some(44));
    assert_eq!(resolve_field(Kind::Offset, &RawOperands::Name(b"near".to_vec()), 4, &labels), Some(0xD));
    assert_eq!(resolve_field(Kind::Offset, &RawOperands::Name(b"far".to_vec()), 296, &labels), Some(2));
    assert_eq!(resolve_field(Kind::Offset, &RawOperands::Name(b"far".to_vec()), 40, &labels), None);
    assert_eq!(resolve_field(Kind::Offset, &RawOperands::Integer(isize::MAX), usize::MAX, &labels), None);
}

fn raw(inst: &str, oprs: Vec<(RawOperands, Span)>, span: Span) -> RawInstruction {
    RawInstruction { inst: inst.as_bytes().to_vec(), oprs, span }
}

#[test]
fn resolver_works_on_a_listing_built_by_hand() {
    let p = RawProgram {
        insts: vec![
            raw("bnsr", vec![(RawOperands::Register(18), sp(5, 8)), (RawOperands::Name(b"l".to_vec()), sp(9, 10))], sp(0, 10)),
            raw("JMPA", vec![(RawOperands::Register(3), sp(16, 18))], sp(11, 18)),
        ],
        labels: vec![(b"l".to_vec(), 1)],
    };
    assert_eq!(post_proc(p).unwrap().insts, vec![Instruction::Bnsr(18, 0xF), Instruction::Jmpa(3)]);
}

#[test]
fn resolver_stops_at_the_first_bad_statement() {
    let p = RawProgram {
        insts: vec![
            raw("bp", vec![], sp(0, 2)),
            raw("add", vec![(RawOperands::Register(1), sp(7, 9))], sp(3, 9)),
            raw("what", vec![], sp(10, 14)),
        ],
        labels: vec![],
    };
    assert_eq!(post_proc(p).unwrap_err(), sp(3, 9));
    let one = raw("jmpr", vec![(RawOperands::Integer(0), sp(5, 6))], sp(0, 6));
    assert_eq!(resolve(&one, 6, &vec![]), Ok(Instruction::Jmpr(8)));
    assert_eq!(resolve(&one, 7, &vec![]), Err(sp(5, 6)));
}

#[test]
fn image_is_padded_to_512_bytes() {
    let b = image(&vec![0xA15, 0x400, 0x70D]).unwrap();
    assert_eq!(b.len(), 512);
    assert_eq!(&b[..8], &[0x0A, 0x15, 0x04, 0x00, 0x07, 0x0D, 0x04, 0x00]);
    for k in 3..256 {
        assert_eq!((b[2 * k], b[2 * k + 1]), (0x04, 0x00));
    }
}

#[test]
fn image_of_nothing_is_all_padding() {
    let b = image(&vec![]).unwrap();
    assert_eq!(b.len(), 512);
    for k in 0..256 {
        assert_eq!((b[2 * k], b[2 * k + 1]), (0x04, 0x00));
    }
}

#[test]
fn image_holds_at_most_256_words() {
    let full: Vec<u16> = (0..256).map(|k| 0xF00 + k as u16).collect();
    let b = image(&full).unwrap();
    assert_eq!(b.len(), 512);
    assert_eq!((b[510], b[511]), (0x0F, 0xFF));
    let mut over = full.clone();
    over.push(0x400);
    assert!(image(&over).is_none());
}

#[test]
fn oversize_is_told_after_a_good_compile() {
    let mut src = String::new();
    for _ in 0..257 {
        src.push_str("bp\n");
    }
    let words = assembler::comp(&src).unwrap();
    assert_eq!(words.len(), 257);
    assert!(image(&words).is_none());
}

#[test]
fn label_definition_binds_the_name_without_its_colon() {
    let src = b"bp\nName: bp\n";
    let def = Lexeme { token: Ok(Token::LabelDef), span: sp(3, 8) };
    let known = vec![(b"name".to_vec(), 0usize), (b"other".to_vec(), 1)];
    assert_eq!(parse_ldef(src, def, 7, &known), Ok((b"Name".to_vec(), 7)));
    assert_eq!(parse_ldef(src, def, 0, &vec![]), Ok((b"Name".to_vec(), 0)));
}

#[test]
fn label_definition_of_a_known_name_gives_its_span() {
    let src = b"bp\nName: bp\n";
    let def = Lexeme { token: Ok(Token::LabelDef), span: sp(3, 8) };
    let known = vec![(b"other".to_vec(), 1usize), (b"Name".to_vec(), 0)];
    assert_eq!(parse_ldef(src, def, 7, &known), Err(sp(3, 8)));
}

#[test]
fn second_definition_fails_however_far_from_the_first() {
    let mut src = String::from("top: bp\n");
    for _ in 0..40 {
        src.push_str("add r1 r2\n");
    }
    let at = src.len();
    src.push_str("top: bp\n");
    assert_eq!(parse(src.as_bytes()).unwrap_err(), sp(at, at + 4));
}

#[test]
fn instruction_statement_is_read_up_to_its_line_feed() {
    let src = b"x: addi r1 -5 there // c\nbp\n";
    let word = next_token(src, 2).unwrap();
    let (inst, next) = parse_inst(src, word).unwrap();
    assert_eq!(inst.inst, b"addi".to_vec());
    assert_eq!(inst.span, sp(3, 19));
    assert_eq!(inst.oprs.len(), 3);
    assert!(matches!(inst.oprs[0], (RawOperands::Register(1), Span { start: 8, end: 10 })));
    assert!(matches!(inst.oprs[1], (RawOperands::Integer(-5), Span { start: 11, end: 13 })));
    assert_eq!(name(&inst.oprs[2].0), Some(&b"there"[..]));
    assert_eq!(next, 25);
    let word = next_token(src, next).unwrap();
    let (inst, next) = parse_inst(src, word).unwrap();
    assert_eq!((inst.inst, inst.oprs.len(), inst.span, next), (b"bp".to_vec(), 0, sp(25, 27), 28));
}

#[test]
fn instruction_statement_refuses_a_label_definition() {
    let src = b"add r1 x: r2\n";
    let word = next_token(src, 0).unwrap();
    assert_eq!(parse_inst(src, word).unwrap_err(), sp(7, 9));
}

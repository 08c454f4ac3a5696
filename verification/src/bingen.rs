use vstd::prelude::*;
use crate::parser::{Operand, Statement};
use crate::span::Span;
use crate::postproc::{instruction_of, resolve_inst, signature_of, Instruction, Kind, Program};

verus! {

/// The four-bit opcode of an instruction.
pub open spec fn opcode(i: Instruction) -> u16 {
    match i {
        Instruction::Ldw(_, _) => 0x0,
        Instruction::Stw(_, _) => 0x1,
        Instruction::Ldwr(_, _) => 0x2,
        Instruction::Stwr(_, _) => 0x3,
        Instruction::Breakpt => 0x4,
        Instruction::Jmpa(_) => 0x5,
        Instruction::Bnsr(_, _) => 0x6,
        Instruction::Jmpr(_) => 0x7,
        Instruction::Add(_, _) => 0x8,
        Instruction::Nor(_, _) => 0x9,
        Instruction::Addi(_, _) => 0xA,
        Instruction::Nori(_, _) => 0xB,
        Instruction::Addr(_, _) => 0xC,
        Instruction::Norr(_, _) => 0xD,
        Instruction::Addir(_, _) => 0xE,
        Instruction::Norira(_, _) => 0xF,
    }
}

/// The value that goes to bits 4..8 of the word, before masking.
pub open spec fn field_a(i: Instruction) -> u8 {
    match i {
        Instruction::Ldw(a, _) => a,
        Instruction::Stw(a, _) => a,
        Instruction::Ldwr(a, _) => a,
        Instruction::Stwr(a, _) => a,
        Instruction::Breakpt => 0,
        Instruction::Jmpa(_) => 0,
        Instruction::Bnsr(a, _) => a,
        Instruction::Jmpr(_) => 0,
        Instruction::Add(a, _) => a,
        Instruction::Nor(a, _) => a,
        Instruction::Addi(a, _) => a,
        Instruction::Nori(a, _) => a,
        Instruction::Addr(a, _) => a,
        Instruction::Norr(a, _) => a,
        Instruction::Addir(a, _) => a,
        Instruction::Norira(a, _) => a,
    }
}

/// The value that goes to bits 0..4 of the word, before masking.
pub open spec fn field_b(i: Instruction) -> u8 {
    match i {
        Instruction::Ldw(_, b) => b,
        Instruction::Stw(_, b) => b,
        Instruction::Ldwr(_, b) => b,
        Instruction::Stwr(_, b) => b,
        Instruction::Breakpt => 0,
        Instruction::Jmpa(b) => b,
        Instruction::Bnsr(_, b) => b,
        Instruction::Jmpr(b) => b,
        Instruction::Add(_, b) => b,
        Instruction::Nor(_, b) => b,
        Instruction::Addi(_, b) => b,
        Instruction::Nori(_, b) => b,
        Instruction::Addr(_, b) => b,
        Instruction::Norr(_, b) => b,
        Instruction::Addir(_, b) => b,
        Instruction::Norira(_, b) => b,
    }
}

/// Packs an opcode and two fields, each masked to four bits, into a word.
pub open spec fn pack(op: u16, a: u8, b: u8) -> u16 {
    ((op & 15) << 8) | (((a & 15) as u16) << 4) | ((b & 15) as u16)
}

/// The machine word of one instruction.
pub open spec fn encode(i: Instruction) -> u16 {
    pack(opcode(i), field_a(i), field_b(i))
}

/// The machine words of a sequence of instructions, in order.
pub open spec fn encode_all(insts: Seq<Instruction>) -> Seq<u16> {
    Seq::new(insts.len(), |k: int| encode(insts[k]))
}

/// Encodes one instruction.
pub fn encode_inst(i: &Instruction) -> (w: u16)
    ensures
        w == encode(*i),
{
    let (op, a, b): (u16, u8, u8) = match *i {
        Instruction::Ldw(a, b) => (0x0, a, b),
        Instruction::Stw(a, b) => (0x1, a, b),
        Instruction::Ldwr(a, b) => (0x2, a, b),
        Instruction::Stwr(a, b) => (0x3, a, b),
        Instruction::Breakpt => (0x4, 0, 0),
        Instruction::Jmpa(b) => (0x5, 0, b),
        Instruction::Bnsr(a, b) => (0x6, a, b),
        Instruction::Jmpr(b) => (0x7, 0, b),
        Instruction::Add(a, b) => (0x8, a, b),
        Instruction::Nor(a, b) => (0x9, a, b),
        Instruction::Addi(a, b) => (0xA, a, b),
        Instruction::Nori(a, b) => (0xB, a, b),
        Instruction::Addr(a, b) => (0xC, a, b),
        Instruction::Norr(a, b) => (0xD, a, b),
        Instruction::Addir(a, b) => (0xE, a, b),
        Instruction::Norira(a, b) => (0xF, a, b),
    };
    ((op & 15) << 8) | (((a & 15) as u16) << 4) | ((b & 15) as u16)
}

/// Encodes a program: one word per instruction, in instruction order.
pub fn generate(p: Program) -> (r: Vec<u16>)
    ensures
        r@ == encode_all(p.insts@),
{
    let mut r: Vec<u16> = Vec::new();
    let n: usize = p.insts.len();
    let mut k: usize = 0;
    while k < n
        invariant
            n == p.insts@.len(),
            k <= n,
            r@ == encode_all(p.insts@.subrange(0, k as int)),
        decreases n - k,
    {
        let w: u16 = encode_inst(&p.insts[k]);
        r.push(w);
        k = k + 1;
        assert(r@ =~= encode_all(p.insts@.subrange(0, k as int)));
    }
    assert(p.insts@.subrange(0, n as int) =~= p.insts@);
    r
}

/// The word reads, in arithmetic, as the opcode times 256, plus the low four
/// bits of the first field times 16, plus the low four bits of the second:
/// a field above 15 wraps and is never refused.
pub proof fn lemma_pack_arith(op: u16, a: u8, b: u8)
    requires
        op < 16,
    ensures
        pack(op, a, b) == op * 256 + (a % 16) * 16 + (b % 16),
        pack(op, a, b) < 0x1000,
{
    assert(op < 16 ==> (((op & 15) << 8) | (((a & 15) as u16) << 4) | ((b & 15) as u16)) == op * 256
        + (a % 16) as u16 * 16 + (b % 16) as u16) by (bit_vector);
}

/// Every word has twelve bits: the opcode in bits 8 to 11, the low four bits
/// of the first field in bits 4 to 7, those of the second in bits 0 to 3.
pub proof fn lemma_encode_fields(i: Instruction)
    ensures
        encode(i) < 0x1000,
        encode(i) / 256 == opcode(i),
        (encode(i) / 16) % 16 == field_a(i) % 16,
        encode(i) % 16 == field_b(i) % 16,
{
    lemma_pack_arith(opcode(i), field_a(i), field_b(i));
}

/// A statement of a mnemonic that takes two registers (`ldw`, `stw`, `add`,
/// `nor`, `addr`, `norr`) with two register operands always resolves, and its
/// word is the opcode times 256, plus the first register's low four bits
/// times 16, plus the second's: a register index above 15 wraps.
pub proof fn lemma_register_pair_word(
    st: Statement,
    pc: int,
    labels: Seq<(Seq<u8>, usize)>,
    x: usize,
    y: usize,
)
    requires
        signature_of(st.inst) is Some,
        signature_of(st.inst)->0.first == Some(Kind::Register),
        signature_of(st.inst)->0.second == Some(Kind::Register),
        st.oprs.len() == 2,
        st.oprs[0].0 == Operand::Register(x),
        st.oprs[1].0 == Operand::Register(y),
    ensures
        resolve_inst(st, pc, labels) is Ok,
        encode(resolve_inst(st, pc, labels)->Ok_0) == signature_of(st.inst)->0.opcode * 256 + (x % 16) * 16 + (y
            % 16),
{
    let op = signature_of(st.inst)->0.opcode;
    let a = (x % 256) as u8;
    let b = (y % 256) as u8;
    assert(op == 0 || op == 1 || op == 8 || op == 9 || op == 12 || op == 13);
    assert(resolve_inst(st, pc, labels) == Ok::<Instruction, Span>(instruction_of(op, a, b)));
    assert(encode(instruction_of(op, a, b)) == pack(op as u16, a, b));
    lemma_pack_arith(op as u16, a, b);
    assert(a % 16 == x % 16 && b % 16 == y % 16) by {
        lemma_low_bits(x);
        lemma_low_bits(y);
    }
}

/// Cutting to eight bits first does not change the low four bits.
proof fn lemma_low_bits(x: usize)
    ensures
        ((x % 256) as u8) % 16 == x % 16,
{
}

/// The same word in shifts and masks: the opcode shifted left by 8, or the
/// first register masked with 15 and shifted left by 4, or the second
/// register masked with 15.
pub proof fn lemma_register_pair_bits(
    st: Statement,
    pc: int,
    labels: Seq<(Seq<u8>, usize)>,
    x: usize,
    y: usize,
)
    requires
        signature_of(st.inst) is Some,
        signature_of(st.inst)->0.first == Some(Kind::Register),
        signature_of(st.inst)->0.second == Some(Kind::Register),
        st.oprs.len() == 2,
        st.oprs[0].0 == Operand::Register(x),
        st.oprs[1].0 == Operand::Register(y),
    ensures
        resolve_inst(st, pc, labels) is Ok,
        encode(resolve_inst(st, pc, labels)->Ok_0) as u64 == ((signature_of(st.inst)->0.opcode as u64) << 8) | (((x as u64)
            & 15) << 4) | ((y as u64) & 15),
{
    lemma_register_pair_word(st, pc, labels, x, y);
    let o: u64 = signature_of(st.inst)->0.opcode as u64;
    let p: u64 = x as u64;
    let q: u64 = y as u64;
    let w: u64 = encode(resolve_inst(st, pc, labels)->Ok_0) as u64;
    assert(o == 0 || o == 1 || o == 8 || o == 9 || o == 12 || o == 13);
    let m: u64 = p % 16;
    let n: u64 = q % 16;
    assert(w == o * 256 + m * 16 + n);
    assert(o < 16 && m == p % 16 && n == q % 16 && w == o * 256 + m * 16 + n ==> w == (o << 8) | ((p & 15) << 4) | (q
        & 15)) by (bit_vector);
}

} // verus!

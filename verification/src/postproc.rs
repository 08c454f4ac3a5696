use vstd::prelude::*;
use vstd::string::*;
use crate::span::Span;
use crate::parser::{
    distinct_names, find_label, labels_view, lemma_lookup_finds, lookup, same_bytes, Label, Listing, Operand, RawInstruction, RawOperands, RawProgram,
    Statement,
};

verus! {

/// A register field (only its low four bits reach the machine word).
pub type Register = u8;

/// An immediate field (only its low four bits reach the machine word).
pub type Integer = u8;

/// A fully typed instruction.
#[derive(Clone, Copy, Debug, PartialEq, Eq, Structural)]
pub enum Instruction {
    Ldw(Register, Register),
    Stw(Register, Register),
    Ldwr(Register, Integer),
    Stwr(Register, Integer),
    Breakpt,
    Jmpa(Register),
    Bnsr(Register, Integer),
    Jmpr(Integer),
    Add(Register, Register),
    Nor(Register, Register),
    Addi(Register, Integer),
    Nori(Register, Integer),
    Addr(Register, Register),
    Norr(Register, Register),
    Addir(Register, Integer),
    Norira(Register, Integer),
}

/// A resolved program: the index of an instruction is its address.
#[derive(Debug)]
pub struct Program {
    pub insts: Vec<Instruction>,
}

/// What an operand position asks for.
#[derive(Clone, Copy, Debug, PartialEq, Eq, Structural)]
pub enum Kind {
    /// A register.
    Register,
    /// An integer, or a label, which stands for its address.
    Integer,
    /// An integer or a label, taken as a branch target and turned into a
    /// displacement from the address two behind the branch.
    Offset,
}

/// What a mnemonic declares: its opcode, and the kind of operand that fills
/// each field of the word. The operands are written in the order of the
/// fields that are there.
#[derive(Clone, Copy, Debug)]
pub struct Signature {
    pub opcode: u8,
    pub first: Option<Kind>,
    pub second: Option<Kind>,
}

impl Signature {
    /// How many operands the mnemonic takes.
    pub open spec fn arity(self) -> nat {
        (if self.first is Some { 1nat } else { 0nat }) + (if self.second is Some { 1nat } else { 0nat })
    }
}

/// A capital letter made small; any other byte as it is.
pub open spec fn lower(b: u8) -> u8 {
    if 65 <= b <= 90 {
        (b + 32) as u8
    } else {
        b
    }
}

/// A byte string with its capital letters made small.
pub open spec fn lower_all(s: Seq<u8>) -> Seq<u8> {
    Seq::new(s.len(), |i: int| lower(s[i]))
}

/// The signature of a mnemonic, whatever the case of its letters.
pub open spec fn signature_of(name: Seq<u8>) -> Option<Signature> {
    let n = lower_all(name);
    if n == "ldw".spec_bytes() {
        Some(Signature { opcode: 0, first: Some(Kind::Register), second: Some(Kind::Register) })
    } else if n == "stw".spec_bytes() {
        Some(Signature { opcode: 1, first: Some(Kind::Register), second: Some(Kind::Register) })
    } else if n == "ldwr".spec_bytes() {
        Some(Signature { opcode: 2, first: Some(Kind::Register), second: Some(Kind::Integer) })
    } else if n == "stwr".spec_bytes() {
        Some(Signature { opcode: 3, first: Some(Kind::Register), second: Some(Kind::Integer) })
    } else if n == "bp".spec_bytes() {
        Some(Signature { opcode: 4, first: None, second: None })
    } else if n == "jmpa".spec_bytes() {
        Some(Signature { opcode: 5, first: None, second: Some(Kind::Register) })
    } else if n == "bnsr".spec_bytes() {
        Some(Signature { opcode: 6, first: Some(Kind::Register), second: Some(Kind::Offset) })
    } else if n == "jmpr".spec_bytes() {
        Some(Signature { opcode: 7, first: None, second: Some(Kind::Offset) })
    } else if n == "add".spec_bytes() {
        Some(Signature { opcode: 8, first: Some(Kind::Register), second: Some(Kind::Register) })
    } else if n == "nor".spec_bytes() {
        Some(Signature { opcode: 9, first: Some(Kind::Register), second: Some(Kind::Register) })
    } else if n == "addi".spec_bytes() {
        Some(Signature { opcode: 10, first: Some(Kind::Register), second: Some(Kind::Integer) })
    } else if n == "nori".spec_bytes() {
        Some(Signature { opcode: 11, first: Some(Kind::Register), second: Some(Kind::Integer) })
    } else if n == "addr".spec_bytes() {
        Some(Signature { opcode: 12, first: Some(Kind::Register), second: Some(Kind::Register) })
    } else if n == "norr".spec_bytes() {
        Some(Signature { opcode: 13, first: Some(Kind::Register), second: Some(Kind::Register) })
    } else if n == "addir".spec_bytes() {
        Some(Signature { opcode: 14, first: Some(Kind::Register), second: Some(Kind::Integer) })
    } else if n == "norira".spec_bytes() {
        Some(Signature { opcode: 15, first: Some(Kind::Register), second: Some(Kind::Integer) })
    } else {
        None
    }
}

/// The instruction with the given opcode and fields.
pub open spec fn instruction_of(opcode: u8, a: u8, b: u8) -> Instruction {
    match opcode {
        0 => Instruction::Ldw(a, b),
        1 => Instruction::Stw(a, b),
        2 => Instruction::Ldwr(a, b),
        3 => Instruction::Stwr(a, b),
        4 => Instruction::Breakpt,
        5 => Instruction::Jmpa(b),
        6 => Instruction::Bnsr(a, b),
        7 => Instruction::Jmpr(b),
        8 => Instruction::Add(a, b),
        9 => Instruction::Nor(a, b),
        10 => Instruction::Addi(a, b),
        11 => Instruction::Nori(a, b),
        12 => Instruction::Addr(a, b),
        13 => Instruction::Norr(a, b),
        14 => Instruction::Addir(a, b),
        _ => Instruction::Norira(a, b),
    }
}

/// The number that an integer operand stands for: itself, or the address of
/// the label that it names. `None` for a register and for an unknown name.
pub open spec fn operand_value(opr: Operand, labels: Seq<(Seq<u8>, usize)>) -> Option<int> {
    match opr {
        Operand::Integer(i) => Some(i as int),
        Operand::Name(n) => match lookup(labels, n) {
            Some(a) => Some(a as int),
            None => None,
        },
        Operand::Register(_) => None,
    }
}

/// The displacement of a branch at `pc` to `target`.
pub open spec fn displacement(target: int, pc: int) -> int {
    target - pc - 2
}

/// The field that an operand gives in a position of kind `kind`, or `None`
/// where it is refused. A register or an integer is cut to eight bits here
/// (and to four in the word); a displacement must lie in -8..=7 and is held
/// as its four-bit two's complement pattern.
pub open spec fn field_of(kind: Kind, opr: Operand, pc: int, labels: Seq<(Seq<u8>, usize)>) -> Option<u8> {
    match kind {
        Kind::Register => match opr {
            Operand::Register(r) => Some((r % 256) as u8),
            _ => None,
        },
        Kind::Integer => match operand_value(opr, labels) {
            Some(v) => Some((v % 256) as u8),
            None => None,
        },
        Kind::Offset => match operand_value(opr, labels) {
            Some(v) => if -8 <= displacement(v, pc) <= 7 {
                Some((displacement(v, pc) % 16) as u8)
            } else {
                None
            },
            None => None,
        },
    }
}

/// The typed instruction that the statement at address `pc` resolves to. An
/// unknown mnemonic and a wrong number of operands are refused with the
/// statement's span, an operand of the wrong kind, an unknown label and a
/// displacement out of range with the operand's span; the first operand is
/// looked at first.
pub open spec fn resolve_inst(st: Statement, pc: int, labels: Seq<(Seq<u8>, usize)>) -> Result<Instruction, Span> {
    match signature_of(st.inst) {
        None => Err(st.span),
        Some(sig) => if st.oprs.len() != sig.arity() {
            Err(st.span)
        } else {
            let at: int = if sig.first is Some { 1 } else { 0 };
            let a: Option<u8> = match sig.first {
                Some(k) => field_of(k, st.oprs[0].0, pc, labels),
                None => Some(0u8),
            };
            let b: Option<u8> = match sig.second {
                Some(k) => field_of(k, st.oprs[at].0, pc, labels),
                None => Some(0u8),
            };
            if a is None {
                Err(st.oprs[0].1)
            } else if b is None {
                Err(st.oprs[at].1)
            } else {
                Ok(instruction_of(sig.opcode, a->0, b->0))
            }
        },
    }
}

/// The typed instructions of the first `n` statements of a listing, each
/// resolved at its own index, or the error of the first statement that fails.
pub open spec fn resolve_prefix(l: Listing, n: nat) -> Result<Seq<Instruction>, Span>
    decreases n,
{
    if n == 0 {
        Ok(Seq::empty())
    } else {
        match resolve_prefix(l, (n - 1) as nat) {
            Err(e) => Err(e),
            Ok(v) => match resolve_inst(l.insts[n - 1], n - 1, l.labels) {
                Ok(i) => Ok(v.push(i)),
                Err(e) => Err(e),
            },
        }
    }
}

/// What resolving a whole listing gives.
pub open spec fn resolve_spec(l: Listing) -> Result<Seq<Instruction>, Span> {
    resolve_prefix(l, l.insts.len())
}

/// The bytes of the sixteen mnemonics.
pub proof fn lemma_mnemonic_bytes()
    ensures
        "ldw".spec_bytes() == seq![108u8, 100u8, 119u8],
        "stw".spec_bytes() == seq![115u8, 116u8, 119u8],
        "ldwr".spec_bytes() == seq![108u8, 100u8, 119u8, 114u8],
        "stwr".spec_bytes() == seq![115u8, 116u8, 119u8, 114u8],
        "bp".spec_bytes() == seq![98u8, 112u8],
        "jmpa".spec_bytes() == seq![106u8, 109u8, 112u8, 97u8],
        "bnsr".spec_bytes() == seq![98u8, 110u8, 115u8, 114u8],
        "jmpr".spec_bytes() == seq![106u8, 109u8, 112u8, 114u8],
        "add".spec_bytes() == seq![97u8, 100u8, 100u8],
        "nor".spec_bytes() == seq![110u8, 111u8, 114u8],
        "addi".spec_bytes() == seq![97u8, 100u8, 100u8, 105u8],
        "nori".spec_bytes() == seq![110u8, 111u8, 114u8, 105u8],
        "addr".spec_bytes() == seq![97u8, 100u8, 100u8, 114u8],
        "norr".spec_bytes() == seq![110u8, 111u8, 114u8, 114u8],
        "addir".spec_bytes() == seq![97u8, 100u8, 100u8, 105u8, 114u8],
        "norira".spec_bytes() == seq![110u8, 111u8, 114u8, 105u8, 114u8, 97u8],
{
    broadcast use is_ascii_spec_bytes;
    reveal_strlit("ldw");
    reveal_strlit("stw");
    reveal_strlit("ldwr");
    reveal_strlit("stwr");
    reveal_strlit("bp");
    reveal_strlit("jmpa");
    reveal_strlit("bnsr");
    reveal_strlit("jmpr");
    reveal_strlit("add");
    reveal_strlit("nor");
    reveal_strlit("addi");
    reveal_strlit("nori");
    reveal_strlit("addr");
    reveal_strlit("norr");
    reveal_strlit("addir");
    reveal_strlit("norira");

    assert(is_ascii("ldw"));
    assert("ldw".spec_bytes() =~= seq![108u8, 100u8, 119u8]);
    assert(is_ascii("stw"));
    assert("stw".spec_bytes() =~= seq![115u8, 116u8, 119u8]);
    assert(is_ascii("ldwr"));
    assert("ldwr".spec_bytes() =~= seq![108u8, 100u8, 119u8, 114u8]);
    assert(is_ascii("stwr"));
    assert("stwr".spec_bytes() =~= seq![115u8, 116u8, 119u8, 114u8]);
    assert(is_ascii("bp"));
    assert("bp".spec_bytes() =~= seq![98u8, 112u8]);
    assert(is_ascii("jmpa"));
    assert("jmpa".spec_bytes() =~= seq![106u8, 109u8, 112u8, 97u8]);
    assert(is_ascii("bnsr"));
    assert("bnsr".spec_bytes() =~= seq![98u8, 110u8, 115u8, 114u8]);
    assert(is_ascii("jmpr"));
    assert("jmpr".spec_bytes() =~= seq![106u8, 109u8, 112u8, 114u8]);
    assert(is_ascii("add"));
    assert("add".spec_bytes() =~= seq![97u8, 100u8, 100u8]);
    assert(is_ascii("nor"));
    assert("nor".spec_bytes() =~= seq![110u8, 111u8, 114u8]);
    assert(is_ascii("addi"));
    assert("addi".spec_bytes() =~= seq![97u8, 100u8, 100u8, 105u8]);
    assert(is_ascii("nori"));
    assert("nori".spec_bytes() =~= seq![110u8, 111u8, 114u8, 105u8]);
    assert(is_ascii("addr"));
    assert("addr".spec_bytes() =~= seq![97u8, 100u8, 100u8, 114u8]);
    assert(is_ascii("norr"));
    assert("norr".spec_bytes() =~= seq![110u8, 111u8, 114u8, 114u8]);
    assert(is_ascii("addir"));
    assert("addir".spec_bytes() =~= seq![97u8, 100u8, 100u8, 105u8, 114u8]);
    assert(is_ascii("norira"));
    assert("norira".spec_bytes() =~= seq![110u8, 111u8, 114u8, 105u8, 114u8, 97u8]);
}

/// Makes the capital letters of a byte string small.
pub fn lowercase(name: &Vec<u8>) -> (r: Vec<u8>)
    ensures
        r@ == lower_all(name@),
{
    let mut r: Vec<u8> = Vec::new();
    let mut i: usize = 0;
    while i < name.len()
        invariant
            i <= name@.len(),
            r@ == lower_all(name@.subrange(0, i as int)),
        decreases name@.len() - i,
    {
        let b: u8 = name[i];
        let c: u8 = if 65 <= b && b <= 90 { b + 32 } else { b };
        r.push(c);
        i = i + 1;
        assert(r@ =~= lower_all(name@.subrange(0, i as int)));
    }
    assert(name@.subrange(0, i as int) =~= name@);
    r
}

/// Looks a mnemonic up in the instruction set.
pub fn find_signature(name: &Vec<u8>) -> (r: Option<Signature>)
    ensures
        r == signature_of(name@),
{
    let n: Vec<u8> = lowercase(name);
    if same_bytes(n.as_slice(), "ldw".as_bytes()) {
        Some(Signature { opcode: 0, first: Some(Kind::Register), second: Some(Kind::Register) })
    } else if same_bytes(n.as_slice(), "stw".as_bytes()) {
        Some(Signature { opcode: 1, first: Some(Kind::Register), second: Some(Kind::Register) })
    } else if same_bytes(n.as_slice(), "ldwr".as_bytes()) {
        Some(Signature { opcode: 2, first: Some(Kind::Register), second: Some(Kind::Integer) })
    } else if same_bytes(n.as_slice(), "stwr".as_bytes()) {
        Some(Signature { opcode: 3, first: Some(Kind::Register), second: Some(Kind::Integer) })
    } else if same_bytes(n.as_slice(), "bp".as_bytes()) {
        Some(Signature { opcode: 4, first: None, second: None })
    } else if same_bytes(n.as_slice(), "jmpa".as_bytes()) {
        Some(Signature { opcode: 5, first: None, second: Some(Kind::Register) })
    } else if same_bytes(n.as_slice(), "bnsr".as_bytes()) {
        Some(Signature { opcode: 6, first: Some(Kind::Register), second: Some(Kind::Offset) })
    } else if same_bytes(n.as_slice(), "jmpr".as_bytes()) {
        Some(Signature { opcode: 7, first: None, second: Some(Kind::Offset) })
    } else if same_bytes(n.as_slice(), "add".as_bytes()) {
        Some(Signature { opcode: 8, first: Some(Kind::Register), second: Some(Kind::Register) })
    } else if same_bytes(n.as_slice(), "nor".as_bytes()) {
        Some(Signature { opcode: 9, first: Some(Kind::Register), second: Some(Kind::Register) })
    } else if same_bytes(n.as_slice(), "addi".as_bytes()) {
        Some(Signature { opcode: 10, first: Some(Kind::Register), second: Some(Kind::Integer) })
    } else if same_bytes(n.as_slice(), "nori".as_bytes()) {
        Some(Signature { opcode: 11, first: Some(Kind::Register), second: Some(Kind::Integer) })
    } else if same_bytes(n.as_slice(), "addr".as_bytes()) {
        Some(Signature { opcode: 12, first: Some(Kind::Register), second: Some(Kind::Register) })
    } else if same_bytes(n.as_slice(), "norr".as_bytes()) {
        Some(Signature { opcode: 13, first: Some(Kind::Register), second: Some(Kind::Register) })
    } else if same_bytes(n.as_slice(), "addir".as_bytes()) {
        Some(Signature { opcode: 14, first: Some(Kind::Register), second: Some(Kind::Integer) })
    } else if same_bytes(n.as_slice(), "norira".as_bytes()) {
        Some(Signature { opcode: 15, first: Some(Kind::Register), second: Some(Kind::Integer) })
    } else {
        None
    }
}

/// Builds the instruction with the given opcode and fields.
pub fn make_instruction(opcode: u8, a: u8, b: u8) -> (i: Instruction)
    ensures
        i == instruction_of(opcode, a, b),
{
    match opcode {
        0 => Instruction::Ldw(a, b),
        1 => Instruction::Stw(a, b),
        2 => Instruction::Ldwr(a, b),
        3 => Instruction::Stwr(a, b),
        4 => Instruction::Breakpt,
        5 => Instruction::Jmpa(b),
        6 => Instruction::Bnsr(a, b),
        7 => Instruction::Jmpr(b),
        8 => Instruction::Add(a, b),
        9 => Instruction::Nor(a, b),
        10 => Instruction::Addi(a, b),
        11 => Instruction::Nori(a, b),
        12 => Instruction::Addr(a, b),
        13 => Instruction::Norr(a, b),
        14 => Instruction::Addir(a, b),
        _ => Instruction::Norira(a, b),
    }
}

/// The number that an integer operand stands for.
pub fn value_of(opr: &RawOperands, labels: &Vec<Label>) -> (r: Option<i128>)
    ensures
        match r {
            Some(v) => operand_value(opr@, labels_view(labels@)) == Some(v as int),
            None => operand_value(opr@, labels_view(labels@)) is None,
        },
{
    match opr {
        RawOperands::Integer(i) => Some(*i as i128),
        RawOperands::Name(n) => match find_label(labels, n) {
            Some(a) => Some(a as i128),
            None => None,
        },
        RawOperands::Register(_) => None,
    }
}

/// Resolves one operand for a position of kind `kind`.
pub fn resolve_field(kind: Kind, opr: &RawOperands, pc: usize, labels: &Vec<Label>) -> (r: Option<u8>)
    ensures
        r == field_of(kind, opr@, pc as int, labels_view(labels@)),
{
    match kind {
        Kind::Register => match opr {
            RawOperands::Register(r) => Some((*r % 256) as u8),
            _ => None,
        },
        Kind::Integer => match value_of(opr, labels) {
            Some(v) => {
                let m: i128 = if v >= 0 { v % 256 } else { 255 - (-(v + 1)) % 256 };
                Some(m as u8)
            },
            None => None,
        },
        Kind::Offset => match value_of(opr, labels) {
            Some(v) => {
                let d: i128 = v - (pc as i128) - 2;
                if d < -8 || d > 7 {
                    None
                } else if d >= 0 {
                    Some(d as u8)
                } else {
                    Some((d + 16) as u8)
                }
            },
            None => None,
        },
    }
}

/// Resolves the statement at address `pc`.
pub fn resolve(inst: &RawInstruction, pc: usize, labels: &Vec<Label>) -> (r: Result<Instruction, Span>)
    ensures
        r == resolve_inst(inst@, pc as int, labels_view(labels@)),
{
    let sig: Signature = match find_signature(&inst.inst) {
        Some(s) => s,
        None => {
            return Err(inst.span);
        },
    };
    let at: usize = if sig.first.is_some() { 1 } else { 0 };
    let want: usize = if sig.second.is_some() { at + 1 } else { at };
    if inst.oprs.len() != want {
        return Err(inst.span);
    }
    let a: u8 = match sig.first {
        Some(k) => match resolve_field(k, &inst.oprs[0].0, pc, labels) {
            Some(v) => v,
            None => {
                return Err(inst.oprs[0].1);
            },
        },
        None => 0,
    };
    let b: u8 = match sig.second {
        Some(k) => match resolve_field(k, &inst.oprs[at].0, pc, labels) {
            Some(v) => v,
            None => {
                return Err(inst.oprs[at].1);
            },
        },
        None => 0,
    };
    Ok(make_instruction(sig.opcode, a, b))
}

/// Resolves a parsed program: every statement, in order, at its own index,
/// up to the first one that fails.
pub fn post_proc(p: RawProgram) -> (r: Result<Program, Span>)
    ensures
        match r {
            Ok(q) => resolve_spec(p@) == Ok::<Seq<Instruction>, Span>(q.insts@),
            Err(e) => resolve_spec(p@) == Err::<Seq<Instruction>, Span>(e),
        },
{
    let mut insts: Vec<Instruction> = Vec::new();
    let n: usize = p.insts.len();
    let mut pc: usize = 0;
    while pc < n
        invariant
            n == p.insts@.len(),
            pc <= n,
            resolve_prefix(p@, pc as nat) == Ok::<Seq<Instruction>, Span>(insts@),
        decreases n - pc,
    {
        match resolve(&p.insts[pc], pc, &p.labels) {
            Ok(i) => {
                insts.push(i);
            },
            Err(e) => {
                proof {
                    lemma_resolve_prefix_err(p@, (pc + 1) as nat, n as nat);
                }
                return Err(e);
            },
        }
        pc = pc + 1;
    }
    Ok(Program { insts })
}

/// Once a prefix fails, every longer prefix fails with the same span.
pub proof fn lemma_resolve_prefix_err(l: Listing, k: nat, n: nat)
    requires
        k <= n,
        resolve_prefix(l, k) is Err,
    ensures
        resolve_prefix(l, n) == resolve_prefix(l, k),
    decreases n - k,
{
    if k < n {
        lemma_resolve_prefix_err(l, k, (n - 1) as nat);
    }
}

/// The instruction set: each mnemonic, in whatever case it is written, has
/// its opcode and its operand kinds.
pub proof fn lemma_signature_table(name: Seq<u8>)
    ensures
        lower_all(name) == "ldw".spec_bytes() ==> signature_of(name) == Some(
            Signature { opcode: 0, first: Some(Kind::Register), second: Some(Kind::Register) },
        ),
        lower_all(name) == "stw".spec_bytes() ==> signature_of(name) == Some(
            Signature { opcode: 1, first: Some(Kind::Register), second: Some(Kind::Register) },
        ),
        lower_all(name) == "ldwr".spec_bytes() ==> signature_of(name) == Some(
            Signature { opcode: 2, first: Some(Kind::Register), second: Some(Kind::Integer) },
        ),
        lower_all(name) == "stwr".spec_bytes() ==> signature_of(name) == Some(
            Signature { opcode: 3, first: Some(Kind::Register), second: Some(Kind::Integer) },
        ),
        lower_all(name) == "bp".spec_bytes() ==> signature_of(name) == Some(
            Signature { opcode: 4, first: None, second: None },
        ),
        lower_all(name) == "jmpa".spec_bytes() ==> signature_of(name) == Some(
            Signature { opcode: 5, first: None, second: Some(Kind::Register) },
        ),
        lower_all(name) == "bnsr".spec_bytes() ==> signature_of(name) == Some(
            Signature { opcode: 6, first: Some(Kind::Register), second: Some(Kind::Offset) },
        ),
        lower_all(name) == "jmpr".spec_bytes() ==> signature_of(name) == Some(
            Signature { opcode: 7, first: None, second: Some(Kind::Offset) },
        ),
        lower_all(name) == "add".spec_bytes() ==> signature_of(name) == Some(
            Signature { opcode: 8, first: Some(Kind::Register), second: Some(Kind::Register) },
        ),
        lower_all(name) == "nor".spec_bytes() ==> signature_of(name) == Some(
            Signature { opcode: 9, first: Some(Kind::Register), second: Some(Kind::Register) },
        ),
        lower_all(name) == "addi".spec_bytes() ==> signature_of(name) == Some(
            Signature { opcode: 10, first: Some(Kind::Register), second: Some(Kind::Integer) },
        ),
        lower_all(name) == "nori".spec_bytes() ==> signature_of(name) == Some(
            Signature { opcode: 11, first: Some(Kind::Register), second: Some(Kind::Integer) },
        ),
        lower_all(name) == "addr".spec_bytes() ==> signature_of(name) == Some(
            Signature { opcode: 12, first: Some(Kind::Register), second: Some(Kind::Register) },
        ),
        lower_all(name) == "norr".spec_bytes() ==> signature_of(name) == Some(
            Signature { opcode: 13, first: Some(Kind::Register), second: Some(Kind::Register) },
        ),
        lower_all(name) == "addir".spec_bytes() ==> signature_of(name) == Some(
            Signature { opcode: 14, first: Some(Kind::Register), second: Some(Kind::Integer) },
        ),
        lower_all(name) == "norira".spec_bytes() ==> signature_of(name) == Some(
            Signature { opcode: 15, first: Some(Kind::Register), second: Some(Kind::Integer) },
        ),
{
    lemma_mnemonic_bytes();
    assert("ldw".spec_bytes().len() == 3);
    assert("ldw".spec_bytes()[0] == 108u8);
    assert("ldw".spec_bytes()[1] == 100u8);
    assert("ldw".spec_bytes()[2] == 119u8);
    assert("stw".spec_bytes().len() == 3);
    assert("stw".spec_bytes()[0] == 115u8);
    assert("stw".spec_bytes()[1] == 116u8);
    assert("stw".spec_bytes()[2] == 119u8);
    assert("ldwr".spec_bytes().len() == 4);
    assert("ldwr".spec_bytes()[0] == 108u8);
    assert("ldwr".spec_bytes()[1] == 100u8);
    assert("ldwr".spec_bytes()[2] == 119u8);
    assert("ldwr".spec_bytes()[3] == 114u8);
    assert("stwr".spec_bytes().len() == 4);
    assert("stwr".spec_bytes()[0] == 115u8);
    assert("stwr".spec_bytes()[1] == 116u8);
    assert("stwr".spec_bytes()[2] == 119u8);
    assert("stwr".spec_bytes()[3] == 114u8);
    assert("bp".spec_bytes().len() == 2);
    assert("bp".spec_bytes()[0] == 98u8);
    assert("bp".spec_bytes()[1] == 112u8);
    assert("jmpa".spec_bytes().len() == 4);
    assert("jmpa".spec_bytes()[0] == 106u8);
    assert("jmpa".spec_bytes()[1] == 109u8);
    assert("jmpa".spec_bytes()[2] == 112u8);
    assert("jmpa".spec_bytes()[3] == 97u8);
    assert("bnsr".spec_bytes().len() == 4);
    assert("bnsr".spec_bytes()[0] == 98u8);
    assert("bnsr".spec_bytes()[1] == 110u8);
    assert("bnsr".spec_bytes()[2] == 115u8);
    assert("bnsr".spec_bytes()[3] == 114u8);
    assert("jmpr".spec_bytes().len() == 4);
    assert("jmpr".spec_bytes()[0] == 106u8);
    assert("jmpr".spec_bytes()[1] == 109u8);
    assert("jmpr".spec_bytes()[2] == 112u8);
    assert("jmpr".spec_bytes()[3] == 114u8);
    assert("add".spec_bytes().len() == 3);
    assert("add".spec_bytes()[0] == 97u8);
    assert("add".spec_bytes()[1] == 100u8);
    assert("add".spec_bytes()[2] == 100u8);
    assert("nor".spec_bytes().len() == 3);
    assert("nor".spec_bytes()[0] == 110u8);
    assert("nor".spec_bytes()[1] == 111u8);
    assert("nor".spec_bytes()[2] == 114u8);
    assert("addi".spec_bytes().len() == 4);
    assert("addi".spec_bytes()[0] == 97u8);
    assert("addi".spec_bytes()[1] == 100u8);
    assert("addi".spec_bytes()[2] == 100u8);
    assert("addi".spec_bytes()[3] == 105u8);
    assert("nori".spec_bytes().len() == 4);
    assert("nori".spec_bytes()[0] == 110u8);
    assert("nori".spec_bytes()[1] == 111u8);
    assert("nori".spec_bytes()[2] == 114u8);
    assert("nori".spec_bytes()[3] == 105u8);
    assert("addr".spec_bytes().len() == 4);
    assert("addr".spec_bytes()[0] == 97u8);
    assert("addr".spec_bytes()[1] == 100u8);
    assert("addr".spec_bytes()[2] == 100u8);
    assert("addr".spec_bytes()[3] == 114u8);
    assert("norr".spec_bytes().len() == 4);
    assert("norr".spec_bytes()[0] == 110u8);
    assert("norr".spec_bytes()[1] == 111u8);
    assert("norr".spec_bytes()[2] == 114u8);
    assert("norr".spec_bytes()[3] == 114u8);
    assert("addir".spec_bytes().len() == 5);
    assert("addir".spec_bytes()[0] == 97u8);
    assert("addir".spec_bytes()[1] == 100u8);
    assert("addir".spec_bytes()[2] == 100u8);
    assert("addir".spec_bytes()[3] == 105u8);
    assert("addir".spec_bytes()[4] == 114u8);
    assert("norira".spec_bytes().len() == 6);
    assert("norira".spec_bytes()[0] == 110u8);
    assert("norira".spec_bytes()[1] == 111u8);
    assert("norira".spec_bytes()[2] == 114u8);
    assert("norira".spec_bytes()[3] == 105u8);
    assert("norira".spec_bytes()[4] == 114u8);
    assert("norira".spec_bytes()[5] == 97u8);
}

/// A name stands for the address of its label wherever it is written: in a
/// listing without repeated names, a reference to label `i` resolves to that
/// label's address, be the statement that holds it at an address before the
/// label or behind it.
pub proof fn lemma_reference_symmetry(l: Listing, i: int, before: int, behind: int)
    requires
        distinct_names(l.labels),
        0 <= i < l.labels.len(),
    ensures
        operand_value(Operand::Name(l.labels[i].0), l.labels) == Some(l.labels[i].1 as int),
        field_of(Kind::Integer, Operand::Name(l.labels[i].0), before, l.labels) == Some((l.labels[i].1 % 256) as u8),
        field_of(Kind::Integer, Operand::Name(l.labels[i].0), behind, l.labels) == Some((l.labels[i].1 % 256) as u8),
{
    lemma_lookup_finds(l.labels, i);
}

/// A branch whose operand stands for `target` resolves exactly where
/// `target - pc - 2` lies in -8..=7, both ends included, and then holds the
/// displacement's four-bit pattern in its second field; otherwise it is
/// refused with the span of that operand.
pub proof fn lemma_branch_range(st: Statement, pc: int, labels: Seq<(Seq<u8>, usize)>, target: int)
    requires
        signature_of(st.inst) is Some,
        signature_of(st.inst)->0.second == Some(Kind::Offset),
        st.oprs.len() == signature_of(st.inst)->0.arity(),
        signature_of(st.inst)->0.first is Some ==> field_of(
            signature_of(st.inst)->0.first->0,
            st.oprs[0].0,
            pc,
            labels,
        ) is Some,
        operand_value(st.oprs[st.oprs.len() - 1].0, labels) == Some(target),
    ensures
        -8 <= target - pc - 2 <= 7 ==> resolve_inst(st, pc, labels) == Ok::<Instruction, Span>(
            instruction_of(
                signature_of(st.inst)->0.opcode,
                match signature_of(st.inst)->0.first {
                    Some(k) => field_of(k, st.oprs[0].0, pc, labels)->0,
                    None => 0u8,
                },
                ((target - pc - 2) % 16) as u8,
            ),
        ),
        !(-8 <= target - pc - 2 <= 7) ==> resolve_inst(st, pc, labels) == Err::<Instruction, Span>(
            st.oprs[st.oprs.len() - 1].1,
        ),
{
}

/// Resolving succeeds exactly where every statement resolves at its own
/// index, and then gives those instructions in order.
pub proof fn lemma_resolve_prefix_ok(l: Listing, n: nat)
    ensures
        resolve_prefix(l, n) is Ok <==> forall|k: int|
            0 <= k < n ==> (#[trigger] resolve_inst(l.insts[k], k, l.labels)) is Ok,
        resolve_prefix(l, n) is Ok ==> resolve_prefix(l, n)->Ok_0.len() == n && forall|k: int|
            0 <= k < n ==> #[trigger] resolve_inst(l.insts[k], k, l.labels) == Ok::<Instruction, Span>(
                resolve_prefix(l, n)->Ok_0[k],
            ),
    decreases n,
{
    if n > 0 {
        lemma_resolve_prefix_ok(l, (n - 1) as nat);
    }
}

/// Resolving fails with the error of the first statement that does not
/// resolve.
pub proof fn lemma_resolve_prefix_first_error(l: Listing, n: nat, k: int)
    requires
        0 <= k < n,
        resolve_inst(l.insts[k], k, l.labels) is Err,
        forall|j: int| 0 <= j < k ==> (#[trigger] resolve_inst(l.insts[j], j, l.labels)) is Ok,
    ensures
        resolve_prefix(l, n) == Err::<Seq<Instruction>, Span>(resolve_inst(l.insts[k], k, l.labels)->Err_0),
{
    lemma_resolve_prefix_ok(l, k as nat);
    assert(resolve_prefix(l, (k + 1) as nat) is Err);
    lemma_resolve_prefix_err(l, (k + 1) as nat, n);
}

} // verus!

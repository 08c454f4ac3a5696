use vstd::prelude::*;
use crate::span::Span;
use crate::lexer::{lemma_scan_advances, next_token, scan, Lexeme, Token};

verus! {

/// A label: its name, and the index of the instruction that it stands before.
pub type Label = (Vec<u8>, usize);

/// An operand as written, before any check of its kind.
#[derive(Debug)]
pub enum RawOperands {
    Integer(isize),
    Register(usize),
    Name(Vec<u8>),
}

/// An instruction as written: mnemonic, operands with their spans, and the
/// span of the whole statement.
#[derive(Debug)]
pub struct RawInstruction {
    pub inst: Vec<u8>,
    pub oprs: Vec<(RawOperands, Span)>,
    pub span: Span,
}

/// A parsed program: instructions in order, and the labels defined in it.
#[derive(Debug)]
pub struct RawProgram {
    pub insts: Vec<RawInstruction>,
    pub labels: Vec<Label>,
}

/// The mathematical value of a `RawOperands`.
pub enum Operand {
    Integer(isize),
    Register(usize),
    Name(Seq<u8>),
}

/// The mathematical value of a `RawInstruction`.
pub struct Statement {
    pub inst: Seq<u8>,
    pub oprs: Seq<(Operand, Span)>,
    pub span: Span,
}

/// The mathematical value of a `RawProgram`.
pub struct Listing {
    pub insts: Seq<Statement>,
    pub labels: Seq<(Seq<u8>, usize)>,
}

impl View for RawOperands {
    type V = Operand;

    open spec fn view(&self) -> Operand {
        match *self {
            RawOperands::Integer(i) => Operand::Integer(i),
            RawOperands::Register(r) => Operand::Register(r),
            RawOperands::Name(n) => Operand::Name(n@),
        }
    }
}

/// The mathematical value of an operand list.
pub open spec fn operands_view(v: Seq<(RawOperands, Span)>) -> Seq<(Operand, Span)> {
    Seq::new(v.len(), |i: int| (v[i].0@, v[i].1))
}

/// The mathematical value of a label table.
pub open spec fn labels_view(v: Seq<Label>) -> Seq<(Seq<u8>, usize)> {
    Seq::new(v.len(), |i: int| (v[i].0@, v[i].1))
}

impl View for RawInstruction {
    type V = Statement;

    open spec fn view(&self) -> Statement {
        Statement { inst: self.inst@, oprs: operands_view(self.oprs@), span: self.span }
    }
}

/// The mathematical value of a list of instructions.
pub open spec fn statements_view(v: Seq<RawInstruction>) -> Seq<Statement> {
    Seq::new(v.len(), |i: int| v[i]@)
}

impl View for RawProgram {
    type V = Listing;

    open spec fn view(&self) -> Listing {
        Listing { insts: statements_view(self.insts@), labels: labels_view(self.labels@) }
    }
}

/// The address of the first label called `name`, if there is one.
pub open spec fn lookup(labels: Seq<(Seq<u8>, usize)>, name: Seq<u8>) -> Option<usize>
    decreases labels.len(),
{
    if labels.len() == 0 {
        None
    } else if labels[0].0 == name {
        Some(labels[0].1)
    } else {
        lookup(labels.subrange(1, labels.len() as int), name)
    }
}

/// No name is defined twice.
pub open spec fn distinct_names(labels: Seq<(Seq<u8>, usize)>) -> bool {
    forall|i: int, j: int| 0 <= i < j < labels.len() ==> labels[i].0 != labels[j].0
}

/// What an operand list comes to: the operands, where the statement's span
/// ends, and where the next statement is looked for.
pub struct OperandList {
    pub oprs: Seq<(Operand, Span)>,
    pub end: usize,
    pub next: int,
}

/// Reads operands from `pos` up to a line feed or the end of the text. A
/// register, an integer or a word is an operand; anything else is refused
/// with its span. `end` is where the last token of the statement ended; the
/// closing line feed is consumed and is no part of the statement.
pub open spec fn operands_from(s: Seq<u8>, pos: int, oprs: Seq<(Operand, Span)>, end: usize) -> Result<OperandList, Span>
    decreases s.len() - pos,
    when 0 <= pos <= s.len() <= usize::MAX
    via operands_from_decreases
{
    match scan(s, pos) {
        None => Ok(OperandList { oprs, end, next: pos }),
        Some(l) => match l.token {
            Ok(Token::Newline) => Ok(OperandList { oprs, end, next: l.span.end as int }),
            Ok(Token::Ident) => operands_from(
                s,
                l.span.end as int,
                oprs.push((Operand::Name(s.subrange(l.span.start as int, l.span.end as int)), l.span)),
                l.span.end,
            ),
            Ok(Token::Register(r)) => operands_from(
                s,
                l.span.end as int,
                oprs.push((Operand::Register(r), l.span)),
                l.span.end,
            ),
            Ok(Token::Integer(i)) => operands_from(
                s,
                l.span.end as int,
                oprs.push((Operand::Integer(i), l.span)),
                l.span.end,
            ),
            _ => Err(l.span),
        },
    }
}

#[via_fn]
proof fn operands_from_decreases(s: Seq<u8>, pos: int, oprs: Seq<(Operand, Span)>, end: usize) {
    lemma_scan_advances(s, pos);
}

/// An operand list ends inside the text, at or behind where it started.
pub proof fn lemma_operands_from_bounds(s: Seq<u8>, pos: int, oprs: Seq<(Operand, Span)>, end: usize)
    requires
        0 <= pos <= s.len() <= usize::MAX,
    ensures
        match operands_from(s, pos, oprs, end) {
            Ok(t) => pos <= t.next <= s.len(),
            Err(_) => true,
        },
    decreases s.len() - pos,
{
    lemma_scan_advances(s, pos);
    match scan(s, pos) {
        None => {},
        Some(l) => match l.token {
            Ok(Token::Ident) => lemma_operands_from_bounds(
                s,
                l.span.end as int,
                oprs.push((Operand::Name(s.subrange(l.span.start as int, l.span.end as int)), l.span)),
                l.span.end,
            ),
            Ok(Token::Register(r)) => lemma_operands_from_bounds(
                s,
                l.span.end as int,
                oprs.push((Operand::Register(r), l.span)),
                l.span.end,
            ),
            Ok(Token::Integer(i)) => lemma_operands_from_bounds(
                s,
                l.span.end as int,
                oprs.push((Operand::Integer(i), l.span)),
                l.span.end,
            ),
            _ => {},
        },
    }
}

/// The statement whose mnemonic is the word `l`, given its operand list.
pub open spec fn statement_of(s: Seq<u8>, l: Lexeme, t: OperandList) -> Statement {
    Statement {
        inst: s.subrange(l.span.start as int, l.span.end as int),
        oprs: t.oprs,
        span: Span { start: l.span.start, end: t.end },
    }
}

/// Parses the text from `pos` on, given what was parsed before it. Line
/// feeds between statements are passed over. A word starts an instruction. A
/// label definition binds its name, without the colon, to the number of
/// instructions parsed so far, and is refused with its span where the name
/// is already defined. Any other token is refused with its span.
pub open spec fn parse_from(s: Seq<u8>, pos: int, done: Listing) -> Result<Listing, Span>
    decreases s.len() - pos,
    when 0 <= pos <= s.len() <= usize::MAX
    via parse_from_decreases
{
    match scan(s, pos) {
        None => Ok(done),
        Some(l) => match l.token {
            Ok(Token::Newline) => parse_from(s, l.span.end as int, done),
            Ok(Token::Ident) => match operands_from(s, l.span.end as int, Seq::empty(), l.span.end) {
                Ok(t) => parse_from(
                    s,
                    t.next,
                    Listing { insts: done.insts.push(statement_of(s, l, t)), labels: done.labels },
                ),
                Err(e) => Err(e),
            },
            Ok(Token::LabelDef) => {
                let name = s.subrange(l.span.start as int, l.span.end - 1);
                if lookup(done.labels, name) is Some {
                    Err(l.span)
                } else {
                    parse_from(
                        s,
                        l.span.end as int,
                        Listing { insts: done.insts, labels: done.labels.push((name, done.insts.len() as usize)) },
                    )
                }
            },
            _ => Err(l.span),
        },
    }
}

#[via_fn]
proof fn parse_from_decreases(s: Seq<u8>, pos: int, done: Listing) {
    lemma_scan_advances(s, pos);
    match scan(s, pos) {
        Some(l) => {
            lemma_operands_from_bounds(s, l.span.end as int, Seq::empty(), l.span.end);
        },
        None => {},
    }
}

/// What parsing a whole text gives.
pub open spec fn parse_spec(s: Seq<u8>) -> Result<Listing, Span> {
    parse_from(s, 0, Listing { insts: Seq::empty(), labels: Seq::empty() })
}

/// Copies the bytes in `start..end`.
pub fn copy_range(src: &[u8], start: usize, end: usize) -> (v: Vec<u8>)
    requires
        start <= end <= src@.len(),
    ensures
        v@ == src@.subrange(start as int, end as int),
{
    let mut v: Vec<u8> = Vec::new();
    let mut i: usize = start;
    while i < end
        invariant
            start <= i <= end <= src@.len(),
            v@ == src@.subrange(start as int, i as int),
        decreases end - i,
    {
        v.push(src[i]);
        i = i + 1;
        assert(v@ =~= src@.subrange(start as int, i as int));
    }
    v
}

/// Whether two byte strings are equal.
pub fn same_bytes(a: &[u8], b: &[u8]) -> (r: bool)
    ensures
        r == (a@ == b@),
{
    if a.len() != b.len() {
        return false;
    }
    let mut i: usize = 0;
    while i < a.len()
        invariant
            a@.len() == b@.len(),
            i <= a@.len(),
            forall|j: int| 0 <= j < i ==> a@[j] == b@[j],
        decreases a@.len() - i,
    {
        if a[i] != b[i] {
            return false;
        }
        i = i + 1;
    }
    assert(a@ =~= b@);
    true
}

/// Looks a name up among the labels: the address of the first one so called.
pub fn find_label(labels: &Vec<Label>, name: &Vec<u8>) -> (r: Option<usize>)
    ensures
        r == lookup(labels_view(labels@), name@),
{
    let ghost all = labels_view(labels@);
    let mut i: usize = 0;
    assert(all.subrange(0, all.len() as int) =~= all);
    while i < labels.len()
        invariant
            i <= labels@.len(),
            all == labels_view(labels@),
            lookup(all, name@) == lookup(all.subrange(i as int, all.len() as int), name@),
        decreases labels@.len() - i,
    {
        let ghost rest = all.subrange(i as int, all.len() as int);
        assert(rest[0] == all[i as int]);
        assert(rest.subrange(1, rest.len() as int) =~= all.subrange(i + 1, all.len() as int));
        if same_bytes(labels[i].0.as_slice(), name.as_slice()) {
            return Some(labels[i].1);
        }
        i = i + 1;
    }
    assert(all.subrange(i as int, all.len() as int).len() == 0);
    None
}

/// Parses the operands of the instruction whose mnemonic is `word`, and
/// returns the instruction with the position behind the statement.
pub fn parse_inst(src: &[u8], word: Lexeme) -> (r: Result<(RawInstruction, usize), Span>)
    requires
        word.span.start <= word.span.end <= src@.len(),
    ensures
        match r {
            Ok(p) => match operands_from(src@, word.span.end as int, Seq::empty(), word.span.end) {
                Ok(t) => p.0@ == statement_of(src@, word, t) && p.1 == t.next && p.1 <= src@.len(),
                Err(_) => false,
            },
            Err(e) => operands_from(src@, word.span.end as int, Seq::empty(), word.span.end) == Err::<OperandList, Span>(e),
        },
{
    let n: usize = src.len();
    let inst: Vec<u8> = copy_range(src, word.span.start, word.span.end);
    let mut oprs: Vec<(RawOperands, Span)> = Vec::new();
    let mut end: usize = word.span.end;
    let mut pos: usize = word.span.end;
    let ghost goal = operands_from(src@, word.span.end as int, Seq::empty(), word.span.end);
    assert(operands_view(oprs@) =~= Seq::empty());
    loop
        invariant
            n == src@.len(),
            pos <= n,
            word.span.start <= word.span.end <= n,
            inst@ == src@.subrange(word.span.start as int, word.span.end as int),
            goal == operands_from(src@, word.span.end as int, Seq::empty(), word.span.end),
            goal == operands_from(src@, pos as int, operands_view(oprs@), end),
        decreases n - pos,
    {
        let ghost before = operands_view(oprs@);
        match next_token(src, pos) {
            None => {
                return Ok((RawInstruction { inst, oprs, span: Span { start: word.span.start, end } }, pos));
            },
            Some(l) => {
                match l.token {
                    Ok(Token::Newline) => {
                        return Ok(
                            (RawInstruction { inst, oprs, span: Span { start: word.span.start, end } }, l.span.end),
                        );
                    },
                    Ok(Token::Ident) => {
                        let name: Vec<u8> = copy_range(src, l.span.start, l.span.end);
                        oprs.push((RawOperands::Name(name), l.span));
                        assert(operands_view(oprs@) =~= before.push(
                            (Operand::Name(src@.subrange(l.span.start as int, l.span.end as int)), l.span),
                        ));
                    },
                    Ok(Token::Register(r)) => {
                        oprs.push((RawOperands::Register(r), l.span));
                        assert(operands_view(oprs@) =~= before.push((Operand::Register(r), l.span)));
                    },
                    Ok(Token::Integer(i)) => {
                        oprs.push((RawOperands::Integer(i), l.span));
                        assert(operands_view(oprs@) =~= before.push((Operand::Integer(i), l.span)));
                    },
                    _ => {
                        return Err(l.span);
                    },
                }
                end = l.span.end;
                pos = l.span.end;
            },
        }
    }
}

/// Reads a label definition: the label binds the name in front of the colon
/// to `count`, the number of instructions parsed so far; a name that is
/// already defined is refused with the definition's span.
pub fn parse_ldef(src: &[u8], def: Lexeme, count: usize, labels: &Vec<Label>) -> (r: Result<Label, Span>)
    requires
        def.span.start < def.span.end <= src@.len(),
    ensures
        match r {
            Ok(label) => {
                &&& lookup(labels_view(labels@), src@.subrange(def.span.start as int, def.span.end - 1)) is None
                &&& label.0@ == src@.subrange(def.span.start as int, def.span.end - 1)
                &&& label.1 == count
            },
            Err(e) => {
                &&& lookup(labels_view(labels@), src@.subrange(def.span.start as int, def.span.end - 1)) is Some
                &&& e == def.span
            },
        },
{
    let name: Vec<u8> = copy_range(src, def.span.start, def.span.end - 1);
    if find_label(labels, &name).is_some() {
        return Err(def.span);
    }
    Ok((name, count))
}

/// Parses a source text into its instructions and labels, or returns the span
/// of the first token that is out of place.
pub fn parse(src: &[u8]) -> (r: Result<RawProgram, Span>)
    ensures
        match r {
            Ok(p) => parse_spec(src@) == Ok::<Listing, Span>(p@),
            Err(e) => parse_spec(src@) == Err::<Listing, Span>(e),
        },
{
    let n: usize = src.len();
    let mut insts: Vec<RawInstruction> = Vec::new();
    let mut labels: Vec<Label> = Vec::new();
    let mut pos: usize = 0;
    assert(statements_view(insts@) =~= Seq::empty());
    assert(labels_view(labels@) =~= Seq::empty());
    loop
        invariant
            n == src@.len(),
            pos <= n,
            parse_spec(src@) == parse_from(
                src@,
                pos as int,
                Listing { insts: statements_view(insts@), labels: labels_view(labels@) },
            ),
        decreases n - pos,
    {
        let ghost seen = statements_view(insts@);
        let ghost known = labels_view(labels@);
        match next_token(src, pos) {
            None => {
                return Ok(RawProgram { insts, labels });
            },
            Some(l) => {
                match l.token {
                    Ok(Token::Newline) => {
                        pos = l.span.end;
                    },
                    Ok(Token::Ident) => {
                        match parse_inst(src, l) {
                            Ok(p) => {
                                let (inst, next) = p;
                                proof {
                                    lemma_operands_from_bounds(src@, l.span.end as int, Seq::empty(), l.span.end);
                                }
                                insts.push(inst);
                                assert(statements_view(insts@) =~= seen.push(inst@));
                                pos = next;
                            },
                            Err(e) => {
                                return Err(e);
                            },
                        }
                    },
                    Ok(Token::LabelDef) => {
                        match parse_ldef(src, l, insts.len(), &labels) {
                            Ok(label) => {
                                labels.push(label);
                                assert(labels_view(labels@) =~= known.push((label.0@, label.1)));
                                pos = l.span.end;
                            },
                            Err(e) => {
                                return Err(e);
                            },
                        }
                    },
                    _ => {
                        return Err(l.span);
                    },
                }
            },
        }
    }
}

/// A name that `lookup` does not find is the name of no label.
pub proof fn lemma_lookup_none(labels: Seq<(Seq<u8>, usize)>, name: Seq<u8>)
    ensures
        lookup(labels, name) is None <==> forall|i: int| 0 <= i < labels.len() ==> (#[trigger] labels[i]).0 != name,
    decreases labels.len(),
{
    if labels.len() > 0 {
        let rest = labels.subrange(1, labels.len() as int);
        lemma_lookup_none(rest, name);
        if labels[0].0 != name {
            if lookup(rest, name) is None {
                assert forall|i: int| 0 <= i < labels.len() implies (#[trigger] labels[i]).0 != name by {
                    if i > 0 {
                        assert(rest[i - 1] == labels[i]);
                    }
                }
            } else {
                let i = choose|i: int| 0 <= i < rest.len() && (#[trigger] rest[i]).0 == name;
                assert(labels[i + 1] == rest[i]);
            }
        }
    }
}

/// In a table without repeated names every label is found under its name.
pub proof fn lemma_lookup_finds(labels: Seq<(Seq<u8>, usize)>, i: int)
    requires
        distinct_names(labels),
        0 <= i < labels.len(),
    ensures
        lookup(labels, labels[i].0) == Some(labels[i].1),
    decreases labels.len(),
{
    if i > 0 {
        let rest = labels.subrange(1, labels.len() as int);
        assert(rest[i - 1] == labels[i]);
        assert(distinct_names(rest)) by {
            assert forall|a: int, b: int| 0 <= a < b < rest.len() implies rest[a].0 != rest[b].0 by {
                assert(rest[a] == labels[a + 1]);
                assert(rest[b] == labels[b + 1]);
            }
        }
        lemma_lookup_finds(rest, i - 1);
    }
}

/// A second definition of a name is refused with the span of that second
/// definition.
pub proof fn lemma_duplicate_label(s: Seq<u8>, pos: int, done: Listing)
    requires
        0 <= pos <= s.len() <= usize::MAX,
        scan(s, pos) is Some,
        scan(s, pos)->0.token == Ok::<Token, ()>(Token::LabelDef),
        exists|i: int|
            0 <= i < done.labels.len() && (#[trigger] done.labels[i]).0 == s.subrange(
                scan(s, pos)->0.span.start as int,
                scan(s, pos)->0.span.end - 1,
            ),
    ensures
        parse_from(s, pos, done) == Err::<Listing, Span>(scan(s, pos)->0.span),
{
    let l = scan(s, pos)->0;
    lemma_lookup_none(done.labels, s.subrange(l.span.start as int, l.span.end - 1));
}

/// What holds of every parsed listing: no name is defined twice, and every
/// label stands for the index of an instruction or for the index behind the
/// last one.
pub open spec fn well_formed(l: Listing) -> bool {
    &&& distinct_names(l.labels)
    &&& forall|i: int| 0 <= i < l.labels.len() ==> (#[trigger] l.labels[i]).1 <= l.insts.len()
}

/// Parsing on from a well-formed listing gives a well-formed listing.
pub proof fn lemma_parse_from_well_formed(s: Seq<u8>, pos: int, done: Listing)
    requires
        0 <= pos <= s.len() <= usize::MAX,
        done.insts.len() <= pos,
        well_formed(done),
    ensures
        parse_from(s, pos, done) is Ok ==> well_formed(parse_from(s, pos, done)->Ok_0),
    decreases s.len() - pos,
{
    lemma_scan_advances(s, pos);
    match scan(s, pos) {
        None => {},
        Some(l) => match l.token {
            Ok(Token::Newline) => {
                lemma_parse_from_well_formed(s, l.span.end as int, done);
            },
            Ok(Token::Ident) => {
                lemma_operands_from_bounds(s, l.span.end as int, Seq::empty(), l.span.end);
                match operands_from(s, l.span.end as int, Seq::empty(), l.span.end) {
                    Ok(t) => {
                        let next = Listing { insts: done.insts.push(statement_of(s, l, t)), labels: done.labels };
                        lemma_parse_from_well_formed(s, t.next, next);
                    },
                    Err(_) => {},
                }
            },
            Ok(Token::LabelDef) => {
                let name = s.subrange(l.span.start as int, l.span.end - 1);
                lemma_lookup_none(done.labels, name);
                if lookup(done.labels, name) is None {
                    let next = Listing {
                        insts: done.insts,
                        labels: done.labels.push((name, done.insts.len() as usize)),
                    };
                    assert(well_formed(next));
                    lemma_parse_from_well_formed(s, l.span.end as int, next);
                }
            },
            _ => {},
        },
    }
}

/// Every text that parses gives a well-formed listing.
pub proof fn lemma_parse_well_formed(s: Seq<u8>)
    requires
        s.len() <= usize::MAX,
    ensures
        parse_spec(s) is Ok ==> well_formed(parse_spec(s)->Ok_0),
{
    lemma_parse_from_well_formed(s, 0, Listing { insts: Seq::empty(), labels: Seq::empty() });
}

/// Where the parser stands between two statements: its position in the text
/// and what it has parsed.
pub struct Progress {
    pub pos: int,
    pub done: Listing,
}

/// One step of the parser from `pos`: over a line feed, an instruction, or a
/// label definition of a new name. `None` at the end of the text and where
/// the step is refused.
pub open spec fn step(s: Seq<u8>, pos: int, done: Listing) -> Option<Progress> {
    match scan(s, pos) {
        None => None,
        Some(l) => match l.token {
            Ok(Token::Newline) => Some(Progress { pos: l.span.end as int, done }),
            Ok(Token::Ident) => match operands_from(s, l.span.end as int, Seq::empty(), l.span.end) {
                Ok(t) => Some(
                    Progress {
                        pos: t.next,
                        done: Listing { insts: done.insts.push(statement_of(s, l, t)), labels: done.labels },
                    },
                ),
                Err(_) => None,
            },
            Ok(Token::LabelDef) => {
                let name = s.subrange(l.span.start as int, l.span.end - 1);
                if lookup(done.labels, name) is Some {
                    None
                } else {
                    Some(
                        Progress {
                            pos: l.span.end as int,
                            done: Listing {
                                insts: done.insts,
                                labels: done.labels.push((name, done.insts.len() as usize)),
                            },
                        },
                    )
                }
            },
            _ => None,
        },
    }
}

/// Where the parser stands after `n` steps from the start of the text, if
/// none of them was refused and the text did not end before.
pub open spec fn state_after(s: Seq<u8>, n: nat) -> Option<Progress>
    decreases n,
{
    if n == 0 {
        Some(Progress { pos: 0, done: Listing { insts: Seq::empty(), labels: Seq::empty() } })
    } else {
        match state_after(s, (n - 1) as nat) {
            None => None,
            Some(p) => step(s, p.pos, p.done),
        }
    }
}

/// The name that the label definition `l` binds: its text without the colon.
pub open spec fn defined_name(s: Seq<u8>, l: Lexeme) -> Seq<u8> {
    s.subrange(l.span.start as int, l.span.end - 1)
}

/// Parsing a text is parsing on from wherever the parser stands after some
/// steps.
pub proof fn lemma_state_after_parse(s: Seq<u8>, n: nat)
    requires
        s.len() <= usize::MAX,
        state_after(s, n) is Some,
    ensures
        0 <= state_after(s, n)->0.pos <= s.len(),
        parse_spec(s) == parse_from(s, state_after(s, n)->0.pos, state_after(s, n)->0.done),
    decreases n,
{
    if n > 0 {
        lemma_state_after_parse(s, (n - 1) as nat);
        let p = state_after(s, (n - 1) as nat)->0;
        lemma_scan_advances(s, p.pos);
        match scan(s, p.pos) {
            Some(l) => {
                lemma_operands_from_bounds(s, l.span.end as int, Seq::empty(), l.span.end);
            },
            None => {},
        }
    }
}

/// The parser forgets no label: what it knew after `m` steps it knows, at
/// the same place in the table, after any later step.
pub proof fn lemma_labels_kept(s: Seq<u8>, m: nat, n: nat)
    requires
        m <= n,
        state_after(s, n) is Some,
    ensures
        state_after(s, m) is Some,
        state_after(s, m)->0.done.labels.len() <= state_after(s, n)->0.done.labels.len(),
        forall|i: int|
            0 <= i < state_after(s, m)->0.done.labels.len() ==> state_after(s, n)->0.done.labels[i] == state_after(
                s,
                m,
            )->0.done.labels[i],
    decreases n,
{
    if m < n {
        lemma_labels_kept(s, m, (n - 1) as nat);
    }
}

/// A second definition of a name is refused with its own span, colon
/// included, however many statements lie between the two: where the parser
/// comes to a label definition after `m` steps and, without any refusal in
/// between, to a definition of the same name after `n` steps, parsing the
/// text gives the span of the later one.
pub proof fn lemma_second_definition(s: Seq<u8>, m: nat, n: nat)
    requires
        s.len() <= usize::MAX,
        m < n,
        state_after(s, n) is Some,
        scan(s, state_after(s, m)->0.pos) is Some,
        scan(s, state_after(s, m)->0.pos)->0.token == Ok::<Token, ()>(Token::LabelDef),
        scan(s, state_after(s, n)->0.pos) is Some,
        scan(s, state_after(s, n)->0.pos)->0.token == Ok::<Token, ()>(Token::LabelDef),
        defined_name(s, scan(s, state_after(s, m)->0.pos)->0) == defined_name(
            s,
            scan(s, state_after(s, n)->0.pos)->0,
        ),
    ensures
        parse_spec(s) == Err::<Listing, Span>(scan(s, state_after(s, n)->0.pos)->0.span),
{
    lemma_labels_kept(s, m + 1, n);
    lemma_labels_kept(s, m, m + 1);
    let first = state_after(s, m)->0;
    let next = state_after(s, m + 1)->0;
    let last = state_after(s, n)->0;
    assert(state_after(s, m + 1) == step(s, first.pos, first.done));
    let k = first.done.labels.len() as int;
    assert(next.done.labels[k].0 == defined_name(s, scan(s, first.pos)->0));
    assert(last.done.labels[k] == next.done.labels[k]);
    lemma_state_after_parse(s, n);
    lemma_duplicate_label(s, last.pos, last.done);
}

} // verus!

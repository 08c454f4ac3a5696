//! Assembler for a small sixteen-opcode machine with four-bit operand fields.
//!
//! Source text is scanned into tokens, parsed into raw instructions and
//! labels, resolved into typed instructions, and packed into twelve-bit words.

use vstd::prelude::*;
use vstd::string::*;

pub mod span;
pub mod lexer;
pub mod parser;
pub mod postproc;
pub mod bingen;
pub mod image;

use crate::span::Span;
use crate::parser::{parse, parse_spec};
use crate::postproc::{lemma_resolve_prefix_ok, post_proc, resolve_spec};
use crate::bingen::{encode_all, generate};

verus! {

/// The words that a source text assembles to, or the span of its first error.
pub open spec fn compile_spec(s: Seq<u8>) -> Result<Seq<u16>, Span> {
    match parse_spec(s) {
        Err(e) => Err(e),
        Ok(l) => match resolve_spec(l) {
            Err(e) => Err(e),
            Ok(v) => Ok(encode_all(v)),
        },
    }
}

/// A text that assembles gives one word for each of its statements, in their
/// order.
pub proof fn lemma_one_word_per_statement(s: Seq<u8>)
    requires
        compile_spec(s) is Ok,
    ensures
        parse_spec(s) is Ok,
        compile_spec(s)->Ok_0.len() == parse_spec(s)->Ok_0.insts.len(),
{
    let l = parse_spec(s)->Ok_0;
    lemma_resolve_prefix_ok(l, l.insts.len());
}

/// Assembles a source text given as bytes.
pub fn compile(src: &[u8]) -> (r: Result<Vec<u16>, Span>)
    ensures
        match r {
            Ok(w) => compile_spec(src@) == Ok::<Seq<u16>, Span>(w@),
            Err(e) => compile_spec(src@) == Err::<Seq<u16>, Span>(e),
        },
{
    let raw = match parse(src) {
        Ok(p) => p,
        Err(e) => {
            return Err(e);
        },
    };
    let program = match post_proc(raw) {
        Ok(p) => p,
        Err(e) => {
            return Err(e);
        },
    };
    Ok(generate(program))
}

/// Assembles a source text: one word per instruction, or the span of the
/// first error, in byte offsets into the text.
pub fn comp(s: &str) -> (r: Result<Vec<u16>, Span>)
    ensures
        match r {
            Ok(w) => compile_spec(s.spec_bytes()) == Ok::<Seq<u16>, Span>(w@),
            Err(e) => compile_spec(s.spec_bytes()) == Err::<Seq<u16>, Span>(e),
        },
{
    compile(s.as_bytes())
}

} // verus!

//! An assembler for a 16-bit machine: symbolic assembly text in, one
//! 16-character binary word per instruction out.

pub mod code;
pub mod error;
pub mod parser;
pub mod text;

use vstd::prelude::*;

use crate::code::{
    built_table, encode_all, label_pass, lemma_encode_all_no_unresolved, lemma_var_pass_covers,
    predefined_table, CodeGenerator, FIRST_VAR,
};
use crate::error::{Error, ErrorView};
use crate::parser::{
    lemma_parse_all_len, lemma_parse_all_wf, line_symbols_ok, parse_all, AsmLineView, Parser,
};
use crate::text::is_numeric_seq;

verus! {

/// What the whole pipeline yields on a sequence of raw source lines:
/// the parsed lines when none is defective, then the table built by the
/// two passes, then the encoded words; otherwise the first applicable
/// outcome among the collected per-line defects, address-space
/// exhaustion and the fatal encoding errors.
pub open spec fn assemble_model(input: Seq<Seq<char>>) -> Result<Seq<Seq<char>>, ErrorView> {
    let parsed = parse_all(input, 0);
    if parsed.1.len() > 0 {
        Err(ErrorView::ParseError(parsed.1))
    } else {
        match built_table(parsed.0) {
            None => Err(ErrorView::AddressSpaceExhausted),
            Some(p) => encode_all(parsed.0, p.0),
        }
    }
}

/// Runs the whole pipeline: parse every line, build the symbol table in
/// two passes, encode every instruction.  The output is a function of
/// the input text alone, so a second run on the same input yields
/// byte-identical output.
pub fn assemble(input: &Vec<String>) -> (r: Result<Vec<String>, Error>)
    requires
        input@.len() <= u32::MAX,
    ensures
        match r {
            Ok(out) => assemble_model(input.deep_view()) matches Ok(ws) && out.deep_view() == ws,
            Err(e) => assemble_model(input.deep_view()) matches Err(ev) && e@ == ev,
        },
{
    let parser = Parser::new();
    let lines = match parser.parse(input) {
        Ok(l) => l,
        Err(e) => {
            return Err(e);
        },
    };
    proof {
        lemma_parse_all_len(input.deep_view(), 0);
    }
    let generator = match CodeGenerator::new(lines) {
        Ok(g) => g,
        Err(e) => {
            return Err(e);
        },
    };
    generator.gen()
}


/// The pipeline is a pure function of the input text: two runs over the
/// same lines reach the same outcome, so the emitted machine code is
/// byte-identical.
pub proof fn lemma_assemble_deterministic(
    input: Seq<Seq<char>>,
    r1: Result<Seq<Seq<char>>, ErrorView>,
    r2: Result<Seq<Seq<char>>, ErrorView>,
)
    requires
        r1 == assemble_model(input),
        r2 == assemble_model(input),
    ensures
        r1 == r2,
{
}

/// The resolution invariant of the two-pass discipline: a run over
/// parsed text never reports an unresolved symbol.  Every non-numeric
/// address target the parser lets through is a valid symbol, and the
/// variable pass enters every such target that the label pass did not.
pub proof fn lemma_no_unresolved_symbols(input: Seq<Seq<char>>)
    ensures
        !(assemble_model(input) matches Err(ErrorView::UnresolvedSymbol(_))),
{
    let parsed = parse_all(input, 0);
    if parsed.1.len() == 0 {
        match built_table(parsed.0) {
            None => {
            },
            Some((m2, i2)) => {
                assert forall|i: int| 0 <= i < parsed.0.len() implies line_symbols_ok(
                    #[trigger] parsed.0[i],
                ) by {
                    lemma_parse_all_wf(input, 0, i);
                }
                assert forall|i: int| 0 <= i < parsed.0.len() implies match #[trigger] parsed.0[i] {
                    AsmLineView::ACommand(s) => s.len() == 0 || is_numeric_seq(s)
                        || m2.contains_key(s),
                    _ => true,
                } by {
                    lemma_var_pass_covers(
                        parsed.0,
                        label_pass(parsed.0, predefined_table(), 0),
                        FIRST_VAR,
                        m2,
                        i2,
                        i,
                    );
                }
                lemma_encode_all_no_unresolved(parsed.0, m2);
            },
        }
    }
}

} // verus!

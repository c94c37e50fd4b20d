//! Compiles declarative UI markup (tags, attributes, interpolated text and
//! conditional/loop directives) into a single component-construction
//! expression string.
//!
//! The pipeline has three stages: the lexer turns the source text into a
//! flat token list, the parser builds a single rooted tree from it, and the
//! generator walks the tree and resolves the control-flow directives into
//! nested ternary and mapping expressions.

pub mod generator;
pub mod lexer;
pub mod parser;
pub mod utils;

use vstd::prelude::*;
use crate::generator::{spec_generate_node, Generator};
use crate::lexer::{vec_tokens_view, LexErrSpec, LexerError, Token, TokenSpec};
use crate::parser::{spec_parse_source, spec_parse_tokens, Parser};

verus! {

/// The whole transform as a function of the source text: tokenize, build
/// the single root node, and generate its code from an empty chain stack.
pub open spec fn spec_transform(code: Seq<char>) -> Result<Seq<char>, LexErrSpec> {
    match spec_parse_source(code) {
        Ok(n) => Ok(spec_generate_node(n, Seq::empty()).0),
        Err(e) => Err(e),
    }
}

/// Compiles one markup text into its expression string, or reports the
/// first structural error of the text. The output is exactly
/// `spec_transform` of the input. The bound on the input length keeps the
/// position arithmetic inside `usize`.
pub fn transform(code: &str) -> (r: Result<String, LexerError>)
    requires
        code@.len() + 2 <= usize::MAX,
    ensures
        match spec_transform(code@) {
            Ok(out) => match r {
                Ok(s) => s@ == out,
                Err(_) => false,
            },
            Err(e) => match r {
                Err(err) => err@ == e,
                Ok(_) => false,
            },
        },
{
    let mut parser = Parser::new(code);
    proof {
        assert(vec_tokens_view(Seq::<Token>::empty()) =~= Seq::<TokenSpec>::empty());
        assert(spec_parse_tokens(
            code@,
            crate::lexer::spec_loc_start(),
            vec_tokens_view(Seq::<Token>::empty()),
            0,
        ) == spec_parse_source(code@));
    }
    match parser.parse_all() {
        Ok(ast) => {
            let mut gen = Generator::new(ast);
            Ok(gen.generate_fre())
        },
        Err(e) => Err(e),
    }
}

/// Determinism: the transform's outcome is a function of the input text
/// alone — two runs over equal texts give equal outcomes (equal output
/// strings, or equal errors). There is no hidden state across invocations
/// with fresh instances.
pub proof fn lemma_transform_deterministic(a: Seq<char>, b: Seq<char>)
    requires
        a == b,
    ensures
        spec_transform(a) == spec_transform(b),
{
}

} // verus!

//! The tokenizer boundary: ECMAScript source text in, plain tokens out.
//!
//! Lexing and parsing are the parser crate's work; the library only fixes what
//! a token is from here on: its identity text and its byte span in the file.

use vstd::prelude::*;

use crate::tokenmap::{Token, TokenV};

use swc_common::{FileName, SourceMap};
use swc_ecma_parser::unstable::Capturing;
use swc_ecma_parser::{Lexer, Parser, StringInput, Syntax};

verus! {

/// The token stream (identity text and file-local byte span per token) that
/// the ECMAScript parser assigns to a source text.
pub uninterp spec fn tokens_of(s: Seq<char>) -> Seq<TokenV>;

/// Relies on swc_ecma_parser's `Lexer`, `Capturing` and `Parser` over a file
/// made by swc_common's `SourceMap`: parsing captures the file's token stream,
/// a function of the source text alone; a parse error still hands back the
/// tokens captured so far. Each token is handed on as its source text
/// (`SourceMap::with_snippet_of_span`) and its byte offsets within the file
/// (`SourceMap::lookup_byte_offset`).
#[verifier::external_body]
pub fn tokensize_with_str(input: String) -> (r: Vec<Token>)
    ensures
        r@.map_values(|t: Token| t@) == tokens_of(input@),
{
    let cm = SourceMap::default();
    let fm = cm.new_source_file(FileName::Custom("input.js".into()).into(), input);
    let lexer = Lexer::new(Syntax::Es(Default::default()), Default::default(), StringInput::from(&*fm), None);
    let mut parser = Parser::new_from(Capturing::new(lexer));
    let _ = parser.parse_module();
    let tokens = parser.input().iter.tokens().iter().map(|t| Token {
        id: cm.with_snippet_of_span(t.span, |s| s.to_string()).unwrap_or_default(),
        lo: cm.lookup_byte_offset(t.span.lo).pos.0,
        hi: cm.lookup_byte_offset(t.span.hi).pos.0,
    }).collect();
    tokens
}

} // verus!

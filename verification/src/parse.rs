pub mod error;
pub mod parser;
pub mod token_type;
pub mod tokenizer;

pub use token_type::TokenType;
pub use tokenizer::Token;
pub use tokenizer::TokenData;
pub use tokenizer::Tokenizer;

use vstd::prelude::*;

use crate::ast::expr::Expr;
use crate::ast::expr::SpecExpr;
use crate::parse::error::ParseError;
use crate::parse::error::SpecError;
use crate::parse::parser::Parser;
use crate::parse::parser::digits_fit;
use crate::parse::parser::lemma_sig_of_ok;
use crate::parse::parser::spec_parse_expression;
use crate::parse::parser::token_ok;
use crate::parse::token_type::digits_val;
use crate::parse::token_type::end_col_of;
use crate::parse::token_type::end_line_of;
use crate::parse::token_type::lemma_tokens_shape_ok;
use crate::parse::token_type::sig_of;
use crate::parse::token_type::spec_tokens_from;

verus! {

/// The whole front end as one mathematical function: scan the source, drop
/// whitespace and newlines, and run the grammar from its lowest precedence
/// level; on success only the tree is kept, on failure the first error.
pub open spec fn spec_parse_expr(s: Seq<char>) -> Result<SpecExpr, SpecError> {
    let raw = spec_tokens_from(s, 0, 0, 0);
    match spec_parse_expression(sig_of(raw), end_line_of(raw, 0), end_col_of(raw, 0)) {
        Ok(p) => Ok(p.0),
        Err(e) => Err(e),
    }
}

/// Every integer literal of the source names a value an `i64` can hold. On a
/// longer literal the integer conversion has no result to return, so this
/// machine limit bounds the parser's domain.
pub open spec fn source_fits(s: Seq<char>) -> bool {
    forall|k: int|
        0 <= k < spec_tokens_from(s, 0, 0, 0).len() ==> ((#[trigger] spec_tokens_from(
            s,
            0,
            0,
            0,
        )[k]).kind == TokenType::Int ==> digits_val(spec_tokens_from(s, 0, 0, 0)[k].lexeme)
            <= i64::MAX)
}

/// Decide `source_fits` at run time, scanning the source's tokens and
/// checking each integer literal with one digit of headroom, so a caller can
/// test the bound before calling `parse_expr`.
pub fn source_fits_check(source: &str) -> (b: bool)
    ensures
        b == source_fits(source@),
{
    let ghost raw = spec_tokens_from(source@, 0, 0, 0);
    proof {
        lemma_tokens_shape_ok(source@, 0, 0, 0);
    }
    let mut tk = Tokenizer::new(source);
    let ghost mut k: int = 0;
    loop
        invariant
            raw == spec_tokens_from(source@, 0, 0, 0),
            tk.wf(),
            tk.src_view() == source@,
            0 <= k <= raw.len(),
            tk.remaining() == raw.subrange(k, raw.len() as int),
            forall|j: int|
                0 <= j < k ==> ((#[trigger] raw[j]).kind == TokenType::Int ==> digits_val(
                    raw[j].lexeme,
                ) <= i64::MAX),
            forall|j: int|
                0 <= j < raw.len() ==> crate::parse::token_type::token_shape_ok(#[trigger] raw[j]),
        decreases tk.remaining().len(),
    {
        match tk.next() {
            None => {
                proof {
                    assert(k == raw.len());
                }
                return true;
            },
            Some(t) => {
                proof {
                    assert(t@ == raw[k]);
                }
                if t.token_type == TokenType::Int {
                    if !digits_fit(&t.data.lexeme) {
                        return false;
                    }
                }
                proof {
                    let rem = tk.remaining();
                    let pre = raw.subrange(k, raw.len() as int);
                    assert(pre == seq![t@] + rem);
                    assert forall|i: int| 0 <= i < rem.len() implies rem[i] == raw[k + 1 + i] by {
                        assert(rem[i] == pre[i + 1]);
                        assert(pre[i + 1] == raw[k + 1 + i]);
                    }
                    k = k + 1;
                    assert(tk.remaining() =~= raw.subrange(k, raw.len() as int));
                }
            },
        }
    }
}

/// Turn source text into an expression tree, or the first error met in
/// left-to-right scan order.
pub fn parse_expr(source: &str) -> (r: Result<Expr, ParseError>)
    requires
        source_fits(source@),
    ensures
        r matches Ok(e) ==> spec_parse_expr(source@) == Ok::<SpecExpr, SpecError>(e@),
        r matches Err(pe) ==> spec_parse_expr(source@) == Err::<SpecExpr, SpecError>(pe@),
{
    let tokenizer = Tokenizer::new(source);
    let mut parser = Parser::new(tokenizer);
    proof {
        let raw = spec_tokens_from(source@, 0, 0, 0);
        lemma_tokens_shape_ok(source@, 0, 0, 0);
        assert forall|i: int| 0 <= i < raw.len() implies token_ok(#[trigger] raw[i]) by {
            assert(crate::parse::token_type::token_shape_ok(raw[i]));
        }
        lemma_sig_of_ok(raw);
    }
    parser.parse_expression()
}

} // verus!

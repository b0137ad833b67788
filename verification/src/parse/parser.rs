use vstd::prelude::*;

use crate::ast::expr::BinaryOp;
use crate::ast::expr::Expr;
use crate::ast::expr::Literal;
use crate::ast::expr::SpecExpr;
use crate::ast::expr::UnaryOp;
use crate::ast::expr::leaf_count;
use crate::ast::expr::leaf_count_seq;
use crate::parse::error::ParseError;
use crate::parse::error::SpecError;
use crate::parse::token_type::SpecToken;
use crate::parse::token_type::TokenType;
use crate::parse::token_type::digits_val;
use crate::parse::token_type::is_digit_char;
use crate::parse::token_type::sig_of;
use crate::parse::token_type::significant;
use crate::parse::tokenizer::Tokenizer;
use crate::parse::tokenizer::spec_expect;
use crate::parse::tokenizer::spec_force_advance;

verus! {

/// What one grammar level yields: an expression tree and the tokens it did
/// not consume, or the first error met.
pub type SpecParsed = Result<(SpecExpr, Seq<SpecToken>), SpecError>;

/// What parsing demands of an `Int` token: a non-empty digit lexeme whose
/// value an `i64` can hold. The token patterns guarantee everything but the
/// bound; an integer literal beyond `i64::MAX` is outside the parser's
/// domain, exactly as wide as the machine limit forces.
pub open spec fn token_ok(t: SpecToken) -> bool {
    t.kind == TokenType::Int ==> {
        &&& 1 <= t.lexeme.len()
        &&& forall|j: int| 0 <= j < t.lexeme.len() ==> is_digit_char(#[trigger] t.lexeme[j])
        &&& digits_val(t.lexeme) <= i64::MAX
    }
}

pub open spec fn tokens_ok(ts: Seq<SpecToken>) -> bool {
    forall|i: int| 0 <= i < ts.len() ==> token_ok(#[trigger] ts[i])
}

/// `rest` is what is left of `ts` after consuming some prefix.
pub open spec fn suffix_of(rest: Seq<SpecToken>, ts: Seq<SpecToken>) -> bool {
    &&& rest.len() <= ts.len()
    &&& rest == ts.subrange(ts.len() - rest.len(), ts.len() as int)
}

/// Token kinds that become literal leaves of the tree.
pub open spec fn is_literal_kind(k: TokenType) -> bool {
    k == TokenType::True || k == TokenType::False || k == TokenType::Int
}

/// How many literal tokens a stream holds.
pub open spec fn lit_count(ts: Seq<SpecToken>) -> int
    decreases ts.len(),
{
    if ts.len() == 0 {
        0
    } else {
        (if is_literal_kind(ts[0].kind) {
            1int
        } else {
            0int
        }) + lit_count(ts.subrange(1, ts.len() as int))
    }
}

// The grammar, one spec function per precedence level, lowest first. Each
// level recognizes its operator once and recurses into itself for the
// right-hand operand, so every binary level chains right-associatively; this
// mirrors the executable parser exactly and must be preserved. The
// `rest.len() < ts.len()` tests only justify termination: a successful parse
// always consumes at least one token, as `lemma_parse_expression_props`
// proves, so their other branch is never taken.
//
// expression   := 'if' expression block ('else' expression)?  |  logic_or
// logic_or     := logic_and ( 'or'  logic_or )?
// logic_and    := equality  ( 'and' logic_and )?
// equality     := term      ( ('!='|'==') term )?
// term         := factor    ( ('-'|'+') term )?
// factor       := unary     ( ('/'|'*') factor )?
// unary        := ('not'|'-'|'+') unary | primary
// primary      := 'true' | 'false' | INT | block
// block        := '(' expression ')'   -- open paren consumed by the caller

pub open spec fn spec_parse_expression(ts: Seq<SpecToken>, el: int, ec: int) -> SpecParsed
    decreases ts.len(), 9int,
{
    if ts.len() > 0 && ts[0].kind == TokenType::If {
        spec_parse_if(ts.subrange(1, ts.len() as int), el, ec)
    } else {
        spec_log_or(ts, el, ec)
    }
}

/// The `if` keyword is already consumed: a condition expression, a
/// parenthesized then-branch, and optionally `else` with a full expression.
pub open spec fn spec_parse_if(ts: Seq<SpecToken>, el: int, ec: int) -> SpecParsed
    decreases ts.len(), 10int,
{
    match spec_parse_expression(ts, el, ec) {
        Err(e) => Err(e),
        Ok((cond, r1)) => {
            if r1.len() < ts.len() {
                match spec_expect(r1, TokenType::OpenParen, el, ec) {
                    Err(e) => Err(e),
                    Ok((_open, r2)) => match spec_block(r2, el, ec) {
                        Err(e) => Err(e),
                        Ok((then_e, r3)) => {
                            if r3.len() > 0 && r3[0].kind == TokenType::Else {
                                let r4 = r3.subrange(1, r3.len() as int);
                                if r4.len() < ts.len() {
                                    match spec_parse_expression(r4, el, ec) {
                                        Err(e) => Err(e),
                                        Ok((else_e, r5)) => Ok(
                                            (
                                                SpecExpr::If {
                                                    condition: Box::new(cond),
                                                    then_expr: Box::new(then_e),
                                                    else_expr: Some(Box::new(else_e)),
                                                },
                                                r5,
                                            ),
                                        ),
                                    }
                                } else {
                                    arbitrary()
                                }
                            } else {
                                Ok(
                                    (
                                        SpecExpr::If {
                                            condition: Box::new(cond),
                                            then_expr: Box::new(then_e),
                                            else_expr: None,
                                        },
                                        r3,
                                    ),
                                )
                            }
                        },
                    },
                }
            } else {
                arbitrary()
            }
        },
    }
}

pub open spec fn spec_log_or(ts: Seq<SpecToken>, el: int, ec: int) -> SpecParsed
    decreases ts.len(), 8int,
{
    match spec_log_and(ts, el, ec) {
        Err(e) => Err(e),
        Ok((left, r1)) => {
            if r1.len() > 0 && r1[0].kind == TokenType::Or {
                if r1.len() < ts.len() {
                    match spec_log_or(r1.subrange(1, r1.len() as int), el, ec) {
                        Err(e) => Err(e),
                        Ok((right, r2)) => Ok(
                            (
                                SpecExpr::Binary {
                                    left: Box::new(left),
                                    op: BinaryOp::Or,
                                    right: Box::new(right),
                                },
                                r2,
                            ),
                        ),
                    }
                } else {
                    arbitrary()
                }
            } else {
                Ok((left, r1))
            }
        },
    }
}

pub open spec fn spec_log_and(ts: Seq<SpecToken>, el: int, ec: int) -> SpecParsed
    decreases ts.len(), 7int,
{
    match spec_equality(ts, el, ec) {
        Err(e) => Err(e),
        Ok((left, r1)) => {
            if r1.len() > 0 && r1[0].kind == TokenType::And {
                if r1.len() < ts.len() {
                    match spec_log_and(r1.subrange(1, r1.len() as int), el, ec) {
                        Err(e) => Err(e),
                        Ok((right, r2)) => Ok(
                            (
                                SpecExpr::Binary {
                                    left: Box::new(left),
                                    op: BinaryOp::And,
                                    right: Box::new(right),
                                },
                                r2,
                            ),
                        ),
                    }
                } else {
                    arbitrary()
                }
            } else {
                Ok((left, r1))
            }
        },
    }
}

/// A single comparison: the right-hand operand sits one level up, so
/// comparisons do not chain.
pub open spec fn spec_equality(ts: Seq<SpecToken>, el: int, ec: int) -> SpecParsed
    decreases ts.len(), 6int,
{
    match spec_term(ts, el, ec) {
        Err(e) => Err(e),
        Ok((left, r1)) => {
            if r1.len() > 0 && r1[0].kind == TokenType::BangEqual {
                if r1.len() < ts.len() {
                    match spec_term(r1.subrange(1, r1.len() as int), el, ec) {
                        Err(e) => Err(e),
                        Ok((right, r2)) => Ok(
                            (
                                SpecExpr::Binary {
                                    left: Box::new(left),
                                    op: BinaryOp::NotEqual,
                                    right: Box::new(right),
                                },
                                r2,
                            ),
                        ),
                    }
                } else {
                    arbitrary()
                }
            } else if r1.len() > 0 && r1[0].kind == TokenType::EqualEqual {
                if r1.len() < ts.len() {
                    match spec_term(r1.subrange(1, r1.len() as int), el, ec) {
                        Err(e) => Err(e),
                        Ok((right, r2)) => Ok(
                            (
                                SpecExpr::Binary {
                                    left: Box::new(left),
                                    op: BinaryOp::Equal,
                                    right: Box::new(right),
                                },
                                r2,
                            ),
                        ),
                    }
                } else {
                    arbitrary()
                }
            } else {
                Ok((left, r1))
            }
        },
    }
}

pub open spec fn spec_term(ts: Seq<SpecToken>, el: int, ec: int) -> SpecParsed
    decreases ts.len(), 5int,
{
    match spec_factor(ts, el, ec) {
        Err(e) => Err(e),
        Ok((left, r1)) => {
            if r1.len() > 0 && r1[0].kind == TokenType::Minus {
                if r1.len() < ts.len() {
                    match spec_term(r1.subrange(1, r1.len() as int), el, ec) {
                        Err(e) => Err(e),
                        Ok((right, r2)) => Ok(
                            (
                                SpecExpr::Binary {
                                    left: Box::new(left),
                                    op: BinaryOp::Sub,
                                    right: Box::new(right),
                                },
                                r2,
                            ),
                        ),
                    }
                } else {
                    arbitrary()
                }
            } else if r1.len() > 0 && r1[0].kind == TokenType::Plus {
                if r1.len() < ts.len() {
                    match spec_term(r1.subrange(1, r1.len() as int), el, ec) {
                        Err(e) => Err(e),
                        Ok((right, r2)) => Ok(
                            (
                                SpecExpr::Binary {
                                    left: Box::new(left),
                                    op: BinaryOp::Add,
                                    right: Box::new(right),
                                },
                                r2,
                            ),
                        ),
                    }
                } else {
                    arbitrary()
                }
            } else {
                Ok((left, r1))
            }
        },
    }
}

pub open spec fn spec_factor(ts: Seq<SpecToken>, el: int, ec: int) -> SpecParsed
    decreases ts.len(), 4int,
{
    match spec_unary(ts, el, ec) {
        Err(e) => Err(e),
        Ok((left, r1)) => {
            if r1.len() > 0 && r1[0].kind == TokenType::Slash {
                if r1.len() < ts.len() {
                    match spec_factor(r1.subrange(1, r1.len() as int), el, ec) {
                        Err(e) => Err(e),
                        Ok((right, r2)) => Ok(
                            (
                                SpecExpr::Binary {
                                    left: Box::new(left),
                                    op: BinaryOp::Div,
                                    right: Box::new(right),
                                },
                                r2,
                            ),
                        ),
                    }
                } else {
                    arbitrary()
                }
            } else if r1.len() > 0 && r1[0].kind == TokenType::Star {
                if r1.len() < ts.len() {
                    match spec_factor(r1.subrange(1, r1.len() as int), el, ec) {
                        Err(e) => Err(e),
                        Ok((right, r2)) => Ok(
                            (
                                SpecExpr::Binary {
                                    left: Box::new(left),
                                    op: BinaryOp::Mult,
                                    right: Box::new(right),
                                },
                                r2,
                            ),
                        ),
                    }
                } else {
                    arbitrary()
                }
            } else {
                Ok((left, r1))
            }
        },
    }
}

pub open spec fn spec_unary(ts: Seq<SpecToken>, el: int, ec: int) -> SpecParsed
    decreases ts.len(), 3int,
{
    if ts.len() > 0 && ts[0].kind == TokenType::Not {
        match spec_unary(ts.subrange(1, ts.len() as int), el, ec) {
            Err(e) => Err(e),
            Ok((right, rest)) => Ok(
                (SpecExpr::Unary { op: UnaryOp::Not, right: Box::new(right) }, rest),
            ),
        }
    } else if ts.len() > 0 && ts[0].kind == TokenType::Minus {
        match spec_unary(ts.subrange(1, ts.len() as int), el, ec) {
            Err(e) => Err(e),
            Ok((right, rest)) => Ok(
                (SpecExpr::Unary { op: UnaryOp::Neg, right: Box::new(right) }, rest),
            ),
        }
    } else if ts.len() > 0 && ts[0].kind == TokenType::Plus {
        match spec_unary(ts.subrange(1, ts.len() as int), el, ec) {
            Err(e) => Err(e),
            Ok((right, rest)) => Ok(
                (SpecExpr::Unary { op: UnaryOp::Pos, right: Box::new(right) }, rest),
            ),
        }
    } else {
        spec_primary(ts, el, ec)
    }
}

/// One token decides: a boolean keyword, an integer literal, an opening
/// parenthesis starting a block, or the failure naming what was expected.
pub open spec fn spec_primary(ts: Seq<SpecToken>, el: int, ec: int) -> SpecParsed
    decreases ts.len(), 2int,
{
    match spec_force_advance(ts, el, ec) {
        Err(e) => Err(e),
        Ok((t, rest)) => match t.kind {
            TokenType::False => Ok((SpecExpr::Literal(Literal::Bool(false)), rest)),
            TokenType::True => Ok((SpecExpr::Literal(Literal::Bool(true)), rest)),
            TokenType::Int => Ok(
                (SpecExpr::Literal(Literal::Int(digits_val(t.lexeme) as i64)), rest),
            ),
            TokenType::OpenParen => if rest.len() < ts.len() {
                spec_block(rest, el, ec)
            } else {
                arbitrary()
            },
            _ => Err(
                SpecError::UnexpectedToken {
                    expected: "primary expression"@,
                    actual: t.kind,
                    lexeme: t.lexeme,
                    line: t.line,
                    col: t.col,
                },
            ),
        },
    }
}

/// The opening delimiter is already consumed: exactly one expression, then
/// the closing parenthesis.
pub open spec fn spec_block(ts: Seq<SpecToken>, el: int, ec: int) -> SpecParsed
    decreases ts.len(), 11int,
{
    match spec_parse_expression(ts, el, ec) {
        Err(e) => Err(e),
        Ok((e, r1)) => match spec_expect(r1, TokenType::CloseParen, el, ec) {
            Err(e2) => Err(e2),
            Ok((_close, r2)) => Ok((SpecExpr::Block(seq![e]), r2)),
        },
    }
}

/// The executable result and the tokens left behind agree with what the
/// grammar level says: the same tree on success, the same error on failure.
pub open spec fn agrees_with(
    r: Result<Expr, ParseError>,
    sp: SpecParsed,
    post: Seq<SpecToken>,
) -> bool {
    match r {
        Ok(e) => sp == Ok::<(SpecExpr, Seq<SpecToken>), SpecError>((e@, post)),
        Err(pe) => sp == Err::<(SpecExpr, Seq<SpecToken>), SpecError>(pe@),
    }
}

pub proof fn lemma_suffix_drop_first(ts: Seq<SpecToken>)
    requires
        ts.len() > 0,
    ensures
        suffix_of(ts.subrange(1, ts.len() as int), ts),
{
    assert(ts.subrange(1, ts.len() as int) =~= ts.subrange(
        ts.len() - ts.subrange(1, ts.len() as int).len(),
        ts.len() as int,
    ));
}

pub proof fn lemma_suffix_trans(a: Seq<SpecToken>, b: Seq<SpecToken>, c: Seq<SpecToken>)
    requires
        suffix_of(b, a),
        suffix_of(c, b),
    ensures
        suffix_of(c, a),
{
    assert(c =~= a.subrange(a.len() - c.len(), a.len() as int));
}

/// Well-formedness of the tokens carries over to any suffix.
pub proof fn lemma_tokens_ok_suffix(ts: Seq<SpecToken>, rest: Seq<SpecToken>)
    requires
        tokens_ok(ts),
        suffix_of(rest, ts),
    ensures
        tokens_ok(rest),
{
    assert forall|i: int| 0 <= i < rest.len() implies token_ok(#[trigger] rest[i]) by {
        assert(rest[i] == ts[i + ts.len() - rest.len()]);
    }
}

pub proof fn lemma_lit_count_nonneg(ts: Seq<SpecToken>)
    ensures
        0 <= lit_count(ts),
    decreases ts.len(),
{
    if ts.len() > 0 {
        lemma_lit_count_nonneg(ts.subrange(1, ts.len() as int));
    }
}

// The structural facts about the grammar, one lemma per level, proved by the
// same mutual recursion as the definitions: a successful parse consumes at
// least one token, leaves a suffix of its input, and builds a tree with
// exactly one leaf per literal token consumed.

pub proof fn lemma_parse_expression_props(ts: Seq<SpecToken>, el: int, ec: int)
    ensures
        spec_parse_expression(ts, el, ec) matches Ok(p) ==> {
            &&& suffix_of(p.1, ts)
            &&& p.1.len() < ts.len()
            &&& leaf_count(p.0) == lit_count(ts) - lit_count(p.1)
        },
    decreases ts.len(), 9int,
{
    if ts.len() > 0 && ts[0].kind == TokenType::If {
        let r1 = ts.subrange(1, ts.len() as int);
        lemma_parse_if_props(r1, el, ec);
        lemma_suffix_drop_first(ts);
        match spec_parse_if(r1, el, ec) {
            Err(_) => {},
            Ok((_e, rest)) => {
                lemma_suffix_trans(ts, r1, rest);
            },
        }
    } else {
        lemma_log_or_props(ts, el, ec);
    }
}

pub proof fn lemma_parse_if_props(ts: Seq<SpecToken>, el: int, ec: int)
    ensures
        spec_parse_if(ts, el, ec) matches Ok(p) ==> {
            &&& suffix_of(p.1, ts)
            &&& p.1.len() < ts.len()
            &&& leaf_count(p.0) == lit_count(ts) - lit_count(p.1)
        },
    decreases ts.len(), 10int,
{
    lemma_parse_expression_props(ts, el, ec);
    match spec_parse_expression(ts, el, ec) {
        Err(_) => {},
        Ok((cond, r1)) => {
            match spec_expect(r1, TokenType::OpenParen, el, ec) {
                Err(_) => {},
                Ok((_open, r2)) => {
                    lemma_suffix_drop_first(r1);
                    lemma_suffix_trans(ts, r1, r2);
                    lemma_block_props(r2, el, ec);
                    match spec_block(r2, el, ec) {
                        Err(_) => {},
                        Ok((then_e, r3)) => {
                            lemma_suffix_trans(ts, r2, r3);
                            if r3.len() > 0 && r3[0].kind == TokenType::Else {
                                let r4 = r3.subrange(1, r3.len() as int);
                                lemma_suffix_drop_first(r3);
                                lemma_suffix_trans(ts, r3, r4);
                                lemma_parse_expression_props(r4, el, ec);
                                match spec_parse_expression(r4, el, ec) {
                                    Err(_) => {},
                                    Ok((_else_e, r5)) => {
                                        lemma_suffix_trans(ts, r4, r5);
                                    },
                                }
                            }
                        },
                    }
                },
            }
        },
    }
}

pub proof fn lemma_log_or_props(ts: Seq<SpecToken>, el: int, ec: int)
    ensures
        spec_log_or(ts, el, ec) matches Ok(p) ==> {
            &&& suffix_of(p.1, ts)
            &&& p.1.len() < ts.len()
            &&& leaf_count(p.0) == lit_count(ts) - lit_count(p.1)
        },
    decreases ts.len(), 8int,
{
    lemma_log_and_props(ts, el, ec);
    match spec_log_and(ts, el, ec) {
        Err(_) => {},
        Ok((_left, r1)) => {
            if r1.len() > 0 && r1[0].kind == TokenType::Or {
                let r2 = r1.subrange(1, r1.len() as int);
                lemma_suffix_drop_first(r1);
                lemma_suffix_trans(ts, r1, r2);
                lemma_log_or_props(r2, el, ec);
                match spec_log_or(r2, el, ec) {
                    Err(_) => {},
                    Ok((_right, r3)) => {
                        lemma_suffix_trans(ts, r2, r3);
                    },
                }
            }
        },
    }
}

pub proof fn lemma_log_and_props(ts: Seq<SpecToken>, el: int, ec: int)
    ensures
        spec_log_and(ts, el, ec) matches Ok(p) ==> {
            &&& suffix_of(p.1, ts)
            &&& p.1.len() < ts.len()
            &&& leaf_count(p.0) == lit_count(ts) - lit_count(p.1)
        },
    decreases ts.len(), 7int,
{
    lemma_equality_props(ts, el, ec);
    match spec_equality(ts, el, ec) {
        Err(_) => {},
        Ok((_left, r1)) => {
            if r1.len() > 0 && r1[0].kind == TokenType::And {
                let r2 = r1.subrange(1, r1.len() as int);
                lemma_suffix_drop_first(r1);
                lemma_suffix_trans(ts, r1, r2);
                lemma_log_and_props(r2, el, ec);
                match spec_log_and(r2, el, ec) {
                    Err(_) => {},
                    Ok((_right, r3)) => {
                        lemma_suffix_trans(ts, r2, r3);
                    },
                }
            }
        },
    }
}

pub proof fn lemma_equality_props(ts: Seq<SpecToken>, el: int, ec: int)
    ensures
        spec_equality(ts, el, ec) matches Ok(p) ==> {
            &&& suffix_of(p.1, ts)
            &&& p.1.len() < ts.len()
            &&& leaf_count(p.0) == lit_count(ts) - lit_count(p.1)
        },
    decreases ts.len(), 6int,
{
    lemma_term_props(ts, el, ec);
    match spec_term(ts, el, ec) {
        Err(_) => {},
        Ok((_left, r1)) => {
            if r1.len() > 0 && (r1[0].kind == TokenType::BangEqual || r1[0].kind
                == TokenType::EqualEqual) {
                let r2 = r1.subrange(1, r1.len() as int);
                lemma_suffix_drop_first(r1);
                lemma_suffix_trans(ts, r1, r2);
                lemma_term_props(r2, el, ec);
                match spec_term(r2, el, ec) {
                    Err(_) => {},
                    Ok((_right, r3)) => {
                        lemma_suffix_trans(ts, r2, r3);
                    },
                }
            }
        },
    }
}

pub proof fn lemma_term_props(ts: Seq<SpecToken>, el: int, ec: int)
    ensures
        spec_term(ts, el, ec) matches Ok(p) ==> {
            &&& suffix_of(p.1, ts)
            &&& p.1.len() < ts.len()
            &&& leaf_count(p.0) == lit_count(ts) - lit_count(p.1)
        },
    decreases ts.len(), 5int,
{
    lemma_factor_props(ts, el, ec);
    match spec_factor(ts, el, ec) {
        Err(_) => {},
        Ok((_left, r1)) => {
            if r1.len() > 0 && (r1[0].kind == TokenType::Minus || r1[0].kind == TokenType::Plus) {
                let r2 = r1.subrange(1, r1.len() as int);
                lemma_suffix_drop_first(r1);
                lemma_suffix_trans(ts, r1, r2);
                lemma_term_props(r2, el, ec);
                match spec_term(r2, el, ec) {
                    Err(_) => {},
                    Ok((_right, r3)) => {
                        lemma_suffix_trans(ts, r2, r3);
                    },
                }
            }
        },
    }
}

pub proof fn lemma_factor_props(ts: Seq<SpecToken>, el: int, ec: int)
    ensures
        spec_factor(ts, el, ec) matches Ok(p) ==> {
            &&& suffix_of(p.1, ts)
            &&& p.1.len() < ts.len()
            &&& leaf_count(p.0) == lit_count(ts) - lit_count(p.1)
        },
    decreases ts.len(), 4int,
{
    lemma_unary_props(ts, el, ec);
    match spec_unary(ts, el, ec) {
        Err(_) => {},
        Ok((_left, r1)) => {
            if r1.len() > 0 && (r1[0].kind == TokenType::Slash || r1[0].kind == TokenType::Star) {
                let r2 = r1.subrange(1, r1.len() as int);
                lemma_suffix_drop_first(r1);
                lemma_suffix_trans(ts, r1, r2);
                lemma_factor_props(r2, el, ec);
                match spec_factor(r2, el, ec) {
                    Err(_) => {},
                    Ok((_right, r3)) => {
                        lemma_suffix_trans(ts, r2, r3);
                    },
                }
            }
        },
    }
}

pub proof fn lemma_unary_props(ts: Seq<SpecToken>, el: int, ec: int)
    ensures
        spec_unary(ts, el, ec) matches Ok(p) ==> {
            &&& suffix_of(p.1, ts)
            &&& p.1.len() < ts.len()
            &&& leaf_count(p.0) == lit_count(ts) - lit_count(p.1)
        },
    decreases ts.len(), 3int,
{
    if ts.len() > 0 && (ts[0].kind == TokenType::Not || ts[0].kind == TokenType::Minus || ts[0].kind
        == TokenType::Plus) {
        let r1 = ts.subrange(1, ts.len() as int);
        lemma_suffix_drop_first(ts);
        lemma_unary_props(r1, el, ec);
        match spec_unary(r1, el, ec) {
            Err(_) => {},
            Ok((_right, rest)) => {
                lemma_suffix_trans(ts, r1, rest);
            },
        }
    } else {
        lemma_primary_props(ts, el, ec);
    }
}

pub proof fn lemma_primary_props(ts: Seq<SpecToken>, el: int, ec: int)
    ensures
        spec_primary(ts, el, ec) matches Ok(p) ==> {
            &&& suffix_of(p.1, ts)
            &&& p.1.len() < ts.len()
            &&& leaf_count(p.0) == lit_count(ts) - lit_count(p.1)
        },
    decreases ts.len(), 2int,
{
    match spec_force_advance(ts, el, ec) {
        Err(_) => {},
        Ok((t, rest)) => {
            lemma_suffix_drop_first(ts);
            if t.kind == TokenType::OpenParen {
                lemma_block_props(rest, el, ec);
                match spec_block(rest, el, ec) {
                    Err(_) => {},
                    Ok((_e, r2)) => {
                        lemma_suffix_trans(ts, rest, r2);
                    },
                }
            }
        },
    }
}

pub proof fn lemma_block_props(ts: Seq<SpecToken>, el: int, ec: int)
    ensures
        spec_block(ts, el, ec) matches Ok(p) ==> {
            &&& suffix_of(p.1, ts)
            &&& p.1.len() < ts.len()
            &&& leaf_count(p.0) == lit_count(ts) - lit_count(p.1)
        },
    decreases ts.len(), 11int,
{
    lemma_parse_expression_props(ts, el, ec);
    match spec_parse_expression(ts, el, ec) {
        Err(_) => {},
        Ok((e, r1)) => {
            match spec_expect(r1, TokenType::CloseParen, el, ec) {
                Err(_) => {},
                Ok((_close, r2)) => {
                    lemma_suffix_drop_first(r1);
                    lemma_suffix_trans(ts, r1, r2);
                    reveal_with_fuel(leaf_count_seq, 2);
                    assert((seq![e]).subrange(1, 1) =~= Seq::<SpecExpr>::empty());
                    assert(leaf_count_seq(seq![e]) == leaf_count(e));
                },
            }
        },
    }
}

/// Law: on any stream of significant tokens the grammar gives a verdict (the
/// grammar functions are total, and the parser they specify terminates), and
/// a successful parse leaves a suffix of the stream and returns a tree with
/// exactly one leaf for every literal token — `true`, `false`, or an integer
/// literal — that it consumed.
pub proof fn lemma_parse_leaf_count(ts: Seq<SpecToken>, el: int, ec: int)
    ensures
        spec_parse_expression(ts, el, ec) matches Ok(p) ==> {
            &&& suffix_of(p.1, ts)
            &&& leaf_count(p.0) == lit_count(ts) - lit_count(p.1)
            &&& 0 <= leaf_count(p.0) <= lit_count(ts)
        },
{
    lemma_parse_expression_props(ts, el, ec);
    match spec_parse_expression(ts, el, ec) {
        Err(_) => {},
        Ok((e, rest)) => {
            crate::ast::expr::lemma_leaf_count_nonneg(e);
            lemma_lit_count_nonneg(rest);
        },
    }
}

/// Significant tokens are among the raw tokens, so what holds of every raw
/// token holds of every significant one.
pub proof fn lemma_sig_of_ok(ts: Seq<SpecToken>)
    requires
        forall|i: int| 0 <= i < ts.len() ==> token_ok(#[trigger] ts[i]),
    ensures
        tokens_ok(sig_of(ts)),
    decreases ts.len(),
{
    if ts.len() > 0 {
        let rest = ts.subrange(1, ts.len() as int);
        assert forall|i: int| 0 <= i < rest.len() implies token_ok(#[trigger] rest[i]) by {
            assert(rest[i] == ts[i + 1]);
        }
        lemma_sig_of_ok(rest);
        if significant(ts[0]) {
            assert forall|i: int| 0 <= i < sig_of(ts).len() implies token_ok(
                #[trigger] sig_of(ts)[i],
            ) by {
                if i == 0 {
                    assert(sig_of(ts)[0] == ts[0]);
                } else {
                    assert(sig_of(ts)[i] == sig_of(rest)[i - 1]);
                }
            }
        }
    }
}

proof fn lemma_digits_val_nonneg(l: Seq<char>)
    requires
        forall|j: int| 0 <= j < l.len() ==> is_digit_char(#[trigger] l[j]),
    ensures
        0 <= digits_val(l),
    decreases l.len(),
{
    if l.len() > 0 {
        let p = l.subrange(0, l.len() - 1);
        assert forall|j: int| 0 <= j < p.len() implies is_digit_char(#[trigger] p[j]) by {
            assert(p[j] == l[j]);
        }
        lemma_digits_val_nonneg(p);
    }
}

/// The value of a digit string bounds the value of each of its prefixes.
proof fn lemma_digits_val_prefix(l: Seq<char>, k: int)
    requires
        0 <= k <= l.len(),
        forall|j: int| 0 <= j < l.len() ==> is_digit_char(#[trigger] l[j]),
    ensures
        0 <= digits_val(l.subrange(0, k)) <= digits_val(l),
    decreases l.len() - k,
{
    let p = l.subrange(0, k);
    assert forall|j: int| 0 <= j < p.len() implies is_digit_char(#[trigger] p[j]) by {
        assert(p[j] == l[j]);
    }
    lemma_digits_val_nonneg(p);
    if k < l.len() {
        let p1 = l.subrange(0, k + 1);
        assert(p1.subrange(0, k) =~= p);
        assert(p1.last() == l[k]);
        assert(digits_val(p1) == digits_val(p) * 10 + (l[k] as u32 - 48));
        lemma_digits_val_prefix(l, k + 1);
    } else {
        assert(p =~= l);
    }
}

/// Whether the value of a digit lexeme stays within `i64`, decided without
/// ever overflowing: one digit of headroom is checked before each step.
pub(crate) fn digits_fit(lex: &String) -> (b: bool)
    requires
        forall|j: int| 0 <= j < lex@.len() ==> is_digit_char(#[trigger] lex@[j]),
    ensures
        b == (digits_val(lex@) <= i64::MAX),
{
    let ghost l = lex@;
    let n = lex.as_str().unicode_len();
    let mut acc: i64 = 0;
    let mut j: usize = 0;
    proof {
        assert(l.subrange(0, 0) =~= Seq::<char>::empty());
    }
    while j < n
        invariant
            lex@ == l,
            n == l.len(),
            j <= n,
            forall|jj: int| 0 <= jj < l.len() ==> is_digit_char(#[trigger] l[jj]),
            acc as int == digits_val(l.subrange(0, j as int)),
            0 <= acc,
        decreases n - j,
    {
        let c = lex.as_str().get_char(j);
        let d = (c as u32) as i64 - 48;
        proof {
            assert(l.subrange(0, j as int + 1).subrange(0, j as int) =~= l.subrange(0, j as int));
            assert(l.subrange(0, j as int + 1).last() == l[j as int]);
        }
        if acc > 922337203685477580i64 || (acc == 922337203685477580i64 && d > 7) {
            proof {
                lemma_digits_val_prefix(l, j as int + 1);
            }
            return false;
        }
        acc = acc * 10 + d;
        j = j + 1;
    }
    proof {
        assert(l.subrange(0, n as int) =~= l);
    }
    true
}

/// Numeric value of a digit lexeme, as `primary` reads an integer literal.
fn parse_digits(lex: &String) -> (v: i64)
    requires
        1 <= lex@.len(),
        forall|j: int| 0 <= j < lex@.len() ==> is_digit_char(#[trigger] lex@[j]),
        digits_val(lex@) <= i64::MAX,
    ensures
        v as int == digits_val(lex@),
{
    let ghost l = lex@;
    let n = lex.as_str().unicode_len();
    let mut acc: i64 = 0;
    let mut j: usize = 0;
    proof {
        assert(l.subrange(0, 0) =~= Seq::<char>::empty());
    }
    while j < n
        invariant
            lex@ == l,
            n == l.len(),
            j <= n,
            forall|jj: int| 0 <= jj < l.len() ==> is_digit_char(#[trigger] l[jj]),
            digits_val(l) <= i64::MAX,
            acc as int == digits_val(l.subrange(0, j as int)),
            0 <= acc,
        decreases n - j,
    {
        let c = lex.as_str().get_char(j);
        proof {
            lemma_digits_val_prefix(l, j as int + 1);
            assert(l.subrange(0, j as int + 1).subrange(0, j as int) =~= l.subrange(0, j as int));
            assert(l.subrange(0, j as int + 1).last() == l[j as int]);
            assert(digits_val(l.subrange(0, j as int + 1)) == acc as int * 10 + (c as u32 - 48));
        }
        let d = (c as u32) as i64 - 48;
        acc = acc * 10 + d;
        j = j + 1;
    }
    proof {
        assert(l.subrange(0, n as int) =~= l);
    }
    acc
}

/// Recursive-descent parser over a `Tokenizer`: one method per grammar
/// level, and the call stack is the parser's only state.
pub struct Parser {
    tokenizer: Tokenizer,
}

impl Parser {
    /// The significant tokens not yet consumed.
    pub closed spec fn toks(self) -> Seq<SpecToken> {
        self.tokenizer.toks()
    }

    /// Line counter at end of input, where `Eof` is reported.
    pub closed spec fn end_line(self) -> int {
        self.tokenizer.end_line()
    }

    /// Column counter at end of input, where `Eof` is reported.
    pub closed spec fn end_col(self) -> int {
        self.tokenizer.end_col()
    }

    /// View of the source text being parsed.
    pub closed spec fn src_view(self) -> Seq<char> {
        self.tokenizer.src_view()
    }

    pub closed spec fn wf(self) -> bool {
        self.tokenizer.wf()
    }

    pub fn new(tokenizer: Tokenizer) -> (p: Self)
        ensures
            p.wf() == tokenizer.wf(),
            p.toks() == tokenizer.toks(),
            p.end_line() == tokenizer.end_line(),
            p.end_col() == tokenizer.end_col(),
            p.src_view() == tokenizer.src_view(),
    {
        Self { tokenizer }
    }

    /// Parse one expression: an `if` expression, or a binary expression
    /// chain starting at the lowest precedence level.
    pub fn parse_expression(&mut self) -> (r: Result<Expr, ParseError>)
        requires
            old(self).wf(),
            tokens_ok(old(self).toks()),
        ensures
            final(self).wf(),
            final(self).src_view() == old(self).src_view(),
            final(self).end_line() == old(self).end_line(),
            final(self).end_col() == old(self).end_col(),
            agrees_with(
                r,
                spec_parse_expression(old(self).toks(), old(self).end_line(), old(self).end_col()),
                final(self).toks(),
            ),
        decreases old(self).toks().len(), 9int,
    {
        let ghost ts = old(self).toks();
        if self.match_next(TokenType::If) {
            proof {
                lemma_suffix_drop_first(ts);
                lemma_tokens_ok_suffix(ts, self.toks());
            }
            self.parse_if()
        } else {
            self.log_or()
        }
    }

    /// The `if` token must already be consumed.
    fn parse_if(&mut self) -> (r: Result<Expr, ParseError>)
        requires
            old(self).wf(),
            tokens_ok(old(self).toks()),
        ensures
            final(self).wf(),
            final(self).src_view() == old(self).src_view(),
            final(self).end_line() == old(self).end_line(),
            final(self).end_col() == old(self).end_col(),
            agrees_with(
                r,
                spec_parse_if(old(self).toks(), old(self).end_line(), old(self).end_col()),
                final(self).toks(),
            ),
        decreases old(self).toks().len(), 10int,
    {
        let ghost ts = old(self).toks();
        let ghost el = old(self).end_line();
        let ghost ec = old(self).end_col();
        let condition = match self.parse_expression() {
            Ok(e) => e,
            Err(e) => {
                return Err(e);
            },
        };
        proof {
            lemma_parse_expression_props(ts, el, ec);
            lemma_tokens_ok_suffix(ts, self.toks());
        }
        let ghost r1 = self.toks();
        match self.tokenizer.expect(TokenType::OpenParen) {
            Err(e) => {
                return Err(e);
            },
            Ok(_open) => {},
        }
        proof {
            lemma_suffix_drop_first(r1);
            lemma_tokens_ok_suffix(r1, self.toks());
        }
        let ghost r2 = self.toks();
        let then_e = match self.block() {
            Ok(e) => e,
            Err(e) => {
                return Err(e);
            },
        };
        proof {
            lemma_block_props(r2, el, ec);
            lemma_tokens_ok_suffix(r2, self.toks());
        }
        let ghost r3 = self.toks();
        let else_e = if self.match_next(TokenType::Else) {
            proof {
                lemma_suffix_drop_first(r3);
                lemma_tokens_ok_suffix(r3, self.toks());
            }
            match self.parse_expression() {
                Ok(e) => Some(e),
                Err(e) => {
                    return Err(e);
                },
            }
        } else {
            None
        };
        Ok(Expr::ifthen(condition, then_e, else_e))
    }

    fn log_or(&mut self) -> (r: Result<Expr, ParseError>)
        requires
            old(self).wf(),
            tokens_ok(old(self).toks()),
        ensures
            final(self).wf(),
            final(self).src_view() == old(self).src_view(),
            final(self).end_line() == old(self).end_line(),
            final(self).end_col() == old(self).end_col(),
            agrees_with(
                r,
                spec_log_or(old(self).toks(), old(self).end_line(), old(self).end_col()),
                final(self).toks(),
            ),
        decreases old(self).toks().len(), 8int,
    {
        let ghost ts = old(self).toks();
        let ghost el = old(self).end_line();
        let ghost ec = old(self).end_col();
        let left = match self.log_and() {
            Ok(e) => e,
            Err(e) => {
                return Err(e);
            },
        };
        proof {
            lemma_log_and_props(ts, el, ec);
            lemma_tokens_ok_suffix(ts, self.toks());
        }
        let ghost r1 = self.toks();
        if self.match_next(TokenType::Or) {
            proof {
                lemma_suffix_drop_first(r1);
                lemma_tokens_ok_suffix(r1, self.toks());
            }
            let right = match self.log_or() {
                Ok(e) => e,
                Err(e) => {
                    return Err(e);
                },
            };
            return Ok(Expr::binary(left, BinaryOp::Or, right));
        }
        Ok(left)
    }

    fn log_and(&mut self) -> (r: Result<Expr, ParseError>)
        requires
            old(self).wf(),
            tokens_ok(old(self).toks()),
        ensures
            final(self).wf(),
            final(self).src_view() == old(self).src_view(),
            final(self).end_line() == old(self).end_line(),
            final(self).end_col() == old(self).end_col(),
            agrees_with(
                r,
                spec_log_and(old(self).toks(), old(self).end_line(), old(self).end_col()),
                final(self).toks(),
            ),
        decreases old(self).toks().len(), 7int,
    {
        let ghost ts = old(self).toks();
        let ghost el = old(self).end_line();
        let ghost ec = old(self).end_col();
        let left = match self.equality() {
            Ok(e) => e,
            Err(e) => {
                return Err(e);
            },
        };
        proof {
            lemma_equality_props(ts, el, ec);
            lemma_tokens_ok_suffix(ts, self.toks());
        }
        let ghost r1 = self.toks();
        if self.match_next(TokenType::And) {
            proof {
                lemma_suffix_drop_first(r1);
                lemma_tokens_ok_suffix(r1, self.toks());
            }
            let right = match self.log_and() {
                Ok(e) => e,
                Err(e) => {
                    return Err(e);
                },
            };
            return Ok(Expr::binary(left, BinaryOp::And, right));
        }
        Ok(left)
    }

    fn equality(&mut self) -> (r: Result<Expr, ParseError>)
        requires
            old(self).wf(),
            tokens_ok(old(self).toks()),
        ensures
            final(self).wf(),
            final(self).src_view() == old(self).src_view(),
            final(self).end_line() == old(self).end_line(),
            final(self).end_col() == old(self).end_col(),
            agrees_with(
                r,
                spec_equality(old(self).toks(), old(self).end_line(), old(self).end_col()),
                final(self).toks(),
            ),
        decreases old(self).toks().len(), 6int,
    {
        let ghost ts = old(self).toks();
        let ghost el = old(self).end_line();
        let ghost ec = old(self).end_col();
        let left = match self.term() {
            Ok(e) => e,
            Err(e) => {
                return Err(e);
            },
        };
        proof {
            lemma_term_props(ts, el, ec);
            lemma_tokens_ok_suffix(ts, self.toks());
        }
        let ghost r1 = self.toks();
        if self.match_next(TokenType::BangEqual) {
            proof {
                lemma_suffix_drop_first(r1);
                lemma_tokens_ok_suffix(r1, self.toks());
            }
            let right = match self.term() {
                Ok(e) => e,
                Err(e) => {
                    return Err(e);
                },
            };
            return Ok(Expr::binary(left, BinaryOp::NotEqual, right));
        }
        if self.match_next(TokenType::EqualEqual) {
            proof {
                lemma_suffix_drop_first(r1);
                lemma_tokens_ok_suffix(r1, self.toks());
            }
            let right = match self.term() {
                Ok(e) => e,
                Err(e) => {
                    return Err(e);
                },
            };
            return Ok(Expr::binary(left, BinaryOp::Equal, right));
        }
        Ok(left)
    }

    fn term(&mut self) -> (r: Result<Expr, ParseError>)
        requires
            old(self).wf(),
            tokens_ok(old(self).toks()),
        ensures
            final(self).wf(),
            final(self).src_view() == old(self).src_view(),
            final(self).end_line() == old(self).end_line(),
            final(self).end_col() == old(self).end_col(),
            agrees_with(
                r,
                spec_term(old(self).toks(), old(self).end_line(), old(self).end_col()),
                final(self).toks(),
            ),
        decreases old(self).toks().len(), 5int,
    {
        let ghost ts = old(self).toks();
        let ghost el = old(self).end_line();
        let ghost ec = old(self).end_col();
        let left = match self.factor() {
            Ok(e) => e,
            Err(e) => {
                return Err(e);
            },
        };
        proof {
            lemma_factor_props(ts, el, ec);
            lemma_tokens_ok_suffix(ts, self.toks());
        }
        let ghost r1 = self.toks();
        if self.match_next(TokenType::Minus) {
            proof {
                lemma_suffix_drop_first(r1);
                lemma_tokens_ok_suffix(r1, self.toks());
            }
            let right = match self.term() {
                Ok(e) => e,
                Err(e) => {
                    return Err(e);
                },
            };
            return Ok(Expr::binary(left, BinaryOp::Sub, right));
        }
        if self.match_next(TokenType::Plus) {
            proof {
                lemma_suffix_drop_first(r1);
                lemma_tokens_ok_suffix(r1, self.toks());
            }
            let right = match self.term() {
                Ok(e) => e,
                Err(e) => {
                    return Err(e);
                },
            };
            return Ok(Expr::binary(left, BinaryOp::Add, right));
        }
        Ok(left)
    }

    fn factor(&mut self) -> (r: Result<Expr, ParseError>)
        requires
            old(self).wf(),
            tokens_ok(old(self).toks()),
        ensures
            final(self).wf(),
            final(self).src_view() == old(self).src_view(),
            final(self).end_line() == old(self).end_line(),
            final(self).end_col() == old(self).end_col(),
            agrees_with(
                r,
                spec_factor(old(self).toks(), old(self).end_line(), old(self).end_col()),
                final(self).toks(),
            ),
        decreases old(self).toks().len(), 4int,
    {
        let ghost ts = old(self).toks();
        let ghost el = old(self).end_line();
        let ghost ec = old(self).end_col();
        let left = match self.unary() {
            Ok(e) => e,
            Err(e) => {
                return Err(e);
            },
        };
        proof {
            lemma_unary_props(ts, el, ec);
            lemma_tokens_ok_suffix(ts, self.toks());
        }
        let ghost r1 = self.toks();
        if self.match_next(TokenType::Slash) {
            proof {
                lemma_suffix_drop_first(r1);
                lemma_tokens_ok_suffix(r1, self.toks());
            }
            let right = match self.factor() {
                Ok(e) => e,
                Err(e) => {
                    return Err(e);
                },
            };
            return Ok(Expr::binary(left, BinaryOp::Div, right));
        }
        if self.match_next(TokenType::Star) {
            proof {
                lemma_suffix_drop_first(r1);
                lemma_tokens_ok_suffix(r1, self.toks());
            }
            let right = match self.factor() {
                Ok(e) => e,
                Err(e) => {
                    return Err(e);
                },
            };
            return Ok(Expr::binary(left, BinaryOp::Mult, right));
        }
        Ok(left)
    }

    fn unary(&mut self) -> (r: Result<Expr, ParseError>)
        requires
            old(self).wf(),
            tokens_ok(old(self).toks()),
        ensures
            final(self).wf(),
            final(self).src_view() == old(self).src_view(),
            final(self).end_line() == old(self).end_line(),
            final(self).end_col() == old(self).end_col(),
            agrees_with(
                r,
                spec_unary(old(self).toks(), old(self).end_line(), old(self).end_col()),
                final(self).toks(),
            ),
        decreases old(self).toks().len(), 3int,
    {
        let ghost ts = old(self).toks();
        if self.match_next(TokenType::Not) {
            proof {
                lemma_suffix_drop_first(ts);
                lemma_tokens_ok_suffix(ts, self.toks());
            }
            let right = match self.unary() {
                Ok(e) => e,
                Err(e) => {
                    return Err(e);
                },
            };
            return Ok(Expr::unary(UnaryOp::Not, right));
        }
        if self.match_next(TokenType::Minus) {
            proof {
                lemma_suffix_drop_first(ts);
                lemma_tokens_ok_suffix(ts, self.toks());
            }
            let right = match self.unary() {
                Ok(e) => e,
                Err(e) => {
                    return Err(e);
                },
            };
            return Ok(Expr::unary(UnaryOp::Neg, right));
        }
        if self.match_next(TokenType::Plus) {
            proof {
                lemma_suffix_drop_first(ts);
                lemma_tokens_ok_suffix(ts, self.toks());
            }
            let right = match self.unary() {
                Ok(e) => e,
                Err(e) => {
                    return Err(e);
                },
            };
            return Ok(Expr::unary(UnaryOp::Pos, right));
        }
        self.primary()
    }

    fn primary(&mut self) -> (r: Result<Expr, ParseError>)
        requires
            old(self).wf(),
            tokens_ok(old(self).toks()),
        ensures
            final(self).wf(),
            final(self).src_view() == old(self).src_view(),
            final(self).end_line() == old(self).end_line(),
            final(self).end_col() == old(self).end_col(),
            agrees_with(
                r,
                spec_primary(old(self).toks(), old(self).end_line(), old(self).end_col()),
                final(self).toks(),
            ),
        decreases old(self).toks().len(), 2int,
    {
        let ghost ts = old(self).toks();
        let token = match self.tokenizer.force_advance() {
            Ok(t) => t,
            Err(e) => {
                return Err(e);
            },
        };
        match token.token_type {
            TokenType::False => Ok(Expr::bool(false)),
            TokenType::True => Ok(Expr::bool(true)),
            TokenType::Int => {
                proof {
                    assert(token_ok(ts[0]));
                }
                let i = parse_digits(&token.data.lexeme);
                Ok(Expr::integer(i))
            },
            TokenType::OpenParen => {
                proof {
                    lemma_suffix_drop_first(ts);
                    lemma_tokens_ok_suffix(ts, self.toks());
                }
                self.block()
            },
            _ => Err(ParseError::unexpected_token(token, "primary expression")),
        }
    }

    /// This expects the open delimiter to already be consumed.
    fn block(&mut self) -> (r: Result<Expr, ParseError>)
        requires
            old(self).wf(),
            tokens_ok(old(self).toks()),
        ensures
            final(self).wf(),
            final(self).src_view() == old(self).src_view(),
            final(self).end_line() == old(self).end_line(),
            final(self).end_col() == old(self).end_col(),
            agrees_with(
                r,
                spec_block(old(self).toks(), old(self).end_line(), old(self).end_col()),
                final(self).toks(),
            ),
        decreases old(self).toks().len(), 11int,
    {
        let mut contents: Vec<Expr> = Vec::new();
        let e = match self.parse_expression() {
            Ok(e) => e,
            Err(err) => {
                return Err(err);
            },
        };
        let ghost ge = e@;
        contents.push(e);
        match self.tokenizer.expect(TokenType::CloseParen) {
            Err(err) => Err(err),
            Ok(_close) => {
                let b = Expr::Block(contents);
                proof {
                    assert(b@->Block_0 =~= seq![ge]);
                    assert(b@ =~~= SpecExpr::Block(seq![ge]));
                }
                Ok(b)
            },
        }
    }

    /// Consume the next token and report whether it had the given kind; if
    /// not, it is pushed back and nothing is consumed.
    fn match_next(&mut self, token_type: TokenType) -> (b: bool)
        requires
            old(self).wf(),
        ensures
            final(self).wf(),
            final(self).src_view() == old(self).src_view(),
            final(self).end_line() == old(self).end_line(),
            final(self).end_col() == old(self).end_col(),
            b == (old(self).toks().len() > 0 && old(self).toks()[0].kind == token_type),
            b ==> final(self).toks() == old(self).toks().subrange(
                1,
                old(self).toks().len() as int,
            ),
            !b ==> final(self).toks() == old(self).toks(),
    {
        self.tokenizer.opt(token_type).is_some()
    }
}

} // verus!

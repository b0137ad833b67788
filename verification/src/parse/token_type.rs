use vstd::prelude::*;

verus! {

/// The closed set of lexical categories the tokenizer recognizes.
#[derive(Copy, Clone, Debug, PartialEq, Eq, Structural)]
pub enum TokenType {
    Newline,
    Whitespace,
    Bool,
    True,
    False,
    Not,
    And,
    Or,
    Plus,
    Minus,
    Star,
    Slash,
    Int,
    EqualEqual,
    BangEqual,
    OpenParen,
    CloseParen,
    If,
    Then,
    Else,
    Underscore,
    Identifier,
    UnknownToken,
}

/// The mathematical model of one token: its category, the matched substring,
/// its half-open character span in the source, and the 0-indexed line and
/// column where it starts.
pub struct SpecToken {
    pub kind: TokenType,
    pub lexeme: Seq<char>,
    pub start: int,
    pub end: int,
    pub line: int,
    pub col: int,
}

pub open spec fn is_space_char(c: char) -> bool {
    c == ' ' || c == '\t' || c == '\r' || c == '\u{c}'
}

pub open spec fn is_digit_char(c: char) -> bool {
    48 <= c as u32 <= 57
}

pub open spec fn is_word_char(c: char) -> bool {
    (97 <= c as u32 <= 122) || (65 <= c as u32 <= 90) || c == '_'
}

/// Length of the maximal run of whitespace characters starting at `i`.
pub open spec fn space_run(s: Seq<char>, i: int) -> int
    decreases s.len() - i,
{
    if 0 <= i < s.len() && is_space_char(s[i]) {
        1 + space_run(s, i + 1)
    } else {
        0
    }
}

/// Length of the maximal run of decimal digits starting at `i`.
pub open spec fn digit_run(s: Seq<char>, i: int) -> int
    decreases s.len() - i,
{
    if 0 <= i < s.len() && is_digit_char(s[i]) {
        1 + digit_run(s, i + 1)
    } else {
        0
    }
}

/// Length of the maximal run of letters and underscores starting at `i`.
pub open spec fn word_run(s: Seq<char>, i: int) -> int
    decreases s.len() - i,
{
    if 0 <= i < s.len() && is_word_char(s[i]) {
        1 + word_run(s, i + 1)
    } else {
        0
    }
}

/// Category of a maximal letter-or-underscore run: keywords win over the
/// generic identifier pattern on equal-length matches.
pub open spec fn keyword_kind(l: Seq<char>) -> TokenType {
    if l == "bool"@ {
        TokenType::Bool
    } else if l == "true"@ {
        TokenType::True
    } else if l == "false"@ {
        TokenType::False
    } else if l == "not"@ {
        TokenType::Not
    } else if l == "and"@ {
        TokenType::And
    } else if l == "or"@ {
        TokenType::Or
    } else if l == "if"@ {
        TokenType::If
    } else if l == "then"@ {
        TokenType::Then
    } else if l == "else"@ {
        TokenType::Else
    } else if l == "_"@ {
        TokenType::Underscore
    } else {
        TokenType::Identifier
    }
}

/// Category and length of the greedy longest match starting at position `i`
/// of the source; any character no pattern covers becomes a one-character
/// `UnknownToken`.
pub open spec fn token_shape_at(s: Seq<char>, i: int) -> (TokenType, int) {
    let c = s[i];
    if c == '\n' {
        (TokenType::Newline, 1)
    } else if is_space_char(c) {
        (TokenType::Whitespace, space_run(s, i))
    } else if is_digit_char(c) {
        (TokenType::Int, digit_run(s, i))
    } else if c == '+' {
        (TokenType::Plus, 1)
    } else if c == '-' {
        (TokenType::Minus, 1)
    } else if c == '*' {
        (TokenType::Star, 1)
    } else if c == '/' {
        (TokenType::Slash, 1)
    } else if c == '=' {
        if i + 1 < s.len() && s[i + 1] == '=' {
            (TokenType::EqualEqual, 2)
        } else {
            (TokenType::UnknownToken, 1)
        }
    } else if c == '!' {
        if i + 1 < s.len() && s[i + 1] == '=' {
            (TokenType::BangEqual, 2)
        } else {
            (TokenType::UnknownToken, 1)
        }
    } else if c == '(' {
        (TokenType::OpenParen, 1)
    } else if c == ')' {
        (TokenType::CloseParen, 1)
    } else if is_word_char(c) {
        let n = word_run(s, i);
        (keyword_kind(s.subrange(i, i + n)), n)
    } else {
        (TokenType::UnknownToken, 1)
    }
}

/// The token that starts at position `i` of the source when the running
/// counters stand at `line` and `col`.
pub open spec fn token_at(s: Seq<char>, i: int, line: int, col: int) -> SpecToken {
    let shape = token_shape_at(s, i);
    SpecToken {
        kind: shape.0,
        lexeme: s.subrange(i, i + shape.1),
        start: i,
        end: i + shape.1,
        line,
        col,
    }
}

/// Line counter after a token: a newline advances the line.
pub open spec fn post_line(t: SpecToken) -> int {
    if t.kind == TokenType::Newline {
        t.line + 1
    } else {
        t.line
    }
}

/// Column counter after a token: a newline resets it, anything else advances
/// it by the token's length.
pub open spec fn post_col(t: SpecToken) -> int {
    if t.kind == TokenType::Newline {
        0
    } else {
        t.col + (t.end - t.start)
    }
}

/// The full raw token stream from position `i` to the end of the source,
/// with positions computed incrementally from `line` and `col`.
pub open spec fn spec_tokens_from(s: Seq<char>, i: int, line: int, col: int) -> Seq<SpecToken>
    decreases s.len() - i,
    via spec_tokens_from_decreases
{
    if 0 <= i < s.len() {
        let t = token_at(s, i, line, col);
        seq![t] + spec_tokens_from(s, t.end, post_line(t), post_col(t))
    } else {
        Seq::empty()
    }
}

#[via_fn]
proof fn spec_tokens_from_decreases(s: Seq<char>, i: int, line: int, col: int) {
    if 0 <= i < s.len() {
        lemma_token_shape_at(s, i);
    }
}

/// Whitespace and newlines are skipped by the parser; everything else it sees.
pub open spec fn significant(t: SpecToken) -> bool {
    t.kind != TokenType::Newline && t.kind != TokenType::Whitespace
}

/// The subsequence of significant tokens, in order.
pub open spec fn sig_of(ts: Seq<SpecToken>) -> Seq<SpecToken>
    decreases ts.len(),
{
    if ts.len() == 0 {
        Seq::empty()
    } else if significant(ts[0]) {
        seq![ts[0]] + sig_of(ts.subrange(1, ts.len() as int))
    } else {
        sig_of(ts.subrange(1, ts.len() as int))
    }
}

/// Peeling the head off a token stream commutes with selecting the
/// significant tokens.
pub proof fn lemma_sig_of_cons(t: SpecToken, rest: Seq<SpecToken>)
    ensures
        significant(t) ==> sig_of(seq![t] + rest) == seq![t] + sig_of(rest),
        !significant(t) ==> sig_of(seq![t] + rest) == sig_of(rest),
{
    let ts = seq![t] + rest;
    assert(ts[0] == t);
    assert(ts.subrange(1, ts.len() as int) =~= rest);
}

/// Line counter once every token of `ts` has been consumed, the counter
/// standing at `line` beforehand.
pub open spec fn end_line_of(ts: Seq<SpecToken>, line: int) -> int {
    if ts.len() == 0 {
        line
    } else {
        post_line(ts.last())
    }
}

/// Column counter once every token of `ts` has been consumed.
pub open spec fn end_col_of(ts: Seq<SpecToken>, col: int) -> int {
    if ts.len() == 0 {
        col
    } else {
        post_col(ts.last())
    }
}

proof fn lemma_space_run(s: Seq<char>, i: int)
    requires
        0 <= i <= s.len(),
    ensures
        0 <= space_run(s, i) <= s.len() - i,
        forall|j: int| i <= j < i + space_run(s, i) ==> is_space_char(#[trigger] s[j]),
        i + space_run(s, i) < s.len() ==> !is_space_char(s[i + space_run(s, i)]),
    decreases s.len() - i,
{
    if i < s.len() && is_space_char(s[i]) {
        lemma_space_run(s, i + 1);
    }
}

proof fn lemma_digit_run(s: Seq<char>, i: int)
    requires
        0 <= i <= s.len(),
    ensures
        0 <= digit_run(s, i) <= s.len() - i,
        forall|j: int| i <= j < i + digit_run(s, i) ==> is_digit_char(#[trigger] s[j]),
        i + digit_run(s, i) < s.len() ==> !is_digit_char(s[i + digit_run(s, i)]),
    decreases s.len() - i,
{
    if i < s.len() && is_digit_char(s[i]) {
        lemma_digit_run(s, i + 1);
    }
}

proof fn lemma_word_run(s: Seq<char>, i: int)
    requires
        0 <= i <= s.len(),
    ensures
        0 <= word_run(s, i) <= s.len() - i,
        forall|j: int| i <= j < i + word_run(s, i) ==> is_word_char(#[trigger] s[j]),
        i + word_run(s, i) < s.len() ==> !is_word_char(s[i + word_run(s, i)]),
    decreases s.len() - i,
{
    if i < s.len() && is_word_char(s[i]) {
        lemma_word_run(s, i + 1);
    }
}

/// A token pattern always matches at least one character and never runs past
/// the end of the source.
pub proof fn lemma_token_shape_at(s: Seq<char>, i: int)
    requires
        0 <= i < s.len(),
    ensures
        1 <= token_shape_at(s, i).1,
        i + token_shape_at(s, i).1 <= s.len(),
{
    lemma_space_run(s, i);
    lemma_digit_run(s, i);
    lemma_word_run(s, i);
}

/// What the patterns guarantee of every token they produce: the lexeme is the
/// spanned substring, it is non-empty, and an `Int` token holds digits only.
pub open spec fn token_shape_ok(t: SpecToken) -> bool {
    &&& t.lexeme.len() == t.end - t.start
    &&& 1 <= t.lexeme.len()
    &&& t.kind == TokenType::Int ==> forall|j: int|
        0 <= j < t.lexeme.len() ==> is_digit_char(#[trigger] t.lexeme[j])
}

/// Every token of the scan is shape-valid.
pub proof fn lemma_tokens_shape_ok(s: Seq<char>, i: int, line: int, col: int)
    ensures
        forall|k: int|
            0 <= k < spec_tokens_from(s, i, line, col).len() ==> token_shape_ok(
                #[trigger] spec_tokens_from(s, i, line, col)[k],
            ),
    decreases s.len() - i,
{
    if 0 <= i < s.len() {
        let t = token_at(s, i, line, col);
        let rest = spec_tokens_from(s, t.end, post_line(t), post_col(t));
        let toks = spec_tokens_from(s, i, line, col);
        lemma_token_shape_at(s, i);
        lemma_digit_run(s, i);
        lemma_tokens_shape_ok(s, t.end, post_line(t), post_col(t));
        assert(toks == seq![t] + rest);
        assert(token_shape_ok(t)) by {
            if t.kind == TokenType::Int {
                assert(t.end - t.start == digit_run(s, i));
                assert forall|j: int| 0 <= j < t.lexeme.len() implies is_digit_char(
                    #[trigger] t.lexeme[j],
                ) by {
                    assert(t.lexeme[j] == s[i + j]);
                    assert(is_digit_char(s[i + j]));
                }
            }
        }
        assert forall|k: int| 0 <= k < toks.len() implies token_shape_ok(#[trigger] toks[k]) by {
            if k == 0 {
                assert(toks[k] == t);
            } else {
                assert(toks[k] == rest[k - 1]);
            }
        }
    }
}

/// The token stream's invariant: tokens come in source order, each spans at
/// least one character, consecutive spans touch without overlap, and each
/// token's line and column are those reached just past the token before it,
/// never recomputed by re-scanning.
pub proof fn lemma_tokens_in_order(s: Seq<char>, i: int, line: int, col: int)
    ensures
        forall|k: int|
            0 <= k < spec_tokens_from(s, i, line, col).len() ==> (#[trigger] spec_tokens_from(
                s,
                i,
                line,
                col,
            )[k]).start < spec_tokens_from(s, i, line, col)[k].end,
        forall|k: int|
            1 <= k < spec_tokens_from(s, i, line, col).len() ==> {
                &&& (#[trigger] spec_tokens_from(s, i, line, col)[k]).start
                    == spec_tokens_from(s, i, line, col)[k - 1].end
                &&& spec_tokens_from(s, i, line, col)[k].line == post_line(
                    spec_tokens_from(s, i, line, col)[k - 1],
                )
                &&& spec_tokens_from(s, i, line, col)[k].col == post_col(
                    spec_tokens_from(s, i, line, col)[k - 1],
                )
            },
    decreases s.len() - i,
{
    if 0 <= i < s.len() {
        let t = token_at(s, i, line, col);
        let rest = spec_tokens_from(s, t.end, post_line(t), post_col(t));
        let toks = spec_tokens_from(s, i, line, col);
        lemma_token_shape_at(s, i);
        lemma_tokens_in_order(s, t.end, post_line(t), post_col(t));
        assert(toks == seq![t] + rest);
        assert forall|k: int| 0 <= k < toks.len() implies (#[trigger] toks[k]).start
            < toks[k].end by {
            if k > 0 {
                assert(toks[k] == rest[k - 1]);
            }
        }
        assert forall|k: int| 1 <= k < toks.len() implies {
            &&& (#[trigger] toks[k]).start == toks[k - 1].end
            &&& toks[k].line == post_line(toks[k - 1])
            &&& toks[k].col == post_col(toks[k - 1])
        } by {
            if k == 1 {
                assert(toks[0] == t);
                assert(toks[1] == rest[0]);
                assert(rest[0] == token_at(s, t.end, post_line(t), post_col(t)));
            } else {
                assert(toks[k - 1] == rest[k - 2]);
                assert(toks[k] == rest[k - 1]);
            }
        }
    }
}

/// Numeric value of a digit string, most significant digit first.
pub open spec fn digits_val(l: Seq<char>) -> int
    decreases l.len(),
{
    if l.len() == 0 {
        0
    } else {
        digits_val(l.subrange(0, l.len() - 1)) * 10 + (l.last() as u32 - 48)
    }
}

/// Human-readable name of a token category, as diagnostics print it.
pub open spec fn spec_describe(t: TokenType) -> Seq<char> {
    match t {
        TokenType::Newline => "Newline"@,
        TokenType::Whitespace => "Whitespace"@,
        TokenType::Bool => "Bool"@,
        TokenType::True => "True"@,
        TokenType::False => "False"@,
        TokenType::Not => "Not"@,
        TokenType::And => "And"@,
        TokenType::Or => "Or"@,
        TokenType::Plus => "Plus"@,
        TokenType::Minus => "Minus"@,
        TokenType::Star => "Star"@,
        TokenType::Slash => "Slash"@,
        TokenType::Int => "Int"@,
        TokenType::EqualEqual => "EqualEqual"@,
        TokenType::BangEqual => "BangEqual"@,
        TokenType::OpenParen => "OpenParen"@,
        TokenType::CloseParen => "CloseParen"@,
        TokenType::If => "If"@,
        TokenType::Then => "Then"@,
        TokenType::Else => "Else"@,
        TokenType::Underscore => "Underscore"@,
        TokenType::Identifier => "Identifier"@,
        TokenType::UnknownToken => "UnknownToken"@,
    }
}

/// Human-readable name of a token category, for diagnostics.
pub fn describe(t: TokenType) -> (s: String)
    ensures
        s@ == spec_describe(t),
{
    match t {
        TokenType::Newline => "Newline".to_owned(),
        TokenType::Whitespace => "Whitespace".to_owned(),
        TokenType::Bool => "Bool".to_owned(),
        TokenType::True => "True".to_owned(),
        TokenType::False => "False".to_owned(),
        TokenType::Not => "Not".to_owned(),
        TokenType::And => "And".to_owned(),
        TokenType::Or => "Or".to_owned(),
        TokenType::Plus => "Plus".to_owned(),
        TokenType::Minus => "Minus".to_owned(),
        TokenType::Star => "Star".to_owned(),
        TokenType::Slash => "Slash".to_owned(),
        TokenType::Int => "Int".to_owned(),
        TokenType::EqualEqual => "EqualEqual".to_owned(),
        TokenType::BangEqual => "BangEqual".to_owned(),
        TokenType::OpenParen => "OpenParen".to_owned(),
        TokenType::CloseParen => "CloseParen".to_owned(),
        TokenType::If => "If".to_owned(),
        TokenType::Then => "Then".to_owned(),
        TokenType::Else => "Else".to_owned(),
        TokenType::Underscore => "Underscore".to_owned(),
        TokenType::Identifier => "Identifier".to_owned(),
        TokenType::UnknownToken => "UnknownToken".to_owned(),
    }
}

} // verus!

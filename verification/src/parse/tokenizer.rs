use vstd::prelude::*;
use vstd::string::StrSliceExecFns;

use crate::parse::error::ParseError;
use crate::parse::error::SpecError;
use crate::parse::token_type::TokenType;
use crate::parse::token_type::SpecToken;
use crate::parse::token_type::is_space_char;
use crate::parse::token_type::is_digit_char;
use crate::parse::token_type::is_word_char;
use crate::parse::token_type::space_run;
use crate::parse::token_type::digit_run;
use crate::parse::token_type::word_run;
use crate::parse::token_type::keyword_kind;
use crate::parse::token_type::token_at;
use crate::parse::token_type::token_shape_at;
use crate::parse::token_type::post_line;
use crate::parse::token_type::post_col;
use crate::parse::token_type::spec_tokens_from;
use crate::parse::token_type::significant;
use crate::parse::token_type::sig_of;
use crate::parse::token_type::end_line_of;
use crate::parse::token_type::end_col_of;
use crate::parse::token_type::spec_describe;
use crate::parse::token_type::describe;
use crate::parse::token_type::lemma_sig_of_cons;

verus! {

/// Token metadata: the matched substring, its half-open character span in the
/// source, and the 0-indexed line and column where it starts.
#[derive(Debug, PartialEq)]
pub struct TokenData {
    /// char index span in source string
    pub span: core::ops::Range<usize>,
    pub lexeme: String,
    /// line (0-index) the token is on
    pub line: usize,
    /// column (0-index) the token starts
    pub col: usize,
}

#[derive(Debug, PartialEq)]
pub struct Token {
    pub token_type: TokenType,
    pub data: TokenData,
}

impl View for Token {
    type V = SpecToken;

    open spec fn view(&self) -> SpecToken {
        SpecToken {
            kind: self.token_type,
            lexeme: self.data.lexeme@,
            start: self.data.span.start as int,
            end: self.data.span.end as int,
            line: self.data.line as int,
            col: self.data.col as int,
        }
    }
}

/// What `force_advance` yields on a stream of significant tokens whose end of
/// input stands at `el`:`ec`: the head token, or `Eof` when nothing is left,
/// or `UnknownToken` when the scanner could not classify the head.
pub open spec fn spec_force_advance(ts: Seq<SpecToken>, el: int, ec: int) -> Result<
    (SpecToken, Seq<SpecToken>),
    SpecError,
> {
    if ts.len() == 0 {
        Err(SpecError::Eof { line: el, col: ec })
    } else if ts[0].kind == TokenType::UnknownToken {
        Err(SpecError::UnknownToken { lexeme: ts[0].lexeme, line: ts[0].line, col: ts[0].col })
    } else {
        Ok((ts[0], ts.subrange(1, ts.len() as int)))
    }
}

/// What `expect` yields: the head token when it has the required kind, and
/// `UnexpectedToken` naming that kind otherwise.
pub open spec fn spec_expect(ts: Seq<SpecToken>, expected: TokenType, el: int, ec: int) -> Result<
    (SpecToken, Seq<SpecToken>),
    SpecError,
> {
    match spec_force_advance(ts, el, ec) {
        Err(e) => Err(e),
        Ok((t, rest)) => if t.kind == expected {
            Ok((t, rest))
        } else {
            Err(SpecError::UnexpectedToken {
                expected: spec_describe(expected),
                actual: t.kind,
                lexeme: t.lexeme,
                line: t.line,
                col: t.col,
            })
        },
    }
}

/// Converts a source string into tokens on demand, skipping insignificant
/// ones when asked to, with a single-slot pushback buffer (`dock`).
pub struct Tokenizer {
    src: String,
    chars: Vec<char>,
    pos: usize,
    /// Contains the next Token, if any.  To interpret this,
    /// None -> We have not pulled the next token.
    /// Some(Some(t)) -> We've pulled the next token, and this is it.
    /// (Some(None) would mean a pulled absence; it is never stored.)
    dock: Option<Option<Token>>,
    /// line (0-index) the next token is on
    line: usize,
    /// column (0-index) the next token starts
    col: usize,
}

impl Tokenizer {
    /// View of the source text being scanned.
    pub closed spec fn src_view(self) -> Seq<char> {
        self.src@
    }

    closed spec fn cur_pos(self) -> int {
        match self.dock {
            Some(Some(t)) => t@.start,
            _ => self.pos as int,
        }
    }

    closed spec fn cur_line(self) -> int {
        match self.dock {
            Some(Some(t)) => t@.line,
            _ => self.line as int,
        }
    }

    closed spec fn cur_col(self) -> int {
        match self.dock {
            Some(Some(t)) => t@.col,
            _ => self.col as int,
        }
    }

    /// The raw tokens not yet handed out, the docked one first if any.
    pub closed spec fn remaining(self) -> Seq<SpecToken> {
        spec_tokens_from(self.src@, self.cur_pos(), self.cur_line(), self.cur_col())
    }

    /// The significant tokens not yet handed out.
    pub closed spec fn toks(self) -> Seq<SpecToken> {
        sig_of(self.remaining())
    }

    /// The line counter as it will stand once the input is exhausted.
    pub closed spec fn end_line(self) -> int {
        end_line_of(self.remaining(), self.cur_line())
    }

    /// The column counter as it will stand once the input is exhausted.
    pub closed spec fn end_col(self) -> int {
        end_col_of(self.remaining(), self.cur_col())
    }

    /// The scan counters stand just past token `t`, which ended at `pos`.
    pub closed spec fn after_token(self, t: SpecToken) -> bool {
        &&& self.pos as int == t.end
        &&& self.line as int == post_line(t)
        &&& self.col as int == post_col(t)
        &&& 0 <= t.start < t.end <= self.src@.len()
    }

    /// The pushback buffer is empty.
    pub closed spec fn dock_empty(self) -> bool {
        self.dock is None
    }

    /// Everything is consumed and the counters have reached the end position.
    pub closed spec fn at_end(self) -> bool {
        &&& self.remaining().len() == 0
        &&& self.dock_empty()
        &&& self.line as int == self.end_line()
        &&& self.col as int == self.end_col()
    }

    /// Well-formedness: the cursor lies inside the source, the counters never
    /// run ahead of it, and a docked token is exactly the token the scan
    /// produces at its own start position, with the counters just past it.
    pub closed spec fn wf(self) -> bool {
        &&& self.chars@ == self.src@
        &&& self.pos as int <= self.src@.len()
        &&& self.line as int <= self.pos as int
        &&& self.col as int <= self.pos as int
        &&& match self.dock {
            None => true,
            Some(opt) => match opt {
                Some(t) => {
                    &&& significant(t@)
                    &&& t@ == token_at(self.src@, t@.start, t@.line, t@.col)
                    &&& self.after_token(t@)
                    &&& 0 <= t@.line
                    &&& 0 <= t@.col
                },
                None => false,
            },
        }
    }

    pub fn new(source: &str) -> (tk: Self)
        ensures
            tk.wf(),
            tk.src_view() == source@,
            tk.remaining() == spec_tokens_from(source@, 0, 0, 0),
            tk.toks() == sig_of(spec_tokens_from(source@, 0, 0, 0)),
            tk.end_line() == end_line_of(spec_tokens_from(source@, 0, 0, 0), 0),
            tk.end_col() == end_col_of(spec_tokens_from(source@, 0, 0, 0), 0),
    {
        let chars = chars_vec(source);
        Tokenizer { src: source.to_owned(), chars, pos: 0, dock: None, line: 0, col: 0 }
    }

    /// Pull the next token from the scan cursor; does not check the dock.
    /// A character sequence no pattern covers becomes an `UnknownToken`.
    fn pull(&mut self) -> (r: Option<Token>)
        requires
            old(self).wf(),
            old(self).dock is None,
        ensures
            final(self).wf(),
            final(self).dock is None,
            final(self).src_view() == old(self).src_view(),
            match r {
                None => *final(self) == *old(self) && old(self).remaining().len() == 0,
                Some(t) => {
                    &&& old(self).remaining().len() > 0
                    &&& t@ == old(self).remaining()[0]
                    &&& t@ == token_at(old(self).src_view(), t@.start, t@.line, t@.col)
                    &&& old(self).remaining() == seq![t@] + final(self).remaining()
                    &&& final(self).after_token(t@)
                    &&& 0 <= t@.line
                    &&& 0 <= t@.col
                },
            },
    {
        if self.pos >= self.chars.len() {
            return None;
        }
        let ghost s = self.src@;
        let start = self.pos;
        let ghost oline = self.line as int;
        let ghost ocol = self.col as int;
        let c = self.chars[start];
        let kind: TokenType;
        let end: usize;
        if c == '\n' {
            kind = TokenType::Newline;
            end = start + 1;
        } else if is_space_c(c) {
            kind = TokenType::Whitespace;
            end = run_space(&self.chars, start);
        } else if is_digit_c(c) {
            kind = TokenType::Int;
            end = run_digit(&self.chars, start);
        } else if c == '+' {
            kind = TokenType::Plus;
            end = start + 1;
        } else if c == '-' {
            kind = TokenType::Minus;
            end = start + 1;
        } else if c == '*' {
            kind = TokenType::Star;
            end = start + 1;
        } else if c == '/' {
            kind = TokenType::Slash;
            end = start + 1;
        } else if c == '=' {
            if start + 1 < self.chars.len() && self.chars[start + 1] == '=' {
                kind = TokenType::EqualEqual;
                end = start + 2;
            } else {
                kind = TokenType::UnknownToken;
                end = start + 1;
            }
        } else if c == '!' {
            if start + 1 < self.chars.len() && self.chars[start + 1] == '=' {
                kind = TokenType::BangEqual;
                end = start + 2;
            } else {
                kind = TokenType::UnknownToken;
                end = start + 1;
            }
        } else if c == '(' {
            kind = TokenType::OpenParen;
            end = start + 1;
        } else if c == ')' {
            kind = TokenType::CloseParen;
            end = start + 1;
        } else if is_word_c(c) {
            end = run_word(&self.chars, start);
            let word = self.src.as_str().substring_char(start, end).to_owned();
            kind = keyword_kind_of(&word);
        } else {
            kind = TokenType::UnknownToken;
            end = start + 1;
        }
        assert(kind == token_shape_at(s, start as int).0);
        assert(end as int == start as int + token_shape_at(s, start as int).1);
        let lexeme = self.src.as_str().substring_char(start, end).to_owned();
        let token = Token {
            token_type: kind,
            data: TokenData { span: start..end, lexeme, line: self.line, col: self.col },
        };
        assert(token@ == token_at(s, start as int, oline, ocol));
        self.pos = end;
        if kind == TokenType::Newline {
            self.line = self.line + 1;
            self.col = 0;
        } else {
            self.col = self.col + (end - start);
        }
        proof {
            assert(old(self).remaining() == seq![token@] + final(self).remaining());
        }
        Some(token)
    }

    /// Produce the next token if any, or None if no tokens are left.
    pub fn next(&mut self) -> (r: Option<Token>)
        requires
            old(self).wf(),
        ensures
            final(self).wf(),
            final(self).src_view() == old(self).src_view(),
            final(self).end_line() == old(self).end_line(),
            final(self).end_col() == old(self).end_col(),
            match r {
                None => old(self).remaining().len() == 0 && final(self).at_end(),
                Some(t) => {
                    &&& old(self).remaining().len() > 0
                    &&& t@ == old(self).remaining()[0]
                    &&& t@ == token_at(old(self).src_view(), t@.start, t@.line, t@.col)
                    &&& old(self).remaining() == seq![t@] + final(self).remaining()
                    &&& final(self).after_token(t@)
                    &&& final(self).dock_empty()
                    &&& 0 <= t@.line
                    &&& 0 <= t@.col
                },
            },
    {
        let docked = self.dock.take();
        match docked {
            Some(t_opt) => {
                proof {
                    lemma_end_cons(old(self).src_view(), old(self).remaining(), old(self).cur_line(), old(self).cur_col());
                }
                t_opt
            },
            None => {
                let r = self.pull();
                proof {
                    if r is Some {
                        lemma_end_cons(old(self).src_view(), old(self).remaining(), old(self).cur_line(), old(self).cur_col());
                    }
                }
                r
            },
        }
    }

    /// Produce the next token, skipping whitespace/newline.
    /// Return None if no tokens are left.
    pub fn advance(&mut self) -> (r: Option<Token>)
        requires
            old(self).wf(),
        ensures
            final(self).wf(),
            final(self).src_view() == old(self).src_view(),
            final(self).end_line() == old(self).end_line(),
            final(self).end_col() == old(self).end_col(),
            final(self).dock_empty(),
            match r {
                None => {
                    &&& old(self).toks().len() == 0
                    &&& final(self).at_end()
                    &&& final(self).toks() == old(self).toks()
                },
                Some(t) => {
                    &&& old(self).toks().len() > 0
                    &&& t@ == old(self).toks()[0]
                    &&& significant(t@)
                    &&& old(self).toks() == seq![t@] + final(self).toks()
                    &&& final(self).after_token(t@)
                    &&& t@ == token_at(final(self).src_view(), t@.start, t@.line, t@.col)
                    &&& 0 <= t@.line
                    &&& 0 <= t@.col
                },
            },
    {
        loop
            invariant
                self.wf(),
                self.src_view() == old(self).src_view(),
                self.toks() == old(self).toks(),
                self.end_line() == old(self).end_line(),
                self.end_col() == old(self).end_col(),
            decreases self.remaining().len(),
        {
            let ghost pre = *self;
            match self.next() {
                None => {
                    return None;
                },
                Some(t) => {
                    proof {
                        lemma_sig_of_cons(t@, self.remaining());
                    }
                    let keep = match t.token_type {
                        TokenType::Newline | TokenType::Whitespace => false,
                        _ => true,
                    };
                    if keep {
                        return Some(t);
                    }
                },
            }
        }
    }

    /// Advance and return the token.
    /// Return `ParseError::Eof` if no tokens are left, and `UnknownToken` for
    /// a token the scanner could not classify.
    pub fn force_advance(&mut self) -> (r: Result<Token, ParseError>)
        requires
            old(self).wf(),
        ensures
            final(self).wf(),
            final(self).src_view() == old(self).src_view(),
            final(self).end_line() == old(self).end_line(),
            final(self).end_col() == old(self).end_col(),
            final(self).dock_empty(),
            match r {
                Ok(t) => {
                    &&& spec_force_advance(old(self).toks(), old(self).end_line(), old(self).end_col())
                        == Ok::<(SpecToken, Seq<SpecToken>), SpecError>((t@, final(self).toks()))
                    &&& t@ == old(self).toks()[0]
                    &&& final(self).after_token(t@)
                    &&& t@ == token_at(final(self).src_view(), t@.start, t@.line, t@.col)
                    &&& 0 <= t@.line
                    &&& 0 <= t@.col
                },
                Err(e) => {
                    spec_force_advance(old(self).toks(), old(self).end_line(), old(self).end_col())
                        == Err::<(SpecToken, Seq<SpecToken>), SpecError>(e@)
                },
            },
    {
        match self.advance() {
            None => Err(ParseError::Eof { line: self.line, col: self.col }),
            Some(token) => {
                if token.token_type == TokenType::UnknownToken {
                    Err(ParseError::unknown_token(token))
                } else {
                    proof {
                        assert(old(self).toks().subrange(1, old(self).toks().len() as int)
                            =~= final(self).toks());
                    }
                    Ok(token)
                }
            },
        }
    }

    /// Produce the next token if it is of the given kind.
    /// Fail with `UnexpectedToken` naming the expected kind if it is not, and
    /// as `force_advance` does if there is none.
    pub fn expect(&mut self, expected: TokenType) -> (r: Result<Token, ParseError>)
        requires
            old(self).wf(),
        ensures
            final(self).wf(),
            final(self).src_view() == old(self).src_view(),
            final(self).end_line() == old(self).end_line(),
            final(self).end_col() == old(self).end_col(),
            final(self).dock_empty(),
            match r {
                Ok(t) => {
                    spec_expect(old(self).toks(), expected, old(self).end_line(), old(self).end_col())
                        == Ok::<(SpecToken, Seq<SpecToken>), SpecError>((t@, final(self).toks()))
                },
                Err(e) => {
                    spec_expect(old(self).toks(), expected, old(self).end_line(), old(self).end_col())
                        == Err::<(SpecToken, Seq<SpecToken>), SpecError>(e@)
                },
            },
    {
        match self.force_advance() {
            Err(e) => Err(e),
            Ok(token) => {
                if token.token_type == expected {
                    Ok(token)
                } else {
                    let d = describe(expected);
                    Err(ParseError::unexpected_token(token, d.as_str()))
                }
            },
        }
    }

    /// Produce the next token if it is of the given kind.
    /// Otherwise push the token back into the single-slot buffer, so the next
    /// call sees it again, and return None; the buffer holds at most one
    /// token at any time. Also return None if no tokens are left.
    pub fn opt(&mut self, expected: TokenType) -> (r: Option<Token>)
        requires
            old(self).wf(),
        ensures
            final(self).wf(),
            final(self).src_view() == old(self).src_view(),
            final(self).end_line() == old(self).end_line(),
            final(self).end_col() == old(self).end_col(),
            match r {
                Some(t) => {
                    &&& old(self).toks().len() > 0
                    &&& old(self).toks()[0].kind == expected
                    &&& t@ == old(self).toks()[0]
                    &&& final(self).toks() == old(self).toks().subrange(
                        1,
                        old(self).toks().len() as int,
                    )
                },
                None => {
                    &&& (old(self).toks().len() == 0 || old(self).toks()[0].kind != expected)
                    &&& final(self).toks() == old(self).toks()
                },
            },
    {
        match self.advance() {
            None => None,
            Some(token) => {
                assert(self.dock is None);
                if token.token_type == expected {
                    proof {
                        assert(old(self).toks().subrange(1, old(self).toks().len() as int)
                            =~= final(self).toks());
                    }
                    Some(token)
                } else {
                    let ghost mid = *self;
                    let ghost gt = token@;
                    self.dock = Some(Some(token));
                    proof {
                        assert(final(self).remaining() == seq![gt] + mid.remaining());
                        lemma_sig_of_cons(gt, mid.remaining());
                        lemma_end_cons(
                            final(self).src_view(),
                            final(self).remaining(),
                            gt.line,
                            gt.col,
                        );
                    }
                    None
                }
            },
        }
    }
}

/// Collect the characters of a string slice into a vector.
fn chars_vec(s: &str) -> (v: Vec<char>)
    ensures
        v@ == s@,
{
    let n = s.unicode_len();
    let mut v: Vec<char> = Vec::new();
    let mut i: usize = 0;
    while i < n
        invariant
            n == s@.len(),
            i <= n,
            v@ == s@.subrange(0, i as int),
        decreases n - i,
    {
        let c = s.get_char(i);
        v.push(c);
        i = i + 1;
        assert(v@ =~= s@.subrange(0, i as int));
    }
    assert(v@ =~= s@);
    v
}

fn is_space_c(c: char) -> (b: bool)
    ensures
        b == is_space_char(c),
{
    c == ' ' || c == '\t' || c == '\r' || c == '\u{c}'
}

fn is_digit_c(c: char) -> (b: bool)
    ensures
        b == is_digit_char(c),
{
    let u = c as u32;
    48 <= u && u <= 57
}

fn is_word_c(c: char) -> (b: bool)
    ensures
        b == is_word_char(c),
{
    let u = c as u32;
    (97 <= u && u <= 122) || (65 <= u && u <= 90) || c == '_'
}

/// End of the maximal whitespace run starting at `start`.
fn run_space(chars: &Vec<char>, start: usize) -> (e: usize)
    requires
        start <= chars@.len(),
    ensures
        start <= e <= chars@.len(),
        e as int == start as int + space_run(chars@, start as int),
{
    let mut j = start;
    while j < chars.len() && is_space_c(chars[j])
        invariant
            start <= j <= chars@.len(),
            space_run(chars@, start as int) == (j - start) + space_run(chars@, j as int),
        decreases chars@.len() - j,
    {
        j = j + 1;
    }
    j
}

/// End of the maximal digit run starting at `start`.
fn run_digit(chars: &Vec<char>, start: usize) -> (e: usize)
    requires
        start <= chars@.len(),
    ensures
        start <= e <= chars@.len(),
        e as int == start as int + digit_run(chars@, start as int),
{
    let mut j = start;
    while j < chars.len() && is_digit_c(chars[j])
        invariant
            start <= j <= chars@.len(),
            digit_run(chars@, start as int) == (j - start) + digit_run(chars@, j as int),
        decreases chars@.len() - j,
    {
        j = j + 1;
    }
    j
}

/// End of the maximal letter-or-underscore run starting at `start`.
fn run_word(chars: &Vec<char>, start: usize) -> (e: usize)
    requires
        start <= chars@.len(),
    ensures
        start <= e <= chars@.len(),
        e as int == start as int + word_run(chars@, start as int),
{
    let mut j = start;
    while j < chars.len() && is_word_c(chars[j])
        invariant
            start <= j <= chars@.len(),
            word_run(chars@, start as int) == (j - start) + word_run(chars@, j as int),
        decreases chars@.len() - j,
    {
        j = j + 1;
    }
    j
}

/// Keyword patterns win over the generic identifier pattern.
fn keyword_kind_of(lex: &String) -> (k: TokenType)
    ensures
        k == keyword_kind(lex@),
{
    if *lex == "bool".to_owned() {
        TokenType::Bool
    } else if *lex == "true".to_owned() {
        TokenType::True
    } else if *lex == "false".to_owned() {
        TokenType::False
    } else if *lex == "not".to_owned() {
        TokenType::Not
    } else if *lex == "and".to_owned() {
        TokenType::And
    } else if *lex == "or".to_owned() {
        TokenType::Or
    } else if *lex == "if".to_owned() {
        TokenType::If
    } else if *lex == "then".to_owned() {
        TokenType::Then
    } else if *lex == "else".to_owned() {
        TokenType::Else
    } else if *lex == "_".to_owned() {
        TokenType::Underscore
    } else {
        TokenType::Identifier
    }
}

/// Consuming the head token shifts the end-of-input position bookkeeping but
/// never changes where the input ends.
proof fn lemma_end_cons(s: Seq<char>, ts: Seq<SpecToken>, line: int, col: int)
    requires
        ts.len() > 0,
    ensures
        end_line_of(ts, line) == end_line_of(ts.subrange(1, ts.len() as int), post_line(ts[0])),
        end_col_of(ts, col) == end_col_of(ts.subrange(1, ts.len() as int), post_col(ts[0])),
{
    let rest = ts.subrange(1, ts.len() as int);
    if rest.len() == 0 {
        assert(ts.last() == ts[0]);
    } else {
        assert(rest.last() == ts.last());
    }
}

} // verus!

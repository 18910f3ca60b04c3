//! The lexer: turns source text into parentheses, symbols, integer literals
//! and string literals. `next_token_spec` is the functional specification;
//! `Lexer::next_token` is proved to compute exactly that.

use vstd::prelude::*;
use vstd::string::StrSliceExecFns;

use crate::error::SyntaxError;

verus! {

#[derive(Debug, Clone)]
pub enum Token {
    LeftPar,
    RightPar,
    Symbol(String),
    IntegerLiteral(i64),
    StringLiteral(String),
}

/// The mathematical image of a token.
pub enum TokenM {
    LeftPar,
    RightPar,
    Symbol(Seq<char>),
    IntegerLiteral(i64),
    StringLiteral(Seq<char>),
}

impl View for Token {
    type V = TokenM;

    open spec fn view(&self) -> TokenM {
        match self {
            Token::LeftPar => TokenM::LeftPar,
            Token::RightPar => TokenM::RightPar,
            Token::Symbol(s) => TokenM::Symbol(s@),
            Token::IntegerLiteral(i) => TokenM::IntegerLiteral(*i),
            Token::StringLiteral(s) => TokenM::StringLiteral(s@),
        }
    }
}

/// What a lexing step yields: the position after the step, and either a
/// token, end of input, or an error message.
pub type LexStep = (int, Result<Option<TokenM>, Seq<char>>);

pub open spec fn is_ws_ch(c: char) -> bool {
    c == ' ' || c == '\t' || c == '\n' || c == '\r'
}

/// Characters that end a symbol or integer chunk.
pub open spec fn is_delim_ch(c: char) -> bool {
    is_ws_ch(c) || c == '(' || c == ')' || c == '"'
}

pub open spec fn is_digit_ch(c: char) -> bool {
    48 <= c as u32 && c as u32 <= 57
}

pub open spec fn digit_val_ch(c: char) -> int {
    c as u32 - 48
}

/// The first position at or after `pos` holding a non-whitespace character.
pub open spec fn skip_ws(s: Seq<char>, pos: int) -> int
    decreases s.len() - pos,
{
    if 0 <= pos < s.len() && is_ws_ch(s[pos]) {
        skip_ws(s, pos + 1)
    } else {
        pos
    }
}

/// The first position at or after `pos` holding a delimiter (or the end).
pub open spec fn chunk_end(s: Seq<char>, pos: int) -> int
    decreases s.len() - pos,
{
    if 0 <= pos < s.len() && !is_delim_ch(s[pos]) {
        chunk_end(s, pos + 1)
    } else {
        pos
    }
}

/// The position of the closing quote at or after `pos`, if any.
pub open spec fn string_end(s: Seq<char>, pos: int) -> Option<int>
    decreases s.len() - pos,
{
    if 0 <= pos < s.len() {
        if s[pos] == '"' {
            Option::Some(pos)
        } else {
            string_end(s, pos + 1)
        }
    } else {
        Option::None
    }
}

pub open spec fn all_digits(s: Seq<char>) -> bool {
    forall|i: int| 0 <= i < s.len() ==> is_digit_ch(#[trigger] s[i])
}

/// A chunk that reads as an integer literal: digits, optionally after a
/// leading minus sign. Any other chunk is a symbol.
pub open spec fn is_int_chunk(s: Seq<char>) -> bool {
    if s.len() >= 1 && s[0] == '-' {
        s.len() >= 2 && all_digits(s.skip(1))
    } else {
        s.len() >= 1 && all_digits(s)
    }
}

/// The value of a digit string, most significant digit first.
pub open spec fn digits_val(s: Seq<char>) -> int
    decreases s.len(),
{
    if s.len() == 0 {
        0
    } else {
        digits_val(s.drop_last()) * 10 + digit_val_ch(s.last())
    }
}

/// The value of an integer chunk.
pub open spec fn int_chunk_val(s: Seq<char>) -> int {
    if s.len() >= 1 && s[0] == '-' {
        -digits_val(s.skip(1))
    } else {
        digits_val(s)
    }
}

pub open spec fn int_chunk_in_range(s: Seq<char>) -> bool {
    i64::MIN <= int_chunk_val(s) <= i64::MAX
}

/// What the chunk starting at non-delimiter position `pos` lexes to.
pub open spec fn chunk_token(s: Seq<char>, pos: int) -> LexStep {
    let j = chunk_end(s, pos);
    let w = s.subrange(pos, j);
    if is_int_chunk(w) {
        if int_chunk_in_range(w) {
            (j, Result::Ok(Option::Some(TokenM::IntegerLiteral(int_chunk_val(w) as i64))))
        } else {
            (j, Result::Err("integer literal out of range"@))
        }
    } else {
        (j, Result::Ok(Option::Some(TokenM::Symbol(w))))
    }
}

/// One lexing step from `pos`: the specification `Lexer::next_token` meets.
pub open spec fn next_token_spec(s: Seq<char>, pos: int) -> LexStep {
    let p = skip_ws(s, pos);
    if p >= s.len() {
        (p, Result::Ok(Option::None))
    } else if s[p] == '(' {
        (p + 1, Result::Ok(Option::Some(TokenM::LeftPar)))
    } else if s[p] == ')' {
        (p + 1, Result::Ok(Option::Some(TokenM::RightPar)))
    } else if s[p] == '"' {
        match string_end(s, p + 1) {
            Option::Some(j) => (
                j + 1,
                Result::Ok(Option::Some(TokenM::StringLiteral(s.subrange(p + 1, j)))),
            ),
            Option::None => (s.len() as int, Result::Err("unterminated string literal"@)),
        }
    } else {
        chunk_token(s, p)
    }
}

/// The mathematical image of a lexing result.
pub open spec fn lex_result_view(r: Result<Option<Token>, SyntaxError>) -> Result<
    Option<TokenM>,
    Seq<char>,
> {
    match r {
        Result::Ok(Option::None) => Result::Ok(Option::None),
        Result::Ok(Option::Some(t)) => Result::Ok(Option::Some(t@)),
        Result::Err(e) => Result::Err(e@),
    }
}

pub proof fn lemma_skip_ws_bounds(s: Seq<char>, pos: int)
    requires
        0 <= pos <= s.len(),
    ensures
        pos <= skip_ws(s, pos) <= s.len(),
        skip_ws(s, pos) < s.len() ==> !is_ws_ch(s[skip_ws(s, pos)]),
    decreases s.len() - pos,
{
    if pos < s.len() && is_ws_ch(s[pos]) {
        lemma_skip_ws_bounds(s, pos + 1);
    }
}

pub proof fn lemma_chunk_end_bounds(s: Seq<char>, pos: int)
    requires
        0 <= pos <= s.len(),
    ensures
        pos <= chunk_end(s, pos) <= s.len(),
    decreases s.len() - pos,
{
    if pos < s.len() && !is_delim_ch(s[pos]) {
        lemma_chunk_end_bounds(s, pos + 1);
    }
}

pub proof fn lemma_string_end_bounds(s: Seq<char>, pos: int)
    requires
        0 <= pos <= s.len(),
    ensures
        match string_end(s, pos) {
            Option::Some(j) => pos <= j < s.len() && s[j] == '"',
            Option::None => true,
        },
    decreases s.len() - pos,
{
    if pos < s.len() && s[pos] != '"' {
        lemma_string_end_bounds(s, pos + 1);
    }
}

/// A successful lexing step moves forward, and never past the end.
pub proof fn lemma_next_token_advances(s: Seq<char>, pos: int)
    requires
        0 <= pos <= s.len(),
    ensures
        ({
            let (p2, r) = next_token_spec(s, pos);
            pos <= p2 <= s.len() && (r matches Result::Ok(Option::Some(_)) ==> p2 > pos)
        }),
{
    lemma_skip_ws_bounds(s, pos);
    let p = skip_ws(s, pos);
    if p < s.len() {
        if s[p] == '"' {
            lemma_string_end_bounds(s, p + 1);
        } else if s[p] != '(' && s[p] != ')' {
            assert(!is_delim_ch(s[p]));
            assert(chunk_end(s, p) == chunk_end(s, p + 1));
            lemma_chunk_end_bounds(s, p + 1);
        }
    }
}

/// Translates digit-ness of a subrange to digit-ness of its characters.
proof fn lemma_all_digits_subrange(s: Seq<char>, a: int, b: int)
    requires
        0 <= a <= b <= s.len(),
    ensures
        all_digits(s.subrange(a, b)) == (forall|k: int|
            a <= k < b ==> is_digit_ch(#[trigger] s[k])),
{
    let w = s.subrange(a, b);
    if forall|k: int| a <= k < b ==> is_digit_ch(#[trigger] s[k]) {
        assert forall|i: int| 0 <= i < w.len() implies is_digit_ch(#[trigger] w[i]) by {
            assert(w[i] == s[a + i]);
        }
    }
    if all_digits(w) {
        assert forall|k: int| a <= k < b implies is_digit_ch(#[trigger] s[k]) by {
            assert(w[k - a] == s[k]);
        }
    }
}

/// A value is unchanged by appending more digits below it.
proof fn lemma_digits_val_mono(s: Seq<char>, i: int, j: int)
    requires
        0 <= i <= j <= s.len(),
        all_digits(s),
    ensures
        digits_val(s.subrange(0, i)) <= digits_val(s.subrange(0, j)),
        digits_val(s.subrange(0, j)) >= 0,
    decreases j - i,
{
    if i == j {
        lemma_digits_val_nonneg(s.subrange(0, i));
    } else {
        lemma_digits_val_mono(s, i, j - 1);
        let w = s.subrange(0, j);
        assert(w.drop_last() =~= s.subrange(0, j - 1));
        assert(digit_val_ch(w.last()) >= 0);
    }
}

proof fn lemma_digits_val_nonneg(s: Seq<char>)
    requires
        all_digits(s),
    ensures
        digits_val(s) >= 0,
    decreases s.len(),
{
    if s.len() > 0 {
        assert(all_digits(s.drop_last())) by {
            assert(forall|i: int|
                0 <= i < s.len() - 1 ==> #[trigger] s.drop_last()[i] == s[i]);
        }
        lemma_digits_val_nonneg(s.drop_last());
    }
}

/// The lexer proper: the source text as characters, and a cursor.
pub struct Lexer {
    chars: Vec<char>,
    pos: usize,
}

impl Lexer {
    pub closed spec fn text(&self) -> Seq<char> {
        self.chars@
    }

    pub closed spec fn cursor(&self) -> int {
        self.pos as int
    }

    pub open spec fn wf(&self) -> bool {
        0 <= self.cursor() <= self.text().len()
    }

    #[verifier::loop_isolation(false)]
    pub fn create(input: &str) -> (lx: Lexer)
        ensures
            lx.text() == input@,
            lx.cursor() == 0,
            lx.wf(),
    {
        let n = input.unicode_len();
        let mut chars: Vec<char> = Vec::new();
        let mut i: usize = 0;
        while i < n
            invariant
                n == input@.len(),
                0 <= i <= n,
                chars@ =~= input@.subrange(0, i as int),
            decreases n - i,
        {
            chars.push(input.get_char(i));
            i = i + 1;
        }
        proof {
            assert(chars@ =~= input@);
        }
        Lexer { chars, pos: 0 }
    }

    /// Reads the next token, or `None` at the end of the input.
    #[verifier::loop_isolation(false)]
    pub fn next_token(&mut self) -> (r: Result<Option<Token>, SyntaxError>)
        requires
            old(self).wf(),
        ensures
            final(self).text() == old(self).text(),
            final(self).wf(),
            (final(self).cursor(), lex_result_view(r)) == next_token_spec(
                old(self).text(),
                old(self).cursor(),
            ),
            r matches Result::Ok(Option::Some(_)) ==> final(self).cursor() > old(self).cursor(),
    {
        let ghost s = self.chars@;
        let ghost pos0 = self.pos as int;
        proof {
            lemma_next_token_advances(s, pos0);
        }
        let n = self.chars.len();
        // Skip whitespace.
        while self.pos < n && (self.chars[self.pos] == ' ' || self.chars[self.pos] == '\t'
            || self.chars[self.pos] == '\n' || self.chars[self.pos] == '\r')
            invariant
                self.chars@ == s,
                0 <= self.pos <= n,
                skip_ws(s, pos0) == skip_ws(s, self.pos as int),
            decreases n - self.pos,
        {
            self.pos = self.pos + 1;
        }
        let ghost p = self.pos as int;
        proof {
            assert(skip_ws(s, pos0) == p);
        }
        if self.pos == n {
            return Result::Ok(Option::None);
        }
        let c = self.chars[self.pos];
        if c == '(' {
            self.pos = self.pos + 1;
            Result::Ok(Option::Some(Token::LeftPar))
        } else if c == ')' {
            self.pos = self.pos + 1;
            Result::Ok(Option::Some(Token::RightPar))
        } else if c == '"' {
            self.pos = self.pos + 1;
            let mut content = String::new();
            while self.pos < n && self.chars[self.pos] != '"'
                invariant
                    self.chars@ == s,
                    n == s.len(),
                    p + 1 <= self.pos <= n,
                    string_end(s, p + 1) == string_end(s, self.pos as int),
                    content@ =~= s.subrange(p + 1, self.pos as int),
                decreases n - self.pos,
            {
                proof {
                    assert(s.subrange(p + 1, self.pos + 1) =~= s.subrange(
                        p + 1,
                        self.pos as int,
                    ).push(s[self.pos as int]));
                }
                crate::text::push_char(&mut content, self.chars[self.pos]);
                self.pos = self.pos + 1;
            }
            if self.pos == n {
                proof {
                    assert(string_end(s, self.pos as int) is None);
                }
                Result::Err(SyntaxError::new("unterminated string literal"))
            } else {
                proof {
                    assert(string_end(s, self.pos as int) == Option::Some(self.pos as int));
                }
                self.pos = self.pos + 1;
                Result::Ok(Option::Some(Token::StringLiteral(content)))
            }
        } else {
            self.chunk_token_exec()
        }
    }

    /// Lexes the symbol or integer chunk starting at the cursor.
    #[verifier::loop_isolation(false)]
    fn chunk_token_exec(&mut self) -> (r: Result<Option<Token>, SyntaxError>)
        requires
            old(self).wf(),
            old(self).cursor() < old(self).text().len(),
            !is_delim_ch(old(self).text()[old(self).cursor()]),
        ensures
            final(self).text() == old(self).text(),
            final(self).wf(),
            (final(self).cursor(), lex_result_view(r)) == chunk_token(
                old(self).text(),
                old(self).cursor(),
            ),
    {
        let ghost s = self.chars@;
        let ghost p = self.pos as int;
        let n = self.chars.len();
        let start = self.pos;
        let mut word = String::new();
        while self.pos < n && !(self.chars[self.pos] == ' ' || self.chars[self.pos] == '\t'
            || self.chars[self.pos] == '\n' || self.chars[self.pos] == '\r'
            || self.chars[self.pos] == '(' || self.chars[self.pos] == ')'
            || self.chars[self.pos] == '"')
            invariant
                self.chars@ == s,
                p <= self.pos <= n,
                chunk_end(s, p) == chunk_end(s, self.pos as int),
                word@ =~= s.subrange(p, self.pos as int),
            decreases n - self.pos,
        {
            proof {
                assert(s.subrange(p, self.pos + 1) =~= s.subrange(p, self.pos as int).push(
                    s[self.pos as int],
                ));
            }
            crate::text::push_char(&mut word, self.chars[self.pos]);
            self.pos = self.pos + 1;
        }
        proof {
            assert(self.pos as int == chunk_end(s, self.pos as int));
        }
        let ghost w = s.subrange(p, chunk_end(s, p));
        proof {
            assert(word@ =~= w);
            assert(chunk_end(s, p) == chunk_end(s, p + 1));
            lemma_chunk_end_bounds(s, p + 1);
        }
        // Classify: an integer literal, or a symbol.
        let neg = self.chars[start] == '-';
        let dstart = if neg { start + 1 } else { start };
        proof {
            if neg {
                assert(w.skip(1) =~= s.subrange(p + 1, chunk_end(s, p)));
            }
            lemma_all_digits_subrange(s, dstart as int, chunk_end(s, p));
        }
        let mut all_dig = dstart < self.pos;
        let mut i = dstart;
        while i < self.pos
            invariant
                self.chars@ == s,
                dstart <= i <= self.pos <= n,
                n == s.len(),
                all_dig == (dstart < self.pos && forall|k: int|
                    dstart <= k < i ==> is_digit_ch(#[trigger] s[k])),
            decreases self.pos - i,
        {
            let c = self.chars[i];
            let cv = c as u32;
            proof {
                assert(is_digit_ch(s[i as int]) == (48 <= cv && cv <= 57));
            }
            if !(48 <= cv && cv <= 57) {
                all_dig = false;
            }
            i = i + 1;
        }
        proof {
            assert(is_int_chunk(w) == all_dig);
        }
        if !all_dig {
            return Result::Ok(Option::Some(Token::Symbol(word)));
        }
        // Parse the digits, watching the i64 range.
        let cap: u64 = if neg {
            9223372036854775808u64
        } else {
            9223372036854775807u64
        };
        let mut acc: u64 = 0;
        let mut j = dstart;
        let ghost dg = if neg { w.skip(1) } else { w };
        proof {
            assert(dg =~= s.subrange(dstart as int, chunk_end(s, p)));
            assert(all_digits(dg));
            lemma_digits_val_nonneg(dg);
            assert(dg.subrange(0, 0) =~= Seq::<char>::empty());
        }
        let end = self.pos;
        while j < end
            invariant
                self.chars@ == s,
                n == s.len(),
                dstart <= j <= end <= n,
                end == chunk_end(s, p),
                all_digits(dg),
                dg =~= s.subrange(dstart as int, end as int),
                acc as int == digits_val(dg.subrange(0, j - dstart)),
                acc <= cap,
                cap >= 9,
            decreases end - j,
        {
            let c = self.chars[j];
            proof {
                assert(dg[j - dstart] == s[j as int]);
                assert(is_digit_ch(dg[j - dstart]));
                assert(48 <= c as u32 && c as u32 <= 57);
            }
            let d = (c as u32 - 48) as u64;
            proof {
                assert(d as int == digit_val_ch(dg[j - dstart]));
                assert(dg.subrange(0, j - dstart + 1).drop_last() =~= dg.subrange(0, j - dstart));
                assert(dg.subrange(0, j - dstart + 1).last() == dg[j - dstart]);
            }
            if acc > (cap - d) / 10 {
                // The chunk's value is out of the i64 range.
                proof {
                    assert((acc as int) * 10 + d as int > cap as int) by (nonlinear_arith)
                        requires
                            acc as int > (cap as int - d as int) / 10,
                            0 <= d as int <= 9,
                            acc as int >= 0,
                            cap as int >= 9,
                    ;
                    assert(digits_val(dg.subrange(0, j - dstart + 1)) > cap as int);
                    lemma_digits_val_mono(dg, j - dstart + 1, dg.len() as int);
                    assert(dg.subrange(0, dg.len() as int) =~= dg);
                    assert(digits_val(dg) > cap as int);
                    assert(!int_chunk_in_range(w));
                }
                return Result::Err(SyntaxError::new("integer literal out of range"));
            }
            proof {
                assert((acc as int) * 10 + d as int <= cap as int) by (nonlinear_arith)
                    requires
                        acc as int <= (cap as int - d as int) / 10,
                        0 <= d as int <= 9,
                        acc as int >= 0,
                        cap as int >= 9,
                ;
            }
            acc = acc * 10 + d;
            j = j + 1;
        }
        proof {
            assert(dg.subrange(0, dg.len() as int) =~= dg);
            assert(acc as int == digits_val(dg));
        }
        let val: i64 = if neg {
            if acc == 9223372036854775808u64 {
                i64::MIN
            } else {
                -(acc as i64)
            }
        } else {
            acc as i64
        };
        proof {
            assert(val as int == int_chunk_val(w));
            assert(int_chunk_in_range(w));
        }
        Result::Ok(Option::Some(Token::IntegerLiteral(val)))
    }
}

} // verus!

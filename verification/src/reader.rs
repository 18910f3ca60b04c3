//! The reader: turns source text into s-expression forms.
//!
//! `read_form_spec` is the functional specification of one reading step;
//! `Reader::read_form` is proved to compute exactly that. The reader treats
//! `nil` as the empty list and `t` as the truth form.

use vstd::prelude::*;

use crate::error::SyntaxError;
use crate::lexer::lemma_next_token_advances;
use crate::lexer::next_token_spec;
use crate::lexer::Lexer;
use crate::lexer::Token;
use crate::lexer::TokenM;
use crate::repr::form_to_hir;
use crate::repr::form_to_hir_spec;
use crate::repr::form_views;
use crate::repr::Form;
use crate::repr::FormM;
use crate::repr::HIRM;
use crate::repr::HIR;
use crate::text::str_eql;

verus! {

pub open spec fn eof_msg() -> Seq<char> {
    "unexpected end of file"@
}

pub open spec fn unbalanced_msg() -> Seq<char> {
    "unbalanced parens"@
}

/// Tokens that map to a form on their own: everything but the parentheses.
/// `nil` reads as the empty list and `t` as the truth form.
pub open spec fn tok_to_trivial_form_spec(t: TokenM) -> Option<FormM> {
    match t {
        TokenM::Symbol(s) => if s == "nil"@ {
            Option::Some(FormM::List(Seq::empty()))
        } else if s == "t"@ {
            Option::Some(FormM::T)
        } else {
            Option::Some(FormM::Symbol(s))
        },
        TokenM::IntegerLiteral(i) => Option::Some(FormM::Integer(i)),
        TokenM::StringLiteral(s) => Option::Some(FormM::String(s)),
        TokenM::LeftPar => Option::None,
        TokenM::RightPar => Option::None,
    }
}

/// The next token, with end of input turned into an error.
pub open spec fn next_tok_or_eof_spec(s: Seq<char>, pos: int) -> (int, Result<
    TokenM,
    Seq<char>,
>) {
    let (p2, r) = next_token_spec(s, pos);
    match r {
        Result::Err(m) => (p2, Result::Err(m)),
        Result::Ok(Option::None) => (p2, Result::Err(eof_msg())),
        Result::Ok(Option::Some(t)) => (p2, Result::Ok(t)),
    }
}

/// The items of a parenthesised list, read until the closing parenthesis.
/// The fuel only bounds the recursion; `list_fuel` always suffices, because
/// every token consumes at least one character.
pub open spec fn read_list_rec(s: Seq<char>, pos: int, fuel: nat) -> (int, Result<
    Seq<FormM>,
    Seq<char>,
>)
    decreases fuel,
{
    if fuel == 0 {
        (pos, Result::Err(eof_msg()))
    } else {
        let (p2, tr) = next_tok_or_eof_spec(s, pos);
        match tr {
            Result::Err(m) => (p2, Result::Err(m)),
            Result::Ok(tok) => match tok {
                TokenM::RightPar => (p2, Result::Ok(Seq::empty())),
                TokenM::LeftPar => {
                    let (p3, inner) = read_list_rec(s, p2, (fuel - 1) as nat);
                    match inner {
                        Result::Err(m) => (p3, Result::Err(m)),
                        Result::Ok(v) => {
                            let (p4, rest) = read_list_rec(s, p3, (fuel - 1) as nat);
                            match rest {
                                Result::Err(m) => (p4, Result::Err(m)),
                                Result::Ok(w) => (p4, Result::Ok(seq![FormM::List(v)] + w)),
                            }
                        },
                    }
                },
                _ => match tok_to_trivial_form_spec(tok) {
                    Option::Some(f) => {
                        let (p3, rest) = read_list_rec(s, p2, (fuel - 1) as nat);
                        match rest {
                            Result::Err(m) => (p3, Result::Err(m)),
                            Result::Ok(w) => (p3, Result::Ok(seq![f] + w)),
                        }
                    },
                    Option::None => (p2, Result::Err(eof_msg())),
                },
            },
        }
    }
}

/// Fuel that always suffices to read a list starting at `pos`.
pub open spec fn list_fuel(s: Seq<char>, pos: int) -> nat {
    (s.len() - pos + 1) as nat
}

/// What reading list items from `pos` yields.
pub open spec fn read_list_form_spec(s: Seq<char>, pos: int) -> (int, Result<
    Seq<FormM>,
    Seq<char>,
>) {
    read_list_rec(s, pos, list_fuel(s, pos))
}

/// What one reading step from `pos` yields: a form, end of input, or an
/// error.
pub open spec fn read_form_spec(s: Seq<char>, pos: int) -> (int, Result<
    Option<FormM>,
    Seq<char>,
>) {
    let (p2, r) = next_token_spec(s, pos);
    match r {
        Result::Err(m) => (p2, Result::Err(m)),
        Result::Ok(Option::None) => (p2, Result::Ok(Option::None)),
        Result::Ok(Option::Some(tok)) => match tok_to_trivial_form_spec(tok) {
            Option::Some(f) => (p2, Result::Ok(Option::Some(f))),
            Option::None => match tok {
                TokenM::LeftPar => {
                    let (p3, r2) = read_list_form_spec(s, p2);
                    match r2 {
                        Result::Ok(v) => (p3, Result::Ok(Option::Some(FormM::List(v)))),
                        Result::Err(m) => (p3, Result::Err(m)),
                    }
                },
                _ => (p2, Result::Err(unbalanced_msg())),
            },
        },
    }
}

/// Reading list items stays within the text, and consumes at least the
/// closing parenthesis when it succeeds.
pub proof fn lemma_read_list_rec_pos(s: Seq<char>, pos: int, fuel: nat)
    requires
        0 <= pos <= s.len(),
    ensures
        pos <= read_list_rec(s, pos, fuel).0 <= s.len(),
        read_list_rec(s, pos, fuel).1 is Ok ==> read_list_rec(s, pos, fuel).0 > pos,
    decreases fuel,
{
    if fuel > 0 {
        lemma_next_token_advances(s, pos);
        let (p2, tr) = next_tok_or_eof_spec(s, pos);
        match tr {
            Result::Ok(tok) => match tok {
                TokenM::RightPar => {},
                TokenM::LeftPar => {
                    lemma_read_list_rec_pos(s, p2, (fuel - 1) as nat);
                    let (p3, inner) = read_list_rec(s, p2, (fuel - 1) as nat);
                    if inner is Ok {
                        lemma_read_list_rec_pos(s, p3, (fuel - 1) as nat);
                    }
                },
                _ => {
                    if tok_to_trivial_form_spec(tok) is Some {
                        lemma_read_list_rec_pos(s, p2, (fuel - 1) as nat);
                    }
                },
            },
            Result::Err(_) => {},
        }
    }
}

/// Any fuel at or above `list_fuel` reads the same items.
pub proof fn lemma_read_list_rec_fuel(s: Seq<char>, pos: int, f1: nat, f2: nat)
    requires
        0 <= pos <= s.len(),
        f1 >= list_fuel(s, pos),
        f2 >= list_fuel(s, pos),
    ensures
        read_list_rec(s, pos, f1) == read_list_rec(s, pos, f2),
    decreases f1,
{
    lemma_next_token_advances(s, pos);
    let (p2, tr) = next_tok_or_eof_spec(s, pos);
    match tr {
        Result::Ok(tok) => match tok {
            TokenM::RightPar => {},
            TokenM::LeftPar => {
                lemma_read_list_rec_fuel(s, p2, (f1 - 1) as nat, (f2 - 1) as nat);
                lemma_read_list_rec_pos(s, p2, (f1 - 1) as nat);
                let (p3, inner) = read_list_rec(s, p2, (f1 - 1) as nat);
                if inner is Ok {
                    lemma_read_list_rec_fuel(s, p3, (f1 - 1) as nat, (f2 - 1) as nat);
                }
            },
            _ => {
                if tok_to_trivial_form_spec(tok) is Some {
                    lemma_read_list_rec_fuel(s, p2, (f1 - 1) as nat, (f2 - 1) as nat);
                }
            },
        },
        Result::Err(_) => {},
    }
}

/// The mathematical image of a token-or-error result.
pub open spec fn tok_result_view(r: Result<Token, SyntaxError>) -> Result<TokenM, Seq<char>> {
    match r {
        Result::Ok(t) => Result::Ok(t@),
        Result::Err(e) => Result::Err(e@),
    }
}

pub open spec fn opt_form_view(r: Option<Form>) -> Option<FormM> {
    match r {
        Option::None => Option::None,
        Option::Some(f) => Option::Some(f@),
    }
}

/// The reader: a lexer over the source text.
pub struct Reader {
    lexer: Lexer,
}

impl Reader {
    pub closed spec fn text(&self) -> Seq<char> {
        self.lexer.text()
    }

    pub closed spec fn cursor(&self) -> int {
        self.lexer.cursor()
    }

    pub closed spec fn wf(&self) -> bool {
        self.lexer.wf()
    }

    pub fn create(input: &str) -> (r: Reader)
        ensures
            r.text() == input@,
            r.cursor() == 0,
            r.wf(),
    {
        Reader { lexer: Lexer::create(input) }
    }

    /// The next token; the end of the input is an error here.
    pub fn next_tok_or_eof(&mut self) -> (r: Result<Token, SyntaxError>)
        requires
            old(self).wf(),
        ensures
            final(self).text() == old(self).text(),
            final(self).wf(),
            (final(self).cursor(), tok_result_view(r)) == next_tok_or_eof_spec(
                old(self).text(),
                old(self).cursor(),
            ),
            old(self).cursor() <= final(self).cursor() <= old(self).text().len(),
            r is Ok ==> final(self).cursor() > old(self).cursor(),
    {
        proof {
            lemma_next_token_advances(old(self).text(), old(self).cursor());
        }
        match self.lexer.next_token() {
            Result::Err(e) => Result::Err(e),
            Result::Ok(Option::None) => Result::Err(SyntaxError::new("unexpected end of file")),
            Result::Ok(Option::Some(tok)) => Result::Ok(tok),
        }
    }

    /// Maps a token to the form it denotes on its own, if any.
    pub fn tok_to_trivial_form(&self, tok: &Token) -> (r: Option<Form>)
        ensures
            opt_form_view(r) == tok_to_trivial_form_spec(tok@),
    {
        match tok {
            Token::Symbol(s) => {
                if str_eql(s.as_str(), "nil") {
                    Option::Some(Form::List(Vec::new()))
                } else if str_eql(s.as_str(), "t") {
                    Option::Some(Form::T)
                } else {
                    Option::Some(Form::Symbol(s.clone()))
                }
            },
            Token::IntegerLiteral(i) => Option::Some(Form::Integer(*i)),
            Token::StringLiteral(s) => Option::Some(Form::String(s.clone())),
            Token::LeftPar => Option::None,
            Token::RightPar => Option::None,
        }
    }

    /// Reads the items of a list up to and including the closing
    /// parenthesis.
    fn read_list_items(&mut self) -> (r: Result<Vec<Form>, SyntaxError>)
        requires
            old(self).wf(),
        ensures
            final(self).text() == old(self).text(),
            final(self).wf(),
            ({
                let (p2, r2) = read_list_form_spec(old(self).text(), old(self).cursor());
                final(self).cursor() == p2 && match (r, r2) {
                    (Result::Ok(v), Result::Ok(vm)) => form_views(v@) == vm,
                    (Result::Err(e), Result::Err(m)) => e@ == m,
                    _ => false,
                }
            }),
            old(self).cursor() <= final(self).cursor() <= old(self).text().len(),
            r is Ok ==> final(self).cursor() > old(self).cursor(),
        decreases self.text().len() - self.cursor(), 0int,
    {
        let ghost s = old(self).text();
        let ghost pos0 = old(self).cursor();
        let ghost fuel = list_fuel(s, pos0);
        let tok = match self.next_tok_or_eof() {
            Result::Ok(t) => t,
            Result::Err(e) => {
                return Result::Err(e);
            },
        };
        let ghost p2 = self.cursor();
        match tok {
            Token::RightPar => {
                proof {
                    assert(form_views(Seq::<Form>::empty()) =~= Seq::<FormM>::empty());
                }
                Result::Ok(Vec::new())
            },
            Token::LeftPar => {
                proof {
                    lemma_read_list_rec_fuel(s, p2, list_fuel(s, p2), (fuel - 1) as nat);
                }
                let inner = match self.read_list_form() {
                    Result::Ok(f) => f,
                    Result::Err(e) => {
                        return Result::Err(e);
                    },
                };
                let ghost p3 = self.cursor();
                proof {
                    lemma_read_list_rec_fuel(s, p3, list_fuel(s, p3), (fuel - 1) as nat);
                }
                let mut rest = match self.read_list_items() {
                    Result::Ok(v) => v,
                    Result::Err(e) => {
                        return Result::Err(e);
                    },
                };
                let ghost innerm = inner@;
                let ghost restg = rest@;
                let mut v: Vec<Form> = Vec::new();
                v.push(inner);
                v.append(&mut rest);
                proof {
                    assert(v@ =~= seq![v@[0]] + restg);
                    assert(v@.drop_first() =~= restg);
                    assert(form_views(v@) == seq![innerm] + form_views(restg));
                }
                Result::Ok(v)
            },
            tok => {
                match self.tok_to_trivial_form(&tok) {
                    Option::Some(f) => {
                        proof {
                            lemma_read_list_rec_fuel(s, p2, list_fuel(s, p2), (fuel - 1) as nat);
                        }
                        let mut rest = match self.read_list_items() {
                            Result::Ok(v) => v,
                            Result::Err(e) => {
                                return Result::Err(e);
                            },
                        };
                        let ghost fm = f@;
                        let ghost restg = rest@;
                        let mut v: Vec<Form> = Vec::new();
                        v.push(f);
                        v.append(&mut rest);
                        proof {
                            assert(v@ =~= seq![v@[0]] + restg);
                            assert(v@.drop_first() =~= restg);
                            assert(form_views(v@) == seq![fm] + form_views(restg));
                        }
                        Result::Ok(v)
                    },
                    Option::None => {
                        proof {
                            assert(false);
                        }
                        Result::Err(SyntaxError::new("unbalanced parens"))
                    },
                }
            },
        }
    }

    /// Reads a parenthesised list whose opening parenthesis has already
    /// been consumed.
    pub fn read_list_form(&mut self) -> (r: Result<Form, SyntaxError>)
        requires
            old(self).wf(),
        ensures
            final(self).text() == old(self).text(),
            final(self).wf(),
            ({
                let (p2, r2) = read_list_form_spec(old(self).text(), old(self).cursor());
                final(self).cursor() == p2 && match (r, r2) {
                    (Result::Ok(f), Result::Ok(vm)) => f@ == FormM::List(vm),
                    (Result::Err(e), Result::Err(m)) => e@ == m,
                    _ => false,
                }
            }),
            old(self).cursor() <= final(self).cursor() <= old(self).text().len(),
            r is Ok ==> final(self).cursor() > old(self).cursor(),
        decreases self.text().len() - self.cursor(), 1int,
    {
        match self.read_list_items() {
            Result::Ok(v) => Result::Ok(Form::List(v)),
            Result::Err(e) => Result::Err(e),
        }
    }

    /// Reads the next form; `None` at the end of the input.
    pub fn read_form(&mut self) -> (r: Result<Option<Form>, SyntaxError>)
        requires
            old(self).wf(),
        ensures
            final(self).text() == old(self).text(),
            final(self).wf(),
            ({
                let (p2, r2) = read_form_spec(old(self).text(), old(self).cursor());
                final(self).cursor() == p2 && match (r, r2) {
                    (Result::Ok(f), Result::Ok(fm)) => opt_form_view(f) == fm,
                    (Result::Err(e), Result::Err(m)) => e@ == m,
                    _ => false,
                }
            }),
            old(self).cursor() <= final(self).cursor() <= old(self).text().len(),
    {
        proof {
            lemma_next_token_advances(old(self).text(), old(self).cursor());
        }
        let tok = match self.lexer.next_token() {
            Result::Err(e) => {
                return Result::Err(e);
            },
            Result::Ok(Option::None) => {
                return Result::Ok(Option::None);
            },
            Result::Ok(Option::Some(t)) => t,
        };
        match self.tok_to_trivial_form(&tok) {
            Option::Some(form) => Result::Ok(Option::Some(form)),
            Option::None => match tok {
                Token::LeftPar => match self.read_list_form() {
                    Result::Ok(f) => Result::Ok(Option::Some(f)),
                    Result::Err(e) => Result::Err(e),
                },
                Token::RightPar => Result::Err(SyntaxError::new("unbalanced parens")),
                _ => {
                    proof {
                        assert(false);
                    }
                    Result::Err(SyntaxError::new("unbalanced parens"))
                },
            },
        }
    }
}


/// What reading and lowering one form yields.
pub open spec fn read_and_parse_spec(s: Seq<char>, pos: int) -> (int, Result<
    Option<HIRM>,
    Seq<char>,
>) {
    let (p2, r) = read_form_spec(s, pos);
    match r {
        Result::Err(m) => (p2, Result::Err(m)),
        Result::Ok(Option::None) => (p2, Result::Ok(Option::None)),
        Result::Ok(Option::Some(f)) => match form_to_hir_spec(f) {
            Result::Ok(h) => (p2, Result::Ok(Option::Some(h))),
            Result::Err(m) => (p2, Result::Err(m)),
        },
    }
}

/// Reads one form and lowers it to an expression; `None` at the end of
/// the input.
pub fn read_and_parse(reader: &mut Reader) -> (r: Result<Option<HIR>, SyntaxError>)
    requires
        old(reader).wf(),
    ensures
        final(reader).text() == old(reader).text(),
        final(reader).wf(),
        ({
            let (p2, r2) = read_and_parse_spec(old(reader).text(), old(reader).cursor());
            final(reader).cursor() == p2 && match (r, r2) {
                (Result::Ok(Option::None), Result::Ok(Option::None)) => true,
                (Result::Ok(Option::Some(h)), Result::Ok(Option::Some(hm))) => h@ == hm,
                (Result::Err(e), Result::Err(m)) => e@ == m,
                _ => false,
            }
        }),
{
    match reader.read_form() {
        Result::Err(e) => Result::Err(e),
        Result::Ok(Option::None) => Result::Ok(Option::None),
        Result::Ok(Option::Some(form)) => match form_to_hir(&form) {
            Result::Ok(h) => Result::Ok(Option::Some(h)),
            Result::Err(e) => Result::Err(e),
        },
    }
}

} // verus!

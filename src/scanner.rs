//! The lexer: turns source text into tokens, recording lexical errors as it goes.
use vstd::prelude::*;
use vstd::std_specs::iter::IteratorSpec;
use crate::token::{Token, TokenType, TokenModel, token_models, lemma_token_models_push};
use crate::lexspec::{
    is_alphabetic_char, is_numeric_char, is_digit, LexErrorKind, Lexed, Step, lexed_models, single_kind,
    operator_kind, keyword_kind, digits_end, ident_end, find_char, count_newlines, number_end, number_step, step,
    plain_step, opt_seq, lex_from, lex, lemma_step_bounds, lemma_digits_end, lemma_find_char, lemma_ident_end,
    well_formed_from, lemma_lex_well_formed, lemma_lex_from_rescans, rescans, silent, gap_start,
    lemma_lex_gaps_silent,
};

verus! {

/// Relies on `char::is_alphabetic`: whether a character has the Unicode
/// Alphabetic property. Among ASCII characters exactly the letters have it.
#[verifier::external_body]
fn alphabetic(c: char) -> (r: bool)
    ensures
        r == is_alphabetic_char(c),
        ('a' <= c && c <= 'z') || ('A' <= c && c <= 'Z') ==> r,
        (c as u32) < 128 && !(('a' <= c && c <= 'z') || ('A' <= c && c <= 'Z')) ==> !r,
{
    c.is_alphabetic()
}

/// Relies on `char::is_numeric`: whether a character is in a Unicode numeric
/// category (Nd, Nl, No). Among ASCII characters exactly the digits are.
#[verifier::external_body]
fn numeric(c: char) -> (r: bool)
    ensures
        r == is_numeric_char(c),
        is_digit(c) ==> r,
        (c as u32) < 128 && !is_digit(c) ==> !r,
{
    c.is_numeric()
}

/// A lexical error with the line on which it was found.
#[derive(Debug, Clone, Copy, PartialEq, Eq, Structural)]
pub struct LexError {
    pub kind: LexErrorKind,
    pub line: usize,
}

pub open spec fn error_models(es: Seq<LexError>) -> Seq<(LexErrorKind, int)> {
    es.map_values(|e: LexError| (e.kind, e.line as int))
}

proof fn lemma_error_models_push(es: Seq<LexError>, e: LexError)
    ensures
        error_models(es.push(e)) == error_models(es) + seq![(e.kind, e.line as int)],
{
    assert(error_models(es.push(e)) =~= error_models(es) + seq![(e.kind, e.line as int)]);
}

proof fn lemma_models_push(ts: Seq<Token>, t: Token, s: Seq<char>, l: Lexed)
    requires
        t.model() == l.model_in(s),
    ensures
        token_models(ts.push(t)) == token_models(ts) + lexed_models(s, seq![l]),
{
    lemma_token_models_push(ts, t);
    assert(lexed_models(s, seq![l]) =~= seq![l.model_in(s)]);
    assert(token_models(ts.push(t)) =~= token_models(ts) + lexed_models(s, seq![l]));
}

proof fn lemma_models_none(ts: Seq<Token>, s: Seq<char>)
    ensures
        token_models(ts) == token_models(ts) + lexed_models(s, Seq::<Lexed>::empty()),
{
    assert(token_models(ts) =~= token_models(ts) + lexed_models(s, Seq::<Lexed>::empty()));
}

/// `nt` gives, for each lexeme, the text that `f` returns for it.
pub open spec fn renders<F: Fn(String) -> String>(f: F, nt: spec_fn(Seq<char>) -> Seq<char>) -> bool {
    forall|x: String, r: String| #[trigger] f.ensures((x,), r) ==> r@ == nt(x@)
}

pub open spec fn step_errors(st: Step) -> Seq<(LexErrorKind, int)> {
    match st.error {
        Some(k) => seq![(k, st.line)],
        None => Seq::empty(),
    }
}

/// Scans one source text. Build it with `new`, run `scan_tokens` once, then
/// read `get_tokens`, `has_error` and `get_errors`.
pub struct Scanner {
    text: String,
    source: Vec<char>,
    tokens: Vec<Token>,
    errors: Vec<LexError>,
    start: usize,
    current: usize,
    line: usize,
    error_occurred: bool,
}

impl Scanner {
    pub closed spec fn source_view(&self) -> Seq<char> {
        self.source@
    }

    pub closed spec fn tokens_view(&self) -> Seq<Token> {
        self.tokens@
    }

    pub closed spec fn errors_view(&self) -> Seq<LexError> {
        self.errors@
    }

    pub closed spec fn error_view(&self) -> bool {
        self.error_occurred
    }

    closed spec fn inv(&self) -> bool {
        &&& self.text@ == self.source@
        &&& self.source@.len() < usize::MAX
        &&& self.start <= self.current <= self.source@.len()
        &&& 1 <= self.line <= self.current + 1
        &&& self.error_occurred == (self.errors@.len() > 0)
    }

    /// `after` is this scanner after the step `st`.
    closed spec fn stepped(&self, after: Scanner, st: Step) -> bool {
        &&& after.current == st.next
        &&& after.line == st.line
        &&& token_models(after.tokens@) == token_models(self.tokens@) + lexed_models(self.source@, opt_seq(st.token))
        &&& error_models(after.errors@) == error_models(self.errors@) + step_errors(st)
    }

    /// Nothing scanned yet.
    pub closed spec fn fresh(&self) -> bool {
        &&& self.inv()
        &&& self.tokens@.len() == 0
        &&& self.errors@.len() == 0
        &&& self.current == 0
        &&& self.line == 1
    }

    pub fn new(source: String) -> (r: Scanner)
        requires
            source@.len() < usize::MAX,
        ensures
            r.source_view() == source@,
            r.fresh(),
    {
        let mut chars: Vec<char> = Vec::new();
        let mut it = source.as_str().chars();
        broadcast use vstd::string::group_string_axioms;
        loop
            invariant
                chars@ + it.remaining() == source@,
            ensures
                chars@ == source@,
            decreases source@.len() - chars@.len(),
        {
            match it.next() {
                Some(c) => {
                    chars.push(c);
                    assert(chars@ + it.remaining() =~= source@);
                },
                None => {
                    assert(chars@ =~= source@);
                    break;
                },
            }
        }
        Scanner {
            text: source,
            source: chars,
            tokens: Vec::new(),
            errors: Vec::new(),
            start: 0,
            current: 0,
            line: 1,
            error_occurred: false,
        }
    }

    /// Scans the whole text and appends the end marker; `number_text` gives
    /// the decoded text of each number literal from its lexeme.
    pub fn scan_tokens<F: Fn(String) -> String>(&mut self, number_text: &F)
        requires
            old(self).fresh(),
            forall|x: String| number_text.requires((x,)),
        ensures
            final(self).source_view() == old(self).source_view(),
            forall|nt: spec_fn(Seq<char>) -> Seq<char>|
                renders(*number_text, nt) ==> {
                    let s = old(self).source_view();
                    &&& token_models(final(self).tokens_view()) == lexed_models(s, lex(s, nt).0)
                    &&& error_models(final(self).errors_view()) == lex(s, nt).1
                    &&& final(self).error_view() == (lex(s, nt).1.len() > 0)
                },
    {
        let ghost s = self.source@;
        assert(token_models(self.tokens@) =~= Seq::<TokenModel>::empty());
        assert(error_models(self.errors@) =~= Seq::<(LexErrorKind, int)>::empty());
        while self.current < self.source.len()
            invariant
                self.inv(),
                self.source@ == s,
                s == old(self).source@,
                forall|x: String| number_text.requires((x,)),
                forall|nt: spec_fn(Seq<char>) -> Seq<char>|
                    renders(*number_text, nt) ==> {
                        let rest = lex_from(s, self.current as int, self.line as int, nt);
                        &&& token_models(self.tokens@) + lexed_models(s, rest.0) == lexed_models(s, lex(s, nt).0)
                        &&& error_models(self.errors@) + rest.1 == lex(s, nt).1
                    },
            decreases s.len() - self.current,
        {
            let ghost before = *self;
            let ghost p = self.current as int;
            let ghost l = self.line as int;
            self.scan_token(number_text);
            proof {
                assert forall|nt: spec_fn(Seq<char>) -> Seq<char>| renders(*number_text, nt) implies {
                    let rest = lex_from(s, self.current as int, self.line as int, nt);
                    &&& token_models(self.tokens@) + lexed_models(s, rest.0) == lexed_models(s, lex(s, nt).0)
                    &&& error_models(self.errors@) + rest.1 == lex(s, nt).1
                } by {
                    lemma_step_bounds(s, p, l, nt);
                    let st = step(s, p, l, nt);
                    let rest = lex_from(s, st.next, st.line, nt);
                    assert(lex_from(s, p, l, nt).0 == opt_seq(st.token) + rest.0);
                    assert(lexed_models(s, opt_seq(st.token) + rest.0) =~= lexed_models(s, opt_seq(st.token))
                        + lexed_models(s, rest.0));
                    assert(token_models(self.tokens@) + lexed_models(s, rest.0) =~= token_models(before.tokens@)
                        + lexed_models(s, lex_from(s, p, l, nt).0));
                    assert(error_models(self.errors@) + rest.1 =~= error_models(before.errors@) + (step_errors(st)
                        + rest.1));
                }
            }
        }
        let eof = Token::new(TokenType::EOF, String::new(), None, self.line);
        let ghost before = *self;
        self.tokens.push(eof);
        proof {
            let e = Lexed {
                kind: TokenType::EOF,
                start: s.len() as int,
                end: s.len() as int,
                literal: None,
                line: before.line as int,
            };
            assert(s.subrange(s.len() as int, s.len() as int) =~= Seq::<char>::empty());
            lemma_models_push(before.tokens@, eof, s, e);
            assert forall|nt: spec_fn(Seq<char>) -> Seq<char>| renders(*number_text, nt) implies {
                &&& token_models(self.tokens@) == lexed_models(s, lex(s, nt).0)
                &&& error_models(self.errors@) == lex(s, nt).1
                &&& self.error_occurred == (lex(s, nt).1.len() > 0)
            } by {
                assert(lex_from(s, before.current as int, before.line as int, nt).0 == seq![e]);
                assert(error_models(self.errors@) =~= lex(s, nt).1);
            }
        }
    }

    pub fn has_error(&self) -> (r: bool)
        ensures
            r == self.error_view(),
    {
        self.error_occurred
    }

    pub fn get_tokens(&self) -> (r: &Vec<Token>)
        ensures
            r@ == self.tokens_view(),
    {
        &self.tokens
    }

    /// The tokens, handed over.
    pub fn into_tokens(self) -> (r: Vec<Token>)
        ensures
            r@ == self.tokens_view(),
    {
        self.tokens
    }

    pub fn get_errors(&self) -> (r: &Vec<LexError>)
        ensures
            r@ == self.errors_view(),
    {
        &self.errors
    }

    fn is_at_end(&self) -> (r: bool)
        requires
            self.inv(),
        ensures
            r == (self.current >= self.source@.len()),
    {
        self.current >= self.source.len()
    }

    fn advance(&mut self) -> (r: Option<char>)
        requires
            old(self).inv(),
        ensures
            final(self).inv(),
            final(self).source == old(self).source,
            final(self).text == old(self).text,
            final(self).tokens == old(self).tokens,
            final(self).errors == old(self).errors,
            final(self).error_occurred == old(self).error_occurred,
            final(self).start == old(self).start,
            final(self).line == old(self).line,
            old(self).current < old(self).source@.len() ==> r == Some(old(self).source@[old(self).current as int])
                && final(self).current == old(self).current + 1,
            old(self).current >= old(self).source@.len() ==> r is None && final(self).current == old(self).current,
    {
        if self.current < self.source.len() {
            let c = self.source[self.current];
            self.current = self.current + 1;
            Some(c)
        } else {
            None
        }
    }

    fn match_next(&mut self, expected: char) -> (r: bool)
        requires
            old(self).inv(),
        ensures
            final(self).inv(),
            final(self).source == old(self).source,
            final(self).text == old(self).text,
            final(self).tokens == old(self).tokens,
            final(self).errors == old(self).errors,
            final(self).error_occurred == old(self).error_occurred,
            final(self).start == old(self).start,
            final(self).line == old(self).line,
            r == (old(self).current < old(self).source@.len() && old(self).source@[old(self).current as int]
                == expected),
            final(self).current == old(self).current + if r { 1int } else { 0 },
    {
        if self.is_at_end() {
            return false;
        }
        if self.source[self.current] == expected {
            self.current = self.current + 1;
            return true;
        }
        false
    }

    fn add_token(&mut self, token_type: TokenType)
        requires
            old(self).inv(),
        ensures
            final(self).inv(),
            final(self).source == old(self).source,
            final(self).text == old(self).text,
            final(self).errors == old(self).errors,
            final(self).error_occurred == old(self).error_occurred,
            final(self).start == old(self).start,
            final(self).current == old(self).current,
            final(self).line == old(self).line,
            final(self).tokens@.len() == old(self).tokens@.len() + 1,
            final(self).tokens@.drop_last() == old(self).tokens@,
            final(self).tokens@.last().model() == (TokenModel {
                kind: token_type,
                lexeme: old(self).source@.subrange(old(self).start as int, old(self).current as int),
                literal: None,
                line: old(self).line as nat,
            }),
    {
        self.add_token_with_literal(token_type, None);
    }

    fn add_token_with_literal(&mut self, token_type: TokenType, literal: Option<String>)
        requires
            old(self).inv(),
        ensures
            final(self).inv(),
            final(self).source == old(self).source,
            final(self).text == old(self).text,
            final(self).errors == old(self).errors,
            final(self).error_occurred == old(self).error_occurred,
            final(self).start == old(self).start,
            final(self).current == old(self).current,
            final(self).line == old(self).line,
            final(self).tokens@.len() == old(self).tokens@.len() + 1,
            final(self).tokens@.drop_last() == old(self).tokens@,
            final(self).tokens@.last().model() == (TokenModel {
                kind: token_type,
                lexeme: old(self).source@.subrange(old(self).start as int, old(self).current as int),
                literal: crate::token::opt_text_view(literal),
                line: old(self).line as nat,
            }),
    {
        let text = self.text.as_str().substring_char(self.start, self.current).to_owned();
        self.tokens.push(Token::new(token_type, text, literal, self.line));
        proof {
            assert(self.tokens@.drop_last() =~= old(self).tokens@);
        }
    }

    fn add_error(&mut self, kind: LexErrorKind)
        requires
            old(self).inv(),
        ensures
            final(self).inv(),
            final(self).source == old(self).source,
            final(self).text == old(self).text,
            final(self).tokens == old(self).tokens,
            final(self).start == old(self).start,
            final(self).current == old(self).current,
            final(self).line == old(self).line,
            final(self).errors@ == old(self).errors@.push(LexError { kind, line: old(self).line }),
    {
        self.errors.push(LexError { kind, line: self.line });
        self.error_occurred = true;
    }

    /// One step of the scan: the token, the skipped text or the error that
    /// starts at the current position.
    fn scan_token<F: Fn(String) -> String>(&mut self, number_text: &F)
        requires
            old(self).inv(),
            old(self).current < old(self).source@.len(),
            forall|x: String| number_text.requires((x,)),
        ensures
            final(self).inv(),
            final(self).source == old(self).source,
            final(self).text == old(self).text,
            final(self).current > old(self).current,
            forall|nt: spec_fn(Seq<char>) -> Seq<char>|
                renders(*number_text, nt) ==> old(self).stepped(
                    *final(self),
                    step(old(self).source@, old(self).current as int, old(self).line as int, nt),
                ),
    {
        let ghost s = self.source@;
        let ghost p = self.current as int;
        let ghost l = self.line as int;
        let ghost ts = self.tokens@;
        let ghost es = self.errors@;
        let ghost before = *self;
        proof {
            lemma_step_bounds(s, p, l, |x: Seq<char>| x);
        }
        self.start = self.current;
        let c = self.advance().unwrap();
        if '0' <= c && c <= '9' {
            self.scan_number(number_text);
            proof {
                assert(self.errors@ =~= es);
                assert(error_models(self.errors@) =~= error_models(es) + Seq::<(LexErrorKind, int)>::empty());
            }
            return;
        }
        let single = single_kind_of(c);
        if let Some(k) = single {
            self.add_token(k);
            proof {
                lemma_models_push(ts, self.tokens@.last(), s, plain_step(s, p, l).token->0);
                assert(self.tokens@ == ts.push(self.tokens@.last()));
            }
        } else if c == '=' || c == '!' || c == '<' || c == '>' {
            let with_equal = self.match_next('=');
            self.add_token(operator_kind_of(c, with_equal));
            proof {
                lemma_models_push(ts, self.tokens@.last(), s, plain_step(s, p, l).token->0);
                assert(self.tokens@ == ts.push(self.tokens@.last()));
            }
        } else if c == '/' {
            if self.match_next('/') {
                self.skip_to_end_of_line();
                proof {
                    lemma_models_none(ts, s);
                }
            } else {
                self.add_token(TokenType::SLASH);
                proof {
                    lemma_models_push(ts, self.tokens@.last(), s, plain_step(s, p, l).token->0);
                    assert(self.tokens@ == ts.push(self.tokens@.last()));
                }
            }
        } else if c == '"' {
            self.scan_string();
        } else if c == '\n' {
            self.line = self.line + 1;
            proof {
                lemma_models_none(ts, s);
            }
        } else if c == '\t' || c == ' ' {
            proof {
                lemma_models_none(ts, s);
            }
        } else if alphabetic(c) || c == '_' {
            self.scan_identifier();
        } else {
            self.add_error(LexErrorKind::UnexpectedCharacter(c));
            proof {
                lemma_models_none(ts, s);
                lemma_error_models_push(es, self.errors@.last());
            }
        }
        proof {
            if plain_step(s, p, l).error is None {
                assert(error_models(self.errors@) =~= error_models(es) + Seq::<(LexErrorKind, int)>::empty());
            }
            assert(before.stepped(*self, plain_step(s, p, l)));
        }
    }

    /// Skips a line comment whose `//` has been consumed, with the line break
    /// that ends it.
    fn skip_to_end_of_line(&mut self)
        requires
            old(self).inv(),
            2 <= old(self).current <= old(self).source@.len(),
        ensures
            final(self).inv(),
            final(self).source == old(self).source,
            final(self).text == old(self).text,
            final(self).tokens == old(self).tokens,
            final(self).errors == old(self).errors,
            ({
                let s = old(self).source@;
                let e = find_char(s, old(self).current as int, '\n');
                if e < s.len() {
                    final(self).current == e + 1 && final(self).line == old(self).line + 1
                } else {
                    final(self).current == e && final(self).line == old(self).line
                }
            }),
    {
        let ghost s = self.source@;
        let ghost p = self.current as int;
        while self.current < self.source.len() && self.source[self.current] != '\n'
            invariant
                self.inv(),
                self.source@ == s,
                self.source == old(self).source,
                self.text == old(self).text,
                self.tokens == old(self).tokens,
                self.errors == old(self).errors,
                self.line == old(self).line,
                p <= self.current,
                find_char(s, self.current as int, '\n') == find_char(s, p, '\n'),
            decreases s.len() - self.current,
        {
            self.advance();
        }
        if self.current < self.source.len() {
            self.advance();
            self.line = self.line + 1;
        }
    }

    /// Scans a string literal whose opening quote has been consumed.
    fn scan_string(&mut self)
        requires
            old(self).inv(),
            old(self).current == old(self).start + 1,
            old(self).current <= old(self).source@.len(),
            old(self).source@[old(self).start as int] == '"',
        ensures
            final(self).inv(),
            final(self).source == old(self).source,
            final(self).text == old(self).text,
            ({
                let s = old(self).source@;
                let st = plain_step(s, old(self).start as int, old(self).line as int);
                &&& final(self).current == st.next
                &&& final(self).line == st.line
                &&& token_models(final(self).tokens@) == token_models(old(self).tokens@) + lexed_models(
                    s,
                    opt_seq(st.token),
                )
                &&& error_models(final(self).errors@) == error_models(old(self).errors@) + match st.error {
                    Some(k) => seq![(k, st.line)],
                    None => Seq::<(LexErrorKind, int)>::empty(),
                }
            }),
    {
        let ghost s = self.source@;
        let ghost p = self.start as int;
        let ghost l = self.line as int;
        let ghost ts = self.tokens@;
        let ghost es = self.errors@;
        proof {
            lemma_find_char(s, p + 1, '"');
        }
        while self.current < self.source.len() && self.source[self.current] != '"'
            invariant
                self.inv(),
                self.source@ == s,
                self.source == old(self).source,
                self.text == old(self).text,
                self.tokens == old(self).tokens,
                self.errors == old(self).errors,
                self.start == p,
                p + 1 <= self.current,
                find_char(s, self.current as int, '"') == find_char(s, p + 1, '"'),
                self.line == l + count_newlines(s, p + 1, self.current as int),
            decreases s.len() - self.current,
        {
            if let Some(c) = self.advance() {
                if c == '\n' {
                    self.line = self.line + 1;
                }
            }
        }
        if self.current < self.source.len() {
            self.advance();
            let value = self.text.as_str().substring_char(self.start + 1, self.current - 1).to_owned();
            self.add_token_with_literal(TokenType::STRING, Some(value));
            proof {
                lemma_models_push(ts, self.tokens@.last(), s, plain_step(s, p, l).token->0);
                assert(self.tokens@ == ts.push(self.tokens@.last()));
                assert(error_models(self.errors@) =~= error_models(es) + Seq::<(LexErrorKind, int)>::empty());
            }
        } else {
            self.add_error(LexErrorKind::UnterminatedString);
            proof {
                lemma_models_none(ts, s);
                lemma_error_models_push(es, self.errors@.last());
            }
        }
    }

    /// Scans a number literal whose first digit has been consumed; its decoded
    /// text is what `number_text` gives for its lexeme.
    fn scan_number<F: Fn(String) -> String>(&mut self, number_text: &F)
        requires
            old(self).inv(),
            old(self).current == old(self).start + 1,
            old(self).current <= old(self).source@.len(),
            is_digit(old(self).source@[old(self).start as int]),
            forall|x: String| number_text.requires((x,)),
        ensures
            final(self).inv(),
            final(self).source == old(self).source,
            final(self).text == old(self).text,
            final(self).errors == old(self).errors,
            final(self).line == old(self).line,
            final(self).current == number_end(old(self).source@, old(self).start as int),
            forall|nt: spec_fn(Seq<char>) -> Seq<char>|
                renders(*number_text, nt) ==> token_models(final(self).tokens@) == token_models(old(self).tokens@)
                    + lexed_models(
                    old(self).source@,
                    opt_seq(number_step(old(self).source@, old(self).start as int, old(self).line as int, nt).token),
                ),
    {
        let ghost s = self.source@;
        let ghost p = self.start as int;
        let ghost l = self.line as int;
        let ghost ts = self.tokens@;
        proof {
            lemma_digits_end(s, p + 1);
        }
        while self.current < self.source.len() && '0' <= self.source[self.current] && self.source[self.current] <= '9'
            invariant
                self.inv(),
                self.source@ == s,
                self.source == old(self).source,
                self.text == old(self).text,
                self.tokens == old(self).tokens,
                self.errors == old(self).errors,
                self.line == l,
                self.start == p,
                p + 1 <= self.current,
                digits_end(s, self.current as int) == digits_end(s, p + 1),
            decreases s.len() - self.current,
        {
            self.advance();
        }
        if self.current + 1 < self.source.len() && self.source[self.current] == '.' && '0' <= self.source[
            self.current + 1] && self.source[self.current + 1] <= '9' {
            self.advance();
            let ghost frac_start = self.current as int;
            proof {
                lemma_digits_end(s, frac_start);
            }
            while self.current < self.source.len() && '0' <= self.source[self.current] && self.source[self.current]
                <= '9'
                invariant
                    self.inv(),
                    self.source@ == s,
                    self.source == old(self).source,
                    self.text == old(self).text,
                    self.tokens == old(self).tokens,
                    self.errors == old(self).errors,
                    self.line == l,
                    self.start == p,
                    frac_start <= self.current,
                    digits_end(s, self.current as int) == digits_end(s, frac_start),
                decreases s.len() - self.current,
            {
                self.advance();
            }
        }
        let lexeme = self.text.as_str().substring_char(self.start, self.current).to_owned();
        let ghost lexeme_view = lexeme@;
        let literal = number_text(lexeme);
        self.add_token_with_literal(TokenType::NUMBER, Some(literal));
        proof {
            assert forall|nt: spec_fn(Seq<char>) -> Seq<char>| renders(*number_text, nt) implies token_models(
                self.tokens@,
            ) == token_models(ts) + lexed_models(s, opt_seq(number_step(s, p, l, nt).token)) by {
                lemma_models_push(ts, self.tokens@.last(), s, number_step(s, p, l, nt).token->0);
                assert(self.tokens@ == ts.push(self.tokens@.last()));
            }
        }
    }

    /// Scans an identifier or reserved word whose first character has been consumed.
    fn scan_identifier(&mut self)
        requires
            old(self).inv(),
            old(self).current == old(self).start + 1,
            old(self).current <= old(self).source@.len(),
            plain_step(old(self).source@, old(self).start as int, old(self).line as int) == crate::lexspec::identifier_step(
                old(self).source@,
                old(self).start as int,
                old(self).line as int,
            ),
        ensures
            final(self).inv(),
            final(self).source == old(self).source,
            final(self).text == old(self).text,
            final(self).errors == old(self).errors,
            final(self).line == old(self).line,
            ({
                let s = old(self).source@;
                let st = plain_step(s, old(self).start as int, old(self).line as int);
                &&& final(self).current == st.next
                &&& token_models(final(self).tokens@) == token_models(old(self).tokens@) + lexed_models(
                    s,
                    opt_seq(st.token),
                )
            }),
    {
        let ghost s = self.source@;
        let ghost p = self.start as int;
        let ghost l = self.line as int;
        let ghost ts = self.tokens@;
        proof {
            lemma_ident_end(s, p + 1);
        }
        while self.current < self.source.len() && (alphabetic(self.source[self.current]) || numeric(
            self.source[self.current],
        ) || self.source[self.current] == '_')
            invariant
                self.inv(),
                self.source@ == s,
                self.source == old(self).source,
                self.text == old(self).text,
                self.tokens == old(self).tokens,
                self.errors == old(self).errors,
                self.line == l,
                self.start == p,
                p + 1 <= self.current,
                ident_end(s, self.current as int) == ident_end(s, p + 1),
            decreases s.len() - self.current,
        {
            self.advance();
        }
        let kind = match self.keyword() {
            Some(k) => k,
            None => TokenType::IDENTIFIER,
        };
        self.add_token(kind);
        proof {
            lemma_models_push(ts, self.tokens@.last(), s, plain_step(s, p, l).token->0);
            assert(self.tokens@ == ts.push(self.tokens@.last()));
        }
    }

    /// Whether the text in `[start, current)` is `w`.
    fn lexeme_is(&self, w: &str) -> (r: bool)
        requires
            self.inv(),
        ensures
            r == (self.source@.subrange(self.start as int, self.current as int) == w@),
    {
        let n = w.unicode_len();
        if n != self.current - self.start {
            proof {
                assert(self.source@.subrange(self.start as int, self.current as int).len() != w@.len());
            }
            return false;
        }
        let mut i: usize = 0;
        while i < n
            invariant
                self.inv(),
                n == w@.len() == self.current - self.start,
                0 <= i <= n,
                forall|k: int| 0 <= k < i ==> self.source@[self.start + k] == w@[k],
            decreases n - i,
        {
            if self.source[self.start + i] != w.get_char(i) {
                proof {
                    assert(self.source@.subrange(self.start as int, self.current as int)[i as int] != w@[i as int]);
                }
                return false;
            }
            i = i + 1;
        }
        assert(self.source@.subrange(self.start as int, self.current as int) =~= w@);
        true
    }

    /// The reserved word in `[start, current)`, if it is one.
    fn keyword(&self) -> (r: Option<TokenType>)
        requires
            self.inv(),
        ensures
            r == keyword_kind(self.source@.subrange(self.start as int, self.current as int)),
    {
        if self.lexeme_is("and") {
            Some(TokenType::AND)
        } else if self.lexeme_is("class") {
            Some(TokenType::CLASS)
        } else if self.lexeme_is("else") {
            Some(TokenType::ELSE)
        } else if self.lexeme_is("false") {
            Some(TokenType::FALSE)
        } else if self.lexeme_is("for") {
            Some(TokenType::FOR)
        } else if self.lexeme_is("fun") {
            Some(TokenType::FUN)
        } else if self.lexeme_is("if") {
            Some(TokenType::IF)
        } else if self.lexeme_is("nil") {
            Some(TokenType::NIL)
        } else if self.lexeme_is("or") {
            Some(TokenType::OR)
        } else if self.lexeme_is("print") {
            Some(TokenType::PRINT)
        } else if self.lexeme_is("return") {
            Some(TokenType::RETURN)
        } else if self.lexeme_is("super") {
            Some(TokenType::SUPER)
        } else if self.lexeme_is("this") {
            Some(TokenType::THIS)
        } else if self.lexeme_is("true") {
            Some(TokenType::TRUE)
        } else if self.lexeme_is("var") {
            Some(TokenType::VAR)
        } else if self.lexeme_is("while") {
            Some(TokenType::WHILE)
        } else {
            None
        }
    }
}

/// Lexeme fidelity of a scan: tokens whose models are those of `lex(s, nt)`
/// (what `scan` and `scan_tokens` return) have as lexemes exactly the
/// substrings of `s` at the spans the lexer matched; the spans are in order
/// and disjoint, the text before each span (from the end of the one before)
/// is silent (blanks, comments, unexpected characters, an unterminated
/// string), every token but the last is no end marker, and the last is the
/// end marker with an empty lexeme.
pub proof fn lemma_lexeme_fidelity(s: Seq<char>, ts: Seq<Token>, nt: spec_fn(Seq<char>) -> Seq<char>)
    requires
        token_models(ts) == lexed_models(s, lex(s, nt).0),
    ensures
        ts.len() == lex(s, nt).0.len(),
        forall|i: int|
            0 <= i < ts.len() ==> #[trigger] ts[i].lexeme@ == s.subrange(lex(s, nt).0[i].start, lex(s, nt).0[i].end),
        well_formed_from(s, 0, lex(s, nt).0),
        forall|k: int|
            0 <= k < ts.len() ==> silent(s.subrange(gap_start(lex(s, nt).0, 0, k), #[trigger] lex(s, nt).0[k].start)),
        ts.len() >= 1 && ts.last().token_type == TokenType::EOF && ts.last().lexeme@.len() == 0,
        forall|i: int| 0 <= i < ts.len() - 1 ==> #[trigger] ts[i].token_type != TokenType::EOF,
{
    lemma_lex_well_formed(s, nt);
    lemma_lex_gaps_silent(s, nt);
    let ls = lex(s, nt).0;
    assert(token_models(ts).len() == ts.len());
    assert forall|i: int| 0 <= i < ts.len() implies (#[trigger] ts[i]).lexeme@ == s.subrange(ls[i].start, ls[i].end)
        && ts[i].token_type == ls[i].kind by {
        assert(token_models(ts)[i] == ts[i].model());
        assert(lexed_models(s, ls)[i] == ls[i].model_in(s));
    }
    let n = ts.len() - 1;
    assert(ts[n].token_type == ls[n].kind);
    assert(ls[n] == ls.last());
    assert(ts[n].lexeme@ == s.subrange(s.len() as int, s.len() as int));
    assert forall|i: int| 0 <= i < ts.len() - 1 implies #[trigger] ts[i].token_type != TokenType::EOF by {
        assert(ts[i].token_type == ls[i].kind);
    }
}

/// Re-scanning a lexeme gives back its token: for the tokens of a scan
/// (models those of `lex(s, nt)`), scanning the lexeme of any token but the
/// end marker on its own yields one token of the same kind, spanning the
/// whole lexeme, with the same decoded literal, then the end marker, and no
/// lexical error.
pub proof fn lemma_rescan_lexeme(s: Seq<char>, ts: Seq<Token>, nt: spec_fn(Seq<char>) -> Seq<char>, i: int)
    requires
        token_models(ts) == lexed_models(s, lex(s, nt).0),
        0 <= i < ts.len() - 1,
    ensures
        ({
            let w = ts[i].lexeme@;
            let r = lex(w, nt);
            &&& r.1.len() == 0
            &&& r.0.len() == 2
            &&& r.0[0].kind == ts[i].token_type
            &&& r.0[0].start == 0
            &&& r.0[0].end == w.len()
            &&& r.0[0].literal == crate::token::opt_text_view(ts[i].literal)
            &&& r.0[1].kind == TokenType::EOF
        }),
{
    lemma_lexeme_fidelity(s, ts, nt);
    lemma_lex_from_rescans(s, 0, 1, nt);
    let ls = lex(s, nt).0;
    assert(token_models(ts)[i] == ts[i].model());
    assert(lexed_models(s, ls)[i] == ls[i].model_in(s));
    assert(rescans(s, ls[i], nt));
}

/// Scans `source`: its tokens, closed by the end marker, and whether a
/// lexical error was found; `number_text` gives the decoded text of each
/// number literal from its lexeme.
pub fn scan<F: Fn(String) -> String>(source: String, number_text: &F) -> (r: (Vec<Token>, bool))
    requires
        source@.len() < usize::MAX,
        forall|x: String| number_text.requires((x,)),
    ensures
        forall|nt: spec_fn(Seq<char>) -> Seq<char>|
            renders(*number_text, nt) ==> token_models(r.0@) == lexed_models(source@, lex(source@, nt).0) && r.1 == (
            lex(source@, nt).1.len() > 0),
{
    let mut scanner = Scanner::new(source);
    scanner.scan_tokens(number_text);
    let had_error = scanner.has_error();
    (scanner.into_tokens(), had_error)
}

fn single_kind_of(c: char) -> (r: Option<TokenType>)
    ensures
        r == single_kind(c),
{
    if c == '(' {
        Some(TokenType::LEFT_PAREN)
    } else if c == ')' {
        Some(TokenType::RIGHT_PAREN)
    } else if c == '{' {
        Some(TokenType::LEFT_BRACE)
    } else if c == '}' {
        Some(TokenType::RIGHT_BRACE)
    } else if c == '*' {
        Some(TokenType::STAR)
    } else if c == '.' {
        Some(TokenType::DOT)
    } else if c == ',' {
        Some(TokenType::COMMA)
    } else if c == '+' {
        Some(TokenType::PLUS)
    } else if c == '-' {
        Some(TokenType::MINUS)
    } else if c == ';' {
        Some(TokenType::SEMICOLON)
    } else {
        None
    }
}

fn operator_kind_of(c: char, with_equal: bool) -> (r: TokenType)
    ensures
        r == operator_kind(c, with_equal),
{
    if c == '=' {
        if with_equal { TokenType::EQUAL_EQUAL } else { TokenType::EQUAL }
    } else if c == '!' {
        if with_equal { TokenType::BANG_EQUAL } else { TokenType::BANG }
    } else if c == '<' {
        if with_equal { TokenType::LESS_EQUAL } else { TokenType::LESS }
    } else {
        if with_equal { TokenType::GREATER_EQUAL } else { TokenType::GREATER }
    }
}

} // verus!

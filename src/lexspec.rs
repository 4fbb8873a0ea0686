//! The lexical grammar as spec functions over the source's characters.
use vstd::prelude::*;
use crate::token::{TokenModel, TokenType};

verus! {

/// What `char::is_alphabetic` answers for a character.
pub uninterp spec fn is_alphabetic_char(c: char) -> bool;

/// What `char::is_numeric` answers for a character.
pub uninterp spec fn is_numeric_char(c: char) -> bool;

pub open spec fn is_digit(c: char) -> bool {
    '0' <= c && c <= '9'
}

pub open spec fn starts_identifier(c: char) -> bool {
    is_alphabetic_char(c) || c == '_'
}

pub open spec fn continues_identifier(c: char) -> bool {
    is_alphabetic_char(c) || is_numeric_char(c) || c == '_'
}

/// A lexical problem: the scan records it and goes on.
#[derive(Debug, Clone, Copy, PartialEq, Eq, Structural)]
pub enum LexErrorKind {
    UnexpectedCharacter(char),
    UnterminatedString,
}

/// A token as the grammar finds it: its kind, the span `[start, end)` of
/// source characters it covers, its decoded literal and its line.
pub struct Lexed {
    pub kind: TokenType,
    pub start: int,
    pub end: int,
    pub literal: Option<Seq<char>>,
    pub line: int,
}

impl Lexed {
    pub open spec fn model_in(self, s: Seq<char>) -> TokenModel {
        TokenModel {
            kind: self.kind,
            lexeme: s.subrange(self.start, self.end),
            literal: self.literal,
            line: self.line as nat,
        }
    }
}

pub open spec fn lexed_models(s: Seq<char>, ls: Seq<Lexed>) -> Seq<TokenModel> {
    ls.map_values(|l: Lexed| l.model_in(s))
}

/// The outcome of one step of the scan at a position.
pub struct Step {
    pub token: Option<Lexed>,
    pub error: Option<LexErrorKind>,
    pub next: int,
    pub line: int,
}

/// The kind of a character that always forms a token by itself.
pub open spec fn single_kind(c: char) -> Option<TokenType> {
    if c == '(' {
        Some(TokenType::LEFT_PAREN)
    } else if c == ')' {
        Some(TokenType::RIGHT_PAREN)
    } else if c == '{' {
        Some(TokenType::LEFT_BRACE)
    } else if c == '}' {
        Some(TokenType::RIGHT_BRACE)
    } else if c == '*' {
        Some(TokenType::STAR)
    } else if c == '.' {
        Some(TokenType::DOT)
    } else if c == ',' {
        Some(TokenType::COMMA)
    } else if c == '+' {
        Some(TokenType::PLUS)
    } else if c == '-' {
        Some(TokenType::MINUS)
    } else if c == ';' {
        Some(TokenType::SEMICOLON)
    } else {
        None
    }
}

/// The characters that take a trailing `=` into a two-character operator.
pub open spec fn is_operator_start(c: char) -> bool {
    c == '=' || c == '!' || c == '<' || c == '>'
}

pub open spec fn operator_kind(c: char, with_equal: bool) -> TokenType {
    if c == '=' {
        if with_equal { TokenType::EQUAL_EQUAL } else { TokenType::EQUAL }
    } else if c == '!' {
        if with_equal { TokenType::BANG_EQUAL } else { TokenType::BANG }
    } else if c == '<' {
        if with_equal { TokenType::LESS_EQUAL } else { TokenType::LESS }
    } else {
        if with_equal { TokenType::GREATER_EQUAL } else { TokenType::GREATER }
    }
}

/// The reserved words and their kinds.
pub open spec fn keyword_kind(w: Seq<char>) -> Option<TokenType> {
    if w == "and"@ {
        Some(TokenType::AND)
    } else if w == "class"@ {
        Some(TokenType::CLASS)
    } else if w == "else"@ {
        Some(TokenType::ELSE)
    } else if w == "false"@ {
        Some(TokenType::FALSE)
    } else if w == "for"@ {
        Some(TokenType::FOR)
    } else if w == "fun"@ {
        Some(TokenType::FUN)
    } else if w == "if"@ {
        Some(TokenType::IF)
    } else if w == "nil"@ {
        Some(TokenType::NIL)
    } else if w == "or"@ {
        Some(TokenType::OR)
    } else if w == "print"@ {
        Some(TokenType::PRINT)
    } else if w == "return"@ {
        Some(TokenType::RETURN)
    } else if w == "super"@ {
        Some(TokenType::SUPER)
    } else if w == "this"@ {
        Some(TokenType::THIS)
    } else if w == "true"@ {
        Some(TokenType::TRUE)
    } else if w == "var"@ {
        Some(TokenType::VAR)
    } else if w == "while"@ {
        Some(TokenType::WHILE)
    } else {
        None
    }
}

/// The end of the run of decimal digits that starts at `p`.
pub open spec fn digits_end(s: Seq<char>, p: int) -> int
    decreases s.len() - p,
{
    if 0 <= p < s.len() && is_digit(s[p]) {
        digits_end(s, p + 1)
    } else {
        p
    }
}

/// The end of the run of identifier characters that starts at `p`.
pub open spec fn ident_end(s: Seq<char>, p: int) -> int
    decreases s.len() - p,
{
    if 0 <= p < s.len() && continues_identifier(s[p]) {
        ident_end(s, p + 1)
    } else {
        p
    }
}

/// The first position at or after `p` that holds `c`, or the length.
pub open spec fn find_char(s: Seq<char>, p: int, c: char) -> int
    decreases s.len() - p,
{
    if 0 <= p < s.len() && s[p] != c {
        find_char(s, p + 1, c)
    } else {
        p
    }
}

/// How many line breaks `s` holds in `[from, to)`.
pub open spec fn count_newlines(s: Seq<char>, from: int, to: int) -> int
    decreases to - from,
{
    if from < to {
        count_newlines(s, from, to - 1) + if s[to - 1] == '\n' { 1int } else { 0 }
    } else {
        0
    }
}

pub open spec fn emit(kind: TokenType, start: int, end: int, literal: Option<Seq<char>>, line: int) -> Step {
    Step {
        token: Some(Lexed { kind, start, end, literal, line }),
        error: None,
        next: end,
        line,
    }
}

pub open spec fn skip(next: int, line: int) -> Step {
    Step { token: None, error: None, next, line }
}

pub open spec fn string_step(s: Seq<char>, p: int, line: int) -> Step {
    let q = find_char(s, p + 1, '"');
    if q < s.len() {
        emit(TokenType::STRING, p, q + 1, Some(s.subrange(p + 1, q)), line + count_newlines(s, p + 1, q))
    } else {
        Step {
            token: None,
            error: Some(LexErrorKind::UnterminatedString),
            next: s.len() as int,
            line: line + count_newlines(s, p + 1, s.len() as int),
        }
    }
}

pub open spec fn has_fraction(s: Seq<char>, a: int) -> bool {
    a + 1 < s.len() && s[a] == '.' && is_digit(s[a + 1])
}

/// The end of the number literal that starts at `p`: digits, then a `.`
/// and digits if a digit follows the `.`.
pub open spec fn number_end(s: Seq<char>, p: int) -> int {
    let a = digits_end(s, p + 1);
    if has_fraction(s, a) {
        digits_end(s, a + 1)
    } else {
        a
    }
}

/// A number literal; its decoded text is `nt` of its lexeme, the text of the
/// 64-bit float the lexeme denotes.
pub open spec fn number_step(s: Seq<char>, p: int, line: int, nt: spec_fn(Seq<char>) -> Seq<char>) -> Step {
    let e = number_end(s, p);
    emit(TokenType::NUMBER, p, e, Some(nt(s.subrange(p, e))), line)
}

pub open spec fn identifier_step(s: Seq<char>, p: int, line: int) -> Step {
    let e = ident_end(s, p + 1);
    let kind = match keyword_kind(s.subrange(p, e)) {
        Some(k) => k,
        None => TokenType::IDENTIFIER,
    };
    emit(kind, p, e, None, line)
}

/// One step of the scan at position `p` (which holds a character), on line
/// `line`; `nt` gives the decoded text of a number literal.
pub open spec fn step(s: Seq<char>, p: int, line: int, nt: spec_fn(Seq<char>) -> Seq<char>) -> Step {
    if is_digit(s[p]) {
        number_step(s, p, line, nt)
    } else {
        plain_step(s, p, line)
    }
}

/// One step at a position that holds no digit.
pub open spec fn plain_step(s: Seq<char>, p: int, line: int) -> Step {
    let c = s[p];
    if single_kind(c) is Some {
        emit(single_kind(c)->0, p, p + 1, None, line)
    } else if is_operator_start(c) {
        if p + 1 < s.len() && s[p + 1] == '=' {
            emit(operator_kind(c, true), p, p + 2, None, line)
        } else {
            emit(operator_kind(c, false), p, p + 1, None, line)
        }
    } else if c == '/' {
        if p + 1 < s.len() && s[p + 1] == '/' {
            let e = find_char(s, p + 2, '\n');
            if e < s.len() {
                skip(e + 1, line + 1)
            } else {
                skip(e, line)
            }
        } else {
            emit(TokenType::SLASH, p, p + 1, None, line)
        }
    } else if c == '"' {
        string_step(s, p, line)
    } else if c == '\n' {
        skip(p + 1, line + 1)
    } else if c == '\t' || c == ' ' {
        skip(p + 1, line)
    } else if starts_identifier(c) {
        identifier_step(s, p, line)
    } else {
        Step { token: None, error: Some(LexErrorKind::UnexpectedCharacter(c)), next: p + 1, line }
    }
}

pub open spec fn opt_seq<A>(o: Option<A>) -> Seq<A> {
    match o {
        Some(a) => seq![a],
        None => Seq::empty(),
    }
}

/// The tokens and the lexical errors of `s` from position `p` on, starting on
/// line `line`; the tokens end with the end marker.
pub open spec fn lex_from(s: Seq<char>, p: int, line: int, nt: spec_fn(Seq<char>) -> Seq<char>) -> (
    Seq<Lexed>,
    Seq<(LexErrorKind, int)>,
)
    decreases s.len() - p,
{
    let eof = Lexed { kind: TokenType::EOF, start: s.len() as int, end: s.len() as int, literal: None, line };
    if 0 <= p < s.len() {
        let st = step(s, p, line, nt);
        if p < st.next <= s.len() {
            let rest = lex_from(s, st.next, st.line, nt);
            let errs = match st.error {
                Some(k) => seq![(k, st.line)],
                None => Seq::empty(),
            };
            (opt_seq(st.token) + rest.0, errs + rest.1)
        } else {
            (seq![eof], Seq::empty())
        }
    } else {
        (seq![eof], Seq::empty())
    }
}

pub proof fn lemma_digits_end(s: Seq<char>, p: int)
    requires
        0 <= p <= s.len(),
    ensures
        p <= digits_end(s, p) <= s.len(),
    decreases s.len() - p,
{
    if p < s.len() && is_digit(s[p]) {
        lemma_digits_end(s, p + 1);
    }
}

pub proof fn lemma_ident_end(s: Seq<char>, p: int)
    requires
        0 <= p <= s.len(),
    ensures
        p <= ident_end(s, p) <= s.len(),
    decreases s.len() - p,
{
    if p < s.len() && continues_identifier(s[p]) {
        lemma_ident_end(s, p + 1);
    }
}

pub proof fn lemma_find_char(s: Seq<char>, p: int, c: char)
    requires
        0 <= p <= s.len(),
    ensures
        p <= find_char(s, p, c) <= s.len(),
        find_char(s, p, c) < s.len() ==> s[find_char(s, p, c)] == c,
    decreases s.len() - p,
{
    if p < s.len() && s[p] != c {
        lemma_find_char(s, p + 1, c);
    }
}

pub proof fn lemma_count_newlines(s: Seq<char>, from: int, to: int)
    requires
        from <= to,
    ensures
        0 <= count_newlines(s, from, to) <= to - from,
    decreases to - from,
{
    if from < to {
        lemma_count_newlines(s, from, to - 1);
    }
}

/// One step always consumes at least one character and stays inside the text.
pub proof fn lemma_step_bounds(s: Seq<char>, p: int, line: int, nt: spec_fn(Seq<char>) -> Seq<char>)
    requires
        0 <= p < s.len(),
    ensures
        p < step(s, p, line, nt).next <= s.len(),
        line <= step(s, p, line, nt).line <= line + (step(s, p, line, nt).next - p),
        step(s, p, line, nt).token matches Some(t) ==> p <= t.start < t.end <= step(s, p, line, nt).next
            && t.kind != TokenType::EOF,
{
    lemma_digits_end(s, p + 1);
    lemma_ident_end(s, p + 1);
    lemma_find_char(s, p + 1, '"');
    let q = find_char(s, p + 1, '"');
    lemma_count_newlines(s, p + 1, q);
    lemma_count_newlines(s, p + 1, s.len() as int);
    if p + 2 <= s.len() {
        lemma_find_char(s, p + 2, '\n');
    }
    let a = digits_end(s, p + 1);
    if has_fraction(s, a) {
        lemma_digits_end(s, a + 1);
    }
    let c = s[p];
    if single_kind(c) is Some {
    } else if is_operator_start(c) {
        if p + 1 < s.len() && s[p + 1] == '=' {
            assert(operator_kind(c, true) != TokenType::EOF);
        } else {
            assert(operator_kind(c, false) != TokenType::EOF);
        }
    } else if c == '"' {
    } else if is_digit(c) {
    } else if starts_identifier(c) {
        let e = ident_end(s, p + 1);
        let w = s.subrange(p, e);
        assert(keyword_kind(w) != Some(TokenType::EOF));
    }
}

/// The spans that a sequence of lexed tokens covers lie, in order and without
/// overlap, inside `[lo, s.len()]`; every token but the last covers at least one
/// character and is no end marker; the last is the end marker, at the end.
pub open spec fn well_formed_from(s: Seq<char>, lo: int, ts: Seq<Lexed>) -> bool {
    &&& ts.len() >= 1
    &&& ts.last().kind == TokenType::EOF
    &&& ts.last().start == s.len() && ts.last().end == s.len()
    &&& forall|i: int| 0 <= i < ts.len() - 1 ==> ts[i].kind != TokenType::EOF
    &&& forall|i: int| 0 <= i < ts.len() - 1 ==> lo <= #[trigger] ts[i].start < ts[i].end <= s.len()
    &&& forall|i: int, j: int| 0 <= i < j < ts.len() ==> #[trigger] ts[i].end <= #[trigger] ts[j].start
}

pub proof fn lemma_lex_from_well_formed(s: Seq<char>, p: int, line: int, nt: spec_fn(Seq<char>) -> Seq<char>)
    requires
        0 <= p <= s.len(),
    ensures
        well_formed_from(s, p, lex_from(s, p, line, nt).0),
    decreases s.len() - p,
{
    if p < s.len() {
        let st = step(s, p, line, nt);
        lemma_step_bounds(s, p, line, nt);
        lemma_lex_from_well_formed(s, st.next, st.line, nt);
        let rest = lex_from(s, st.next, st.line, nt).0;
        let ts = lex_from(s, p, line, nt).0;
        assert(ts == opt_seq(st.token) + rest);
        let k = opt_seq(st.token).len();
        assert forall|i: int| 0 <= i < ts.len() - 1 implies p <= #[trigger] ts[i].start < ts[i].end <= s.len() by {
            if i >= k {
                assert(ts[i] == rest[i - k]);
            }
        }
        assert forall|i: int| 0 <= i < ts.len() - 1 implies ts[i].kind != TokenType::EOF by {
            if i >= k {
                assert(ts[i] == rest[i - k]);
            }
        }
        assert forall|i: int, j: int| 0 <= i < j < ts.len() implies #[trigger] ts[i].end <= #[trigger] ts[j].start by {
            if i >= k {
                assert(ts[i] == rest[i - k]);
                assert(ts[j] == rest[j - k]);
            } else {
                assert(ts[j] == rest[j - k]);
                if j - k < rest.len() - 1 {
                    assert(st.next <= rest[j - k].start);
                }
            }
        }
    }
}

/// Lexeme fidelity: the tokens of a text cover disjoint spans of it, in
/// order; each token before the end marker covers at least one character
/// (its lexeme is that span, see `Lexed::model_in`), and exactly one end marker
/// closes the sequence.
pub proof fn lemma_lex_well_formed(s: Seq<char>, nt: spec_fn(Seq<char>) -> Seq<char>)
    ensures
        well_formed_from(s, 0, lex(s, nt).0),
{
    lemma_lex_from_well_formed(s, 0, 1, nt);
}

pub open spec fn min_int(x: int, y: int) -> int {
    if x < y {
        x
    } else {
        y
    }
}

/// A run of digits read inside `s[p..b]` ends where it ends in `s`, or at `b`.
pub proof fn lemma_digits_end_sub(s: Seq<char>, p: int, b: int, i: int)
    requires
        0 <= p <= i <= b <= s.len(),
    ensures
        digits_end(s.subrange(p, b), i - p) == min_int(digits_end(s, i), b) - p,
    decreases b - i,
{
    lemma_digits_end(s, i);
    if i < b && is_digit(s[i]) {
        lemma_digits_end_sub(s, p, b, i + 1);
    }
}

pub proof fn lemma_ident_end_sub(s: Seq<char>, p: int, b: int, i: int)
    requires
        0 <= p <= i <= b <= s.len(),
    ensures
        ident_end(s.subrange(p, b), i - p) == min_int(ident_end(s, i), b) - p,
    decreases b - i,
{
    lemma_ident_end(s, i);
    if i < b && continues_identifier(s[i]) {
        lemma_ident_end_sub(s, p, b, i + 1);
    }
}

pub proof fn lemma_find_char_sub(s: Seq<char>, p: int, b: int, i: int, c: char)
    requires
        0 <= p <= i <= b <= s.len(),
    ensures
        find_char(s.subrange(p, b), i - p, c) == min_int(find_char(s, i, c), b) - p,
    decreases b - i,
{
    lemma_find_char(s, i, c);
    if i < b && s[i] != c {
        lemma_find_char_sub(s, p, b, i + 1, c);
    }
}

/// Scanning the lexeme of `t` alone gives one token of the same kind over
/// the whole lexeme, with the same decoded literal, then the end marker, and
/// no lexical error.
pub open spec fn rescans(s: Seq<char>, t: Lexed, nt: spec_fn(Seq<char>) -> Seq<char>) -> bool {
    let w = s.subrange(t.start, t.end);
    let r = lex(w, nt);
    &&& r.1.len() == 0
    &&& r.0.len() == 2
    &&& r.0[0].kind == t.kind
    &&& r.0[0].start == 0
    &&& r.0[0].end == w.len()
    &&& r.0[0].literal == t.literal
    &&& r.0[1].kind == TokenType::EOF
}

/// Scanning `w` from its start takes one step that emits a token over all
/// of `w`; then `w` holds exactly that token.
proof fn lemma_single_step_lex(w: Seq<char>, nt: spec_fn(Seq<char>) -> Seq<char>, kind: TokenType, literal: Option<Seq<char>>)
    requires
        w.len() > 0,
        step(w, 0, 1, nt).token matches Some(u) && u.kind == kind && u.start == 0 && u.end == w.len() && u.literal
            == literal,
        step(w, 0, 1, nt).next == w.len(),
        step(w, 0, 1, nt).error is None,
    ensures
        ({
            let r = lex(w, nt);
            &&& r.1.len() == 0
            &&& r.0.len() == 2
            &&& r.0[0].kind == kind
            &&& r.0[0].start == 0
            &&& r.0[0].end == w.len()
            &&& r.0[0].literal == literal
            &&& r.0[1].kind == TokenType::EOF
        }),
{
    let st = step(w, 0, 1, nt);
    assert(lex_from(w, st.next, st.line, nt).0.len() == 1);
    assert(lex_from(w, st.next, st.line, nt).1.len() == 0);
}

/// Every token one step emits scans back to itself.
pub proof fn lemma_step_rescans(s: Seq<char>, p: int, line: int, nt: spec_fn(Seq<char>) -> Seq<char>)
    requires
        0 <= p < s.len(),
    ensures
        step(s, p, line, nt).token matches Some(t) ==> rescans(s, t, nt),
{
    lemma_step_bounds(s, p, line, nt);
    let st = step(s, p, line, nt);
    if st.token is Some {
        let t = st.token->0;
        let e = t.end;
        let w = s.subrange(p, e);
        assert(t.start == p);
        assert(w[0] == s[p]);
        let c = s[p];
        if is_digit(c) {
            let a = digits_end(s, p + 1);
            lemma_digits_end(s, p + 1);
            lemma_digits_end_sub(s, p, e, p + 1);
            if has_fraction(s, a) {
                lemma_digits_end(s, a + 1);
                lemma_digits_end(s, a + 2);
                lemma_digits_end_sub(s, p, e, a + 1);
                assert(w[a - p] == s[a]);
                assert(w[a + 1 - p] == s[a + 1]);
            }
            assert(w.subrange(0, w.len() as int) =~= w);
        } else if single_kind(c) is Some {
        } else if is_operator_start(c) {
            if p + 1 < s.len() && s[p + 1] == '=' {
                assert(w[1] == s[p + 1]);
            }
        } else if c == '/' {
        } else if c == '"' {
            let q = find_char(s, p + 1, '"');
            lemma_find_char(s, p + 1, '"');
            lemma_find_char_sub(s, p, e, p + 1, '"');
            assert(w.subrange(1, q - p) =~= s.subrange(p + 1, q));
        } else if starts_identifier(c) {
            lemma_ident_end(s, p + 1);
            lemma_ident_end_sub(s, p, e, p + 1);
            assert(w.subrange(0, e - p) =~= w);
        }
        lemma_single_step_lex(w, nt, t.kind, t.literal);
    }
}

/// Every token of `lex_from`, but the end marker, scans back to itself.
pub proof fn lemma_lex_from_rescans(s: Seq<char>, p: int, line: int, nt: spec_fn(Seq<char>) -> Seq<char>)
    requires
        0 <= p <= s.len(),
    ensures
        forall|i: int|
            0 <= i < lex_from(s, p, line, nt).0.len() - 1 ==> rescans(s, #[trigger] lex_from(s, p, line, nt).0[i], nt),
    decreases s.len() - p,
{
    if p < s.len() {
        let st = step(s, p, line, nt);
        lemma_step_bounds(s, p, line, nt);
        lemma_step_rescans(s, p, line, nt);
        lemma_lex_from_rescans(s, st.next, st.line, nt);
        let rest = lex_from(s, st.next, st.line, nt).0;
        let ts = lex_from(s, p, line, nt).0;
        let k = opt_seq(st.token).len();
        assert forall|i: int| 0 <= i < ts.len() - 1 implies rescans(s, #[trigger] ts[i], nt) by {
            if i >= k {
                assert(ts[i] == rest[i - k]);
            }
        }
    }
}

/// A character that starts no token and is no blank: an unexpected character.
pub open spec fn unexpected(c: char) -> bool {
    !is_digit(c) && single_kind(c) is None && !is_operator_start(c) && c != '/' && c != '"' && c != ' ' && c
        != '\t' && c != '\n' && !starts_identifier(c)
}

/// Text that scans to no token: blanks (space, tab, line break), line
/// comments, unexpected characters, and an unterminated string at the end.
pub open spec fn silent(g: Seq<char>) -> bool
    decreases g.len(),
{
    if g.len() == 0 {
        true
    } else if g[0] == ' ' || g[0] == '\t' || g[0] == '\n' {
        silent(g.subrange(1, g.len() as int))
    } else if g[0] == '/' && g.len() >= 2 && g[1] == '/' {
        let e = find_char(g, 2, '\n');
        if 2 <= e < g.len() {
            silent(g.subrange(e + 1, g.len() as int))
        } else {
            e >= g.len()
        }
    } else if g[0] == '"' {
        find_char(g, 1, '"') >= g.len()
    } else if unexpected(g[0]) {
        silent(g.subrange(1, g.len() as int))
    } else {
        false
    }
}

/// Where the text before token `k` starts: at `p`, or where token `k - 1` ends.
pub open spec fn gap_start(ts: Seq<Lexed>, p: int, k: int) -> int {
    if k == 0 {
        p
    } else {
        ts[k - 1].end
    }
}

/// A step that emits no token consumes silent text: it stays silent with
/// whatever silent text follows.
proof fn lemma_silent_step(s: Seq<char>, p: int, line: int, nt: spec_fn(Seq<char>) -> Seq<char>, x: int)
    requires
        0 <= p < s.len(),
        step(s, p, line, nt).token is None,
        step(s, p, line, nt).next <= x <= s.len(),
        silent(s.subrange(step(s, p, line, nt).next, x)),
        step(s, p, line, nt).next == s.len() ==> x == s.len(),
    ensures
        silent(s.subrange(p, x)),
{
    lemma_step_bounds(s, p, line, nt);
    let st = step(s, p, line, nt);
    let g = s.subrange(p, x);
    let c = s[p];
    assert(g[0] == c);
    if c == ' ' || c == '\t' || c == '\n' {
        assert(g.subrange(1, g.len() as int) =~= s.subrange(p + 1, x));
    } else if c == '/' {
        assert(p + 1 < s.len() && s[p + 1] == '/');
        let e = find_char(s, p + 2, '\n');
        lemma_find_char(s, p + 2, '\n');
        assert(g[1] == s[p + 1]);
        lemma_find_char_sub(s, p, x, p + 2, '\n');
        if e < s.len() {
            assert(g.subrange(e - p + 1, g.len() as int) =~= s.subrange(e + 1, x));
        }
    } else if c == '"' {
        lemma_find_char(s, p + 1, '"');
        lemma_find_char_sub(s, p, x, p + 1, '"');
    } else {
        assert(unexpected(c));
        assert(g.subrange(1, g.len() as int) =~= s.subrange(p + 1, x));
    }
}

pub proof fn lemma_lex_from_gaps(s: Seq<char>, p: int, line: int, nt: spec_fn(Seq<char>) -> Seq<char>)
    requires
        0 <= p <= s.len(),
    ensures
        forall|k: int|
            0 <= k < lex_from(s, p, line, nt).0.len() ==> silent(
                s.subrange(gap_start(lex_from(s, p, line, nt).0, p, k), #[trigger] lex_from(s, p, line, nt).0[k].start),
            ),
    decreases s.len() - p,
{
    let ts = lex_from(s, p, line, nt).0;
    if p < s.len() {
        let st = step(s, p, line, nt);
        lemma_step_bounds(s, p, line, nt);
        lemma_lex_from_gaps(s, st.next, st.line, nt);
        lemma_lex_from_well_formed(s, st.next, st.line, nt);
        let rest = lex_from(s, st.next, st.line, nt).0;
        assert(ts == opt_seq(st.token) + rest);
        assert forall|k: int| 0 <= k < ts.len() implies silent(s.subrange(gap_start(ts, p, k), #[trigger] ts[k].start)) by {
            if st.token is Some {
                if k == 0 {
                    assert(s.subrange(p, p) =~= Seq::<char>::empty());
                } else {
                    assert(ts[k] == rest[k - 1]);
                    if k >= 2 {
                        assert(ts[k - 1] == rest[k - 2]);
                    }
                    assert(silent(s.subrange(gap_start(rest, st.next, k - 1), rest[k - 1].start)));
                }
            } else {
                assert(ts[k] == rest[k]);
                if k == 0 {
                    assert(silent(s.subrange(gap_start(rest, st.next, 0), rest[0].start)));
                    if rest.len() > 1 {
                        assert(st.next <= rest[0].start);
                    }
                    lemma_silent_step(s, p, line, nt, rest[0].start);
                } else {
                    assert(ts[k - 1] == rest[k - 1]);
                    assert(silent(s.subrange(gap_start(rest, st.next, k), rest[k].start)));
                }
            }
        }
    } else {
        assert(s.subrange(p, ts[0].start) =~= Seq::<char>::empty());
    }
}

/// What lies outside the tokens is silent: the text before each token
/// (after the one before it, or from the start), and before the end marker,
/// holds only blanks, line comments, unexpected characters and an
/// unterminated string at the end.
pub proof fn lemma_lex_gaps_silent(s: Seq<char>, nt: spec_fn(Seq<char>) -> Seq<char>)
    ensures
        forall|k: int|
            0 <= k < lex(s, nt).0.len() ==> silent(s.subrange(gap_start(lex(s, nt).0, 0, k), #[trigger] lex(s, nt).0[k].start)),
{
    lemma_lex_from_gaps(s, 0, 1, nt);
}

/// The tokens and lexical errors of a whole source text; `nt` gives the
/// decoded text of a number literal.
pub open spec fn lex(s: Seq<char>, nt: spec_fn(Seq<char>) -> Seq<char>) -> (Seq<Lexed>, Seq<(LexErrorKind, int)>) {
    lex_from(s, 0, 1, nt)
}

} // verus!

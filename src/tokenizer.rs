//! The lexer: turns source text into a sequence of tokens.
//!
//! At each position the recognizers are tried in a fixed order and the first
//! that matches there wins, so an operator of two characters is listed
//! before the operator that is its first character.
use vstd::prelude::*;
use vstd::utf8::*;
use crate::token::{keyword_of, Token, TokenKind, TokenView};

verus! {

/// Why source text could not be split into tokens.
#[derive(Debug, PartialEq, Eq, Structural, Clone, Copy)]
pub enum TokenizerError {
    /// No recognizer matches at this byte offset.
    InvalidToken(usize),
}

/// The classes of characters that a run of the lexer may consist of.
#[derive(PartialEq, Eq, Structural, Clone, Copy)]
pub enum CharClass {
    White,
    Digit,
    Word,
    NotNewline,
    NotQuote,
}

/// Unicode's `White_Space` property.
pub open spec fn is_white_space(c: char) -> bool {
    let u = c as u32;
    (0x09 <= u <= 0x0d) || u == 0x20 || u == 0x85 || u == 0xa0 || u == 0x1680 || (0x2000 <= u
        <= 0x200a) || u == 0x2028 || u == 0x2029 || u == 0x202f || u == 0x205f || u == 0x3000
}

pub open spec fn is_digit(c: char) -> bool {
    '0' <= c <= '9'
}

/// A character that may start a name.
pub open spec fn is_word_start(c: char) -> bool {
    ('a' <= c <= 'z') || ('A' <= c <= 'Z') || c == '_'
}

pub open spec fn in_class(class: CharClass, c: char) -> bool {
    match class {
        CharClass::White => is_white_space(c),
        CharClass::Digit => is_digit(c),
        CharClass::Word => is_word_start(c) || is_digit(c) || c == '!',
        CharClass::NotNewline => c != '\n',
        CharClass::NotQuote => c != '"',
    }
}

/// The end of the longest run of `class` characters that starts at `i`.
pub open spec fn scan_while(s: Seq<char>, i: int, class: CharClass) -> int
    decreases s.len() - i,
{
    if 0 <= i < s.len() && in_class(class, s[i]) {
        scan_while(s, i + 1, class)
    } else {
        i
    }
}

pub open spec fn at1(s: Seq<char>, i: int, a: char) -> bool {
    0 <= i < s.len() && s[i] == a
}

pub open spec fn at2(s: Seq<char>, i: int, a: char, b: char) -> bool {
    at1(s, i, a) && at1(s, i + 1, b)
}

/// The operator or punctuation token that starts at `i`, with its length:
/// the first entry of this list that matches there.
pub open spec fn fixed_token(s: Seq<char>, i: int) -> Option<(int, TokenKind)> {
    if at2(s, i, '|', '|') { Some((2, TokenKind::Or)) }
    else if at1(s, i, '|') { Some((1, TokenKind::Pipe)) }
    else if at1(s, i, '[') { Some((1, TokenKind::OpenBracket)) }
    else if at1(s, i, ']') { Some((1, TokenKind::CloseBracket)) }
    else if at1(s, i, '{') { Some((1, TokenKind::OpenCurly)) }
    else if at1(s, i, '}') { Some((1, TokenKind::CloseCurly)) }
    else if at1(s, i, '(') { Some((1, TokenKind::OpenParen)) }
    else if at1(s, i, ')') { Some((1, TokenKind::CloseParen)) }
    else if at2(s, i, '=', '=') { Some((2, TokenKind::Equals)) }
    else if at2(s, i, '!', '=') { Some((2, TokenKind::NotEquals)) }
    else if at1(s, i, '=') { Some((1, TokenKind::Assignment)) }
    else if at1(s, i, '!') { Some((1, TokenKind::Not)) }
    else if at2(s, i, '<', '=') { Some((2, TokenKind::LessEquals)) }
    else if at1(s, i, '<') { Some((1, TokenKind::Less)) }
    else if at2(s, i, '>', '=') { Some((2, TokenKind::GreaterEquals)) }
    else if at1(s, i, '>') { Some((1, TokenKind::Greater)) }
    else if at2(s, i, '&', '&') { Some((2, TokenKind::And)) }
    else if at2(s, i, '.', '.') { Some((2, TokenKind::DotDot)) }
    else if at1(s, i, '.') { Some((1, TokenKind::Dot)) }
    else if at1(s, i, ';') { Some((1, TokenKind::SemiColon)) }
    else if at2(s, i, ':', ':') { Some((2, TokenKind::DoubleColon)) }
    else if at1(s, i, ':') { Some((1, TokenKind::Colon)) }
    else if at1(s, i, '?') { Some((1, TokenKind::Question)) }
    else if at1(s, i, ',') { Some((1, TokenKind::Comma)) }
    else if at2(s, i, '+', '+') { Some((2, TokenKind::PlusPlus)) }
    else if at2(s, i, '-', '-') { Some((2, TokenKind::MinusMinus)) }
    else if at2(s, i, '+', '=') { Some((2, TokenKind::PlusEquals)) }
    else if at2(s, i, '-', '=') { Some((2, TokenKind::MinusEquals)) }
    else if at2(s, i, '/', '=') { Some((2, TokenKind::DivideEquals)) }
    else if at2(s, i, '*', '=') { Some((2, TokenKind::MultiplyEquals)) }
    else if at2(s, i, '%', '=') { Some((2, TokenKind::ModEquals)) }
    else if at1(s, i, '+') { Some((1, TokenKind::Plus)) }
    else if at1(s, i, '-') { Some((1, TokenKind::Minus)) }
    else if at1(s, i, '/') { Some((1, TokenKind::Divide)) }
    else if at1(s, i, '*') { Some((1, TokenKind::Star)) }
    else if at1(s, i, '%') { Some((1, TokenKind::Percent)) }
    else { None }
}

/// The text that an operator or punctuation kind is written as.
pub open spec fn canonical_text(kind: TokenKind) -> Option<Seq<char>> {
    match kind {
        TokenKind::Or => Some(seq!['|', '|']),
        TokenKind::Pipe => Some(seq!['|']),
        TokenKind::OpenBracket => Some(seq!['[']),
        TokenKind::CloseBracket => Some(seq![']']),
        TokenKind::OpenCurly => Some(seq!['{']),
        TokenKind::CloseCurly => Some(seq!['}']),
        TokenKind::OpenParen => Some(seq!['(']),
        TokenKind::CloseParen => Some(seq![')']),
        TokenKind::Equals => Some(seq!['=', '=']),
        TokenKind::NotEquals => Some(seq!['!', '=']),
        TokenKind::Assignment => Some(seq!['=']),
        TokenKind::Not => Some(seq!['!']),
        TokenKind::LessEquals => Some(seq!['<', '=']),
        TokenKind::Less => Some(seq!['<']),
        TokenKind::GreaterEquals => Some(seq!['>', '=']),
        TokenKind::Greater => Some(seq!['>']),
        TokenKind::And => Some(seq!['&', '&']),
        TokenKind::DotDot => Some(seq!['.', '.']),
        TokenKind::Dot => Some(seq!['.']),
        TokenKind::SemiColon => Some(seq![';']),
        TokenKind::DoubleColon => Some(seq![':', ':']),
        TokenKind::Colon => Some(seq![':']),
        TokenKind::Question => Some(seq!['?']),
        TokenKind::Comma => Some(seq![',']),
        TokenKind::PlusPlus => Some(seq!['+', '+']),
        TokenKind::MinusMinus => Some(seq!['-', '-']),
        TokenKind::PlusEquals => Some(seq!['+', '=']),
        TokenKind::MinusEquals => Some(seq!['-', '=']),
        TokenKind::DivideEquals => Some(seq!['/', '=']),
        TokenKind::MultiplyEquals => Some(seq!['*', '=']),
        TokenKind::ModEquals => Some(seq!['%', '=']),
        TokenKind::Plus => Some(seq!['+']),
        TokenKind::Minus => Some(seq!['-']),
        TokenKind::Divide => Some(seq!['/']),
        TokenKind::Star => Some(seq!['*']),
        TokenKind::Percent => Some(seq!['%']),
        _ => None,
    }
}

/// The end of a number that starts at `i`: digits, then optionally a dot
/// followed by at least one digit.
pub open spec fn number_end(s: Seq<char>, i: int) -> int {
    let d = scan_while(s, i, CharClass::Digit);
    if at1(s, d, '.') && 0 <= d + 1 < s.len() && is_digit(s[d + 1]) {
        scan_while(s, d + 1, CharClass::Digit)
    } else {
        d
    }
}

/// What the lexer does at one position.
pub enum Scan {
    /// A token of `kind` whose text is `s[from..to]`; the lexer goes on at `end`.
    Emit { end: int, kind: TokenKind, from: int, to: int },
    /// Input that yields no token (white space, a comment); the lexer goes on at `end`.
    Skip { end: int },
    /// Nothing matches.
    Reject,
}

/// The first recognizer that matches at `i`, and what it makes of the input.
pub open spec fn recognize(s: Seq<char>, i: int) -> Scan {
    if at2(s, i, '/', '/') {
        Scan::Skip { end: scan_while(s, i + 2, CharClass::NotNewline) }
    } else if fixed_token(s, i) is Some {
        let (n, kind) = fixed_token(s, i)->Some_0;
        Scan::Emit { end: i + n, kind, from: i, to: i + n }
    } else if 0 <= i < s.len() && is_white_space(s[i]) {
        Scan::Skip { end: scan_while(s, i, CharClass::White) }
    } else if at1(s, i, '"') && scan_while(s, i + 1, CharClass::NotQuote) < s.len() {
        let e = scan_while(s, i + 1, CharClass::NotQuote);
        Scan::Emit { end: e + 1, kind: TokenKind::String, from: i + 1, to: e }
    } else if 0 <= i < s.len() && is_digit(s[i]) {
        let e = number_end(s, i);
        Scan::Emit { end: e, kind: TokenKind::Number, from: i, to: e }
    } else if 0 <= i < s.len() && is_word_start(s[i]) {
        let e = scan_while(s, i + 1, CharClass::Word);
        let kind = match keyword_of(s.subrange(i, e)) {
            Some(k) => k,
            None => TokenKind::Identifier,
        };
        Scan::Emit { end: e, kind, from: i, to: e }
    } else {
        Scan::Reject
    }
}

/// The number of bytes that the first `i` characters of `s` take in UTF-8.
pub open spec fn byte_offset(s: Seq<char>, i: int) -> nat {
    encode_utf8(s.subrange(0, i)).len()
}

/// Lexing from position `i`, with `acc` the tokens found before it.
pub open spec fn lex_from(s: Seq<char>, i: int, acc: Seq<TokenView>) -> Result<Seq<TokenView>, nat>
    decreases s.len() - i,
{
    if i < 0 || i >= s.len() {
        Ok(acc.push(TokenView { kind: TokenKind::Eof, value: seq![], line: byte_offset(s, s.len() as int), pos: 0 }))
    } else {
        match recognize(s, i) {
            Scan::Reject => Err(byte_offset(s, i)),
            Scan::Skip { end } => if i < end <= s.len() {
                lex_from(s, end, acc)
            } else {
                Err(byte_offset(s, i))
            },
            Scan::Emit { end, kind, from, to } => if i < end <= s.len() && i <= from <= to <= end {
                lex_from(
                    s,
                    end,
                    acc.push(TokenView { kind, value: s.subrange(from, to), line: byte_offset(s, i), pos: 0 }),
                )
            } else {
                Err(byte_offset(s, i))
            },
        }
    }
}

/// The tokens of `s`, ended by an `Eof` token; or the byte offset at which
/// no recognizer matches.
pub open spec fn lex(s: Seq<char>) -> Result<Seq<TokenView>, nat> {
    lex_from(s, 0, seq![])
}

pub open spec fn tokens_view(v: Seq<Token>) -> Seq<TokenView> {
    v.map_values(|t: Token| t@)
}

/// What the lexer does at one position, with positions as machine integers.
pub enum Step {
    Emit { end: usize, kind: TokenKind, from: usize, to: usize },
    Skip { end: usize },
    Reject,
}

impl View for Step {
    type V = Scan;

    open spec fn view(&self) -> Scan {
        match *self {
            Step::Emit { end, kind, from, to } => Scan::Emit {
                end: end as int,
                kind,
                from: from as int,
                to: to as int,
            },
            Step::Skip { end } => Scan::Skip { end: end as int },
            Step::Reject => Scan::Reject,
        }
    }
}

/// Relies on `Iterator::collect` over `str::chars`: the characters of `s` in order.
#[verifier::external_body]
pub(crate) fn to_chars(s: &str) -> (r: Vec<char>)
    ensures
        r@ == s@,
{
    s.chars().collect()
}

/// Relies on `Iterator::collect` into a `String`: the characters `v[from..to]`.
#[verifier::external_body]
fn text_of(v: &Vec<char>, from: usize, to: usize) -> (r: String)
    requires
        from <= to <= v@.len(),
    ensures
        r@ == v@.subrange(from as int, to as int),
{
    v[from..to].iter().collect()
}

proof fn lemma_scan_bounds(s: Seq<char>, i: int, class: CharClass)
    requires
        0 <= i <= s.len(),
    ensures
        i <= scan_while(s, i, class) <= s.len(),
    decreases s.len() - i,
{
    if i < s.len() && in_class(class, s[i]) {
        lemma_scan_bounds(s, i + 1, class);
    }
}

pub(crate) proof fn lemma_encode_concat(a: Seq<char>, b: Seq<char>)
    ensures
        encode_utf8(a + b) == encode_utf8(a) + encode_utf8(b),
    decreases a.len(),
{
    if a.len() == 0 {
        assert(a + b == b);
        assert(encode_utf8(a) + encode_utf8(b) == encode_utf8(b));
    } else {
        assert((a + b).drop_first() == a.drop_first() + b);
        lemma_encode_concat(a.drop_first(), b);
        assert(encode_utf8(a + b) == encode_scalar(a[0] as u32) + encode_utf8(a.drop_first() + b));
    }
}

/// One more character adds its UTF-8 width to the byte offset.
proof fn lemma_byte_offset_step(s: Seq<char>, i: int)
    requires
        0 <= i < s.len(),
    ensures
        byte_offset(s, i + 1) == byte_offset(s, i) + encode_scalar(s[i] as u32).len(),
{
    assert(s.subrange(0, i + 1) == s.subrange(0, i) + seq![s[i]]);
    lemma_encode_concat(s.subrange(0, i), seq![s[i]]);
    assert(seq![s[i]].drop_first() == Seq::<char>::empty());
    assert(encode_utf8(seq![s[i]]) == encode_scalar(s[i] as u32) + encode_utf8(Seq::<char>::empty()));
}

proof fn lemma_byte_offset_mono(s: Seq<char>, i: int)
    requires
        0 <= i <= s.len(),
    ensures
        byte_offset(s, i) <= encode_utf8(s).len(),
{
    assert(s == s.subrange(0, i) + s.subrange(i, s.len() as int));
    lemma_encode_concat(s.subrange(0, i), s.subrange(i, s.len() as int));
}

fn class_has(class: CharClass, c: char) -> (r: bool)
    ensures
        r == in_class(class, c),
{
    match class {
        CharClass::White => {
            let u = c as u32;
            (0x09 <= u && u <= 0x0d) || u == 0x20 || u == 0x85 || u == 0xa0 || u == 0x1680 || (
            0x2000 <= u && u <= 0x200a) || u == 0x2028 || u == 0x2029 || u == 0x202f || u == 0x205f
                || u == 0x3000
        },
        CharClass::Digit => '0' <= c && c <= '9',
        CharClass::Word => ('a' <= c && c <= 'z') || ('A' <= c && c <= 'Z') || c == '_' || ('0' <= c
            && c <= '9') || c == '!',
        CharClass::NotNewline => c != '\n',
        CharClass::NotQuote => c != '"',
    }
}

/// The end of the run of `class` characters that starts at `i`.
fn scan(input: &Vec<char>, i: usize, class: CharClass) -> (r: usize)
    requires
        i <= input@.len(),
    ensures
        r == scan_while(input@, i as int, class),
        i <= r <= input@.len(),
{
    let mut j = i;
    while j < input.len() && class_has(class, input[j])
        invariant
            i <= j <= input@.len(),
            scan_while(input@, i as int, class) == scan_while(input@, j as int, class),
        decreases input@.len() - j,
    {
        j += 1;
    }
    j
}

fn char_at(input: &Vec<char>, i: usize, c: char) -> (r: bool)
    ensures
        r == at1(input@, i as int, c),
{
    i < input.len() && input[i] == c
}

fn pair_at(input: &Vec<char>, i: usize, a: char, b: char) -> (r: bool)
    ensures
        r == at2(input@, i as int, a, b),
{
    i < input.len() && input[i] == a && i + 1 < input.len() && input[i + 1] == b
}

/// The operator or punctuation token that starts at `i`, with its length.
fn match_fixed(input: &Vec<char>, i: usize) -> (r: Option<(usize, TokenKind)>)
    requires
        i < input@.len(),
    ensures
        match fixed_token(input@, i as int) {
            Some((n, kind)) => r == Some((n as usize, kind)),
            None => r is None,
        },
        fixed_token(input@, i as int) matches Some((n, _)) ==> 1 <= n <= 2,
{
    if pair_at(input, i, '|', '|') {
        Some((2, TokenKind::Or))
    } else if char_at(input, i, '|') {
        Some((1, TokenKind::Pipe))
    } else if char_at(input, i, '[') {
        Some((1, TokenKind::OpenBracket))
    } else if char_at(input, i, ']') {
        Some((1, TokenKind::CloseBracket))
    } else if char_at(input, i, '{') {
        Some((1, TokenKind::OpenCurly))
    } else if char_at(input, i, '}') {
        Some((1, TokenKind::CloseCurly))
    } else if char_at(input, i, '(') {
        Some((1, TokenKind::OpenParen))
    } else if char_at(input, i, ')') {
        Some((1, TokenKind::CloseParen))
    } else if pair_at(input, i, '=', '=') {
        Some((2, TokenKind::Equals))
    } else if pair_at(input, i, '!', '=') {
        Some((2, TokenKind::NotEquals))
    } else if char_at(input, i, '=') {
        Some((1, TokenKind::Assignment))
    } else if char_at(input, i, '!') {
        Some((1, TokenKind::Not))
    } else if pair_at(input, i, '<', '=') {
        Some((2, TokenKind::LessEquals))
    } else if char_at(input, i, '<') {
        Some((1, TokenKind::Less))
    } else if pair_at(input, i, '>', '=') {
        Some((2, TokenKind::GreaterEquals))
    } else if char_at(input, i, '>') {
        Some((1, TokenKind::Greater))
    } else if pair_at(input, i, '&', '&') {
        Some((2, TokenKind::And))
    } else if pair_at(input, i, '.', '.') {
        Some((2, TokenKind::DotDot))
    } else if char_at(input, i, '.') {
        Some((1, TokenKind::Dot))
    } else if char_at(input, i, ';') {
        Some((1, TokenKind::SemiColon))
    } else if pair_at(input, i, ':', ':') {
        Some((2, TokenKind::DoubleColon))
    } else if char_at(input, i, ':') {
        Some((1, TokenKind::Colon))
    } else if char_at(input, i, '?') {
        Some((1, TokenKind::Question))
    } else if char_at(input, i, ',') {
        Some((1, TokenKind::Comma))
    } else if pair_at(input, i, '+', '+') {
        Some((2, TokenKind::PlusPlus))
    } else if pair_at(input, i, '-', '-') {
        Some((2, TokenKind::MinusMinus))
    } else if pair_at(input, i, '+', '=') {
        Some((2, TokenKind::PlusEquals))
    } else if pair_at(input, i, '-', '=') {
        Some((2, TokenKind::MinusEquals))
    } else if pair_at(input, i, '/', '=') {
        Some((2, TokenKind::DivideEquals))
    } else if pair_at(input, i, '*', '=') {
        Some((2, TokenKind::MultiplyEquals))
    } else if pair_at(input, i, '%', '=') {
        Some((2, TokenKind::ModEquals))
    } else if char_at(input, i, '+') {
        Some((1, TokenKind::Plus))
    } else if char_at(input, i, '-') {
        Some((1, TokenKind::Minus))
    } else if char_at(input, i, '/') {
        Some((1, TokenKind::Divide))
    } else if char_at(input, i, '*') {
        Some((1, TokenKind::Star))
    } else if char_at(input, i, '%') {
        Some((1, TokenKind::Percent))
    } else {
        None
    }
}

/// The number of bytes that `c` takes in UTF-8.
fn char_width(c: char) -> (r: usize)
    ensures
        r == encode_scalar(c as u32).len(),
        1 <= r <= 4,
{
    proof {
        char_is_scalar(c);
    }
    let u = c as u32;
    if u <= 0x7f {
        1
    } else if u <= 0x7ff {
        2
    } else if u <= 0xffff {
        3
    } else {
        4
    }
}

/// The end of the number that starts at `i`.
fn number_handler(input: &Vec<char>, i: usize) -> (r: usize)
    requires
        i <= input@.len(),
    ensures
        r == number_end(input@, i as int),
        i <= r <= input@.len(),
        i < input@.len() && is_digit(input@[i as int]) ==> i < r,
{
    let d = scan(input, i, CharClass::Digit);
    proof {
        if i < input@.len() && is_digit(input@[i as int]) {
            lemma_scan_bounds(input@, i + 1, CharClass::Digit);
        }
    }
    if char_at(input, d, '.') && d < input.len() - 1 && class_has(CharClass::Digit, input[d + 1]) {
        scan(input, d + 1, CharClass::Digit)
    } else {
        d
    }
}

/// The first recognizer that matches at `i`, and what it makes of the input.
fn recognize_at(input: &Vec<char>, i: usize) -> (r: Step)
    requires
        i < input@.len(),
    ensures
        r@ == recognize(input@, i as int),
        match r {
            Step::Emit { end, from, to, .. } => i < end <= input@.len() && i <= from <= to <= end,
            Step::Skip { end } => i < end <= input@.len(),
            Step::Reject => true,
        },
{
    let n = input.len();
    if pair_at(input, i, '/', '/') {
        let end = scan(input, i + 2, CharClass::NotNewline);
        return Step::Skip { end };
    }
    match match_fixed(input, i) {
        Some((len, kind)) => {
            return Step::Emit { end: i + len, kind, from: i, to: i + len };
        },
        None => {},
    }
    let c = input[i];
    if class_has(CharClass::White, c) {
        let end = scan(input, i, CharClass::White);
        proof {
            lemma_scan_bounds(input@, i + 1, CharClass::White);
        }
        return Step::Skip { end };
    }
    if c == '"' {
        let e = scan(input, i + 1, CharClass::NotQuote);
        if e < n {
            return Step::Emit { end: e + 1, kind: TokenKind::String, from: i + 1, to: e };
        }
    }
    if class_has(CharClass::Digit, c) {
        let e = number_handler(input, i);
        return Step::Emit { end: e, kind: TokenKind::Number, from: i, to: e };
    }
    if ('a' <= c && c <= 'z') || ('A' <= c && c <= 'Z') || c == '_' {
        let e = scan(input, i + 1, CharClass::Word);
        let word = text_of(input, i, e);
        let kind = match TokenKind::is_keyword(word.as_str()) {
            Some(k) => k,
            None => TokenKind::Identifier,
        };
        return Step::Emit { end: e, kind, from: i, to: e };
    }
    Step::Reject
}

/// The state of the lexer part way through its input.
pub struct Lexer {
    tokens: Vec<Token>,
    input: Vec<char>,
    pos: usize,
    offset: usize,
}

impl Lexer {
    fn new(source: &str) -> (r: Lexer)
        ensures
            r.input@ == source@,
            r.tokens@.len() == 0,
            r.pos == 0,
            r.offset == 0,
    {
        Lexer { tokens: Vec::new(), input: to_chars(source), pos: 0, offset: 0 }
    }

    fn at_eof(&self) -> (r: bool)
        ensures
            r == (self.pos >= self.input@.len()),
    {
        self.pos >= self.input.len()
    }

    /// Moves to position `end`, counting the bytes passed over.
    fn advance(&mut self, end: usize)
        requires
            old(self).pos <= end <= old(self).input@.len(),
            old(self).offset == byte_offset(old(self).input@, old(self).pos as int),
            encode_utf8(old(self).input@).len() <= usize::MAX,
        ensures
            final(self).pos == end,
            final(self).offset == byte_offset(old(self).input@, end as int),
            final(self).input == old(self).input,
            final(self).tokens == old(self).tokens,
    {
        while self.pos < end
            invariant
                self.pos <= end <= self.input@.len(),
                self.offset == byte_offset(self.input@, self.pos as int),
                encode_utf8(self.input@).len() <= usize::MAX,
                self.input == old(self).input,
                self.tokens == old(self).tokens,
            decreases end - self.pos,
        {
            let w = char_width(self.input[self.pos]);
            proof {
                lemma_byte_offset_step(self.input@, self.pos as int);
                lemma_byte_offset_mono(self.input@, self.pos + 1);
            }
            self.offset = self.offset + w;
            self.pos = self.pos + 1;
        }
    }

    /// Splits `source` into tokens ended by an `Eof` token, or reports the
    /// byte offset at which no recognizer matches.
    pub fn tokenize(source: String) -> (r: Result<Vec<Token>, TokenizerError>)
        ensures
            match lex(source@) {
                Ok(ts) => r matches Ok(v) && tokens_view(v@) == ts,
                Err(offset) => r == Err::<Vec<Token>, TokenizerError>(
                    TokenizerError::InvalidToken(offset as usize),
                ),
            },
    {
        let total = source.as_str().as_bytes().len();
        let mut lexer = Lexer::new(source.as_str());
        let ghost s = lexer.input@;
        proof {
            assert(tokens_view(lexer.tokens@) == Seq::<TokenView>::empty());
            assert(s.subrange(0, 0) == Seq::<char>::empty());
        }
        while !lexer.at_eof()
            invariant
                lexer.input@ == s,
                s == source@,
                total == encode_utf8(s).len(),
                lexer.pos <= s.len(),
                lexer.offset == byte_offset(s, lexer.pos as int),
                lex_from(s, lexer.pos as int, tokens_view(lexer.tokens@)) == lex(s),
            decreases s.len() - lexer.pos,
        {
            let i = lexer.pos;
            match recognize_at(&lexer.input, i) {
                Step::Reject => {
                    proof {
                        lemma_byte_offset_mono(s, i as int);
                    }
                    return Err(TokenizerError::InvalidToken(lexer.offset));
                },
                Step::Skip { end } => {
                    lexer.advance(end);
                },
                Step::Emit { end, kind, from, to } => {
                    let text = text_of(&lexer.input, from, to);
                    let token = Token::new(kind, text, lexer.offset, 0);
                    let ghost before = lexer.tokens@;
                    lexer.tokens.push(token);
                    proof {
                        assert(tokens_view(lexer.tokens@) == tokens_view(before).push(token@));
                    }
                    lexer.advance(end);
                },
            }
        }
        proof {
            lemma_byte_offset_mono(s, lexer.pos as int);
            assert(s.subrange(0, s.len() as int) == s);
        }
        let ghost before = lexer.tokens@;
        let eof = Token::new(TokenKind::Eof, String::new(), lexer.offset, 0);
        lexer.tokens.push(eof);
        proof {
            assert(tokens_view(lexer.tokens@) == tokens_view(before).push(eof@));
        }
        Ok(lexer.tokens)
    }
}

/// Lexing the text of an operator or punctuation kind gives exactly one
/// token of that kind, spanning the whole input, and then the end marker.
pub proof fn lemma_fixed_token_round_trip(kind: TokenKind)
    requires
        canonical_text(kind) is Some,
    ensures
        ({
            let t = canonical_text(kind)->Some_0;
            lex(t) == Ok::<Seq<TokenView>, nat>(
                seq![
                    TokenView { kind, value: t, line: 0, pos: 0 },
                    TokenView { kind: TokenKind::Eof, value: seq![], line: t.len(), pos: 0 },
                ],
            )
        }),
{
    let t = canonical_text(kind)->Some_0;
    let n = t.len() as int;
    assert(fixed_token(t, 0) == Some((n, kind)));
    assert(!at2(t, 0, '/', '/'));
    assert(t.subrange(0, n) == t);
    assert(t.subrange(0, 0) == Seq::<char>::empty());
    let tok = TokenView { kind, value: t, line: 0, pos: 0 };
    assert(byte_offset(t, 0) == 0);
    assert(lex_from(t, 0, seq![]) == lex_from(t, n, seq![tok]));
    lemma_ascii_byte_offset(t);
    assert(seq![tok].push(TokenView { kind: TokenKind::Eof, value: seq![], line: t.len(), pos: 0 })
        == seq![tok, TokenView { kind: TokenKind::Eof, value: seq![], line: t.len(), pos: 0 }]);
}

/// A text of one or two ASCII characters takes one byte per character.
proof fn lemma_ascii_byte_offset(t: Seq<char>)
    requires
        1 <= t.len() <= 2,
        forall|i: int| 0 <= i < t.len() ==> (t[i] as u32) < 0x80,
    ensures
        byte_offset(t, t.len() as int) == t.len(),
{
    assert(t.subrange(0, t.len() as int) == t);
    let rest = t.drop_first();
    if rest.len() > 0 {
        assert(rest.drop_first().len() == 0);
        assert(encode_utf8(rest) == encode_scalar(rest[0] as u32) + encode_utf8(rest.drop_first()));
    }
    assert(encode_utf8(t) == encode_scalar(t[0] as u32) + encode_utf8(rest));
}

/// The kind of a word: its keyword, or `Identifier`.
pub open spec fn word_kind(w: Seq<char>) -> TokenKind {
    match keyword_of(w) {
        Some(k) => k,
        None => TokenKind::Identifier,
    }
}

/// Text of ASCII characters takes one byte per character.
proof fn lemma_ascii_len(t: Seq<char>)
    requires
        forall|i: int| 0 <= i < t.len() ==> (t[i] as u32) < 0x80,
    ensures
        encode_utf8(t).len() == t.len(),
    decreases t.len(),
{
    if t.len() > 0 {
        lemma_ascii_len(t.drop_first());
    }
}

/// Lexing a word from its first letter: its kind (keyword or name) and its end.
proof fn lemma_lex_word(s: Seq<char>)
    requires
        s.len() > 0,
        forall|i: int| 0 <= i < s.len() ==> ('a' <= #[trigger] s[i] <= 'z'),
    ensures
        lex(s) == Ok::<Seq<TokenView>, nat>(
            seq![
                TokenView { kind: word_kind(s), value: s, line: 0, pos: 0 },
                TokenView { kind: TokenKind::Eof, value: seq![], line: s.len(), pos: 0 },
            ],
        ),
{
    let n = s.len() as int;
    assert forall|j: int| 1 <= j <= n implies scan_while(s, j, CharClass::Word) == n by {
        lemma_scan_to_end(s, j);
    }
    assert(s.subrange(0, n) == s);
    assert(s.subrange(0, 0) == Seq::<char>::empty());
    let kind = word_kind(s);
    let tok = TokenView { kind, value: s, line: 0, pos: 0 };
    assert(recognize(s, 0) == Scan::Emit { end: n, kind, from: 0, to: n });
    assert(lex_from(s, 0, seq![]) == lex_from(s, n, seq![tok]));
    assert forall|i: int| 0 <= i < s.len() implies (s[i] as u32) < 0x80 by {
        assert('a' <= s[i] <= 'z');
    }
    lemma_ascii_len(s);
    assert(byte_offset(s, n) == n);
    let eof = TokenView { kind: TokenKind::Eof, value: seq![], line: s.len(), pos: 0 };
    assert(lex_from(s, n, seq![tok]) == Ok::<Seq<TokenView>, nat>(seq![tok].push(eof)));
    assert(seq![tok].push(eof) == seq![tok, eof]);
    assert(lex(s) == Ok::<Seq<TokenView>, nat>(seq![tok, eof]));
}

proof fn lemma_scan_to_end(s: Seq<char>, j: int)
    requires
        0 <= j <= s.len(),
        forall|i: int| 0 <= i < s.len() ==> ('a' <= #[trigger] s[i] <= 'z'),
    ensures
        scan_while(s, j, CharClass::Word) == s.len(),
    decreases s.len() - j,
{
    if j < s.len() {
        assert(in_class(CharClass::Word, s[j]));
        lemma_scan_to_end(s, j + 1);
    }
}

/// `let` lexes to the keyword, and `lets` to a name.
pub proof fn lemma_keyword_or_name()
    ensures
        lex("let"@) == Ok::<Seq<TokenView>, nat>(
            seq![
                TokenView { kind: TokenKind::Let, value: "let"@, line: 0, pos: 0 },
                TokenView { kind: TokenKind::Eof, value: seq![], line: 3, pos: 0 },
            ],
        ),
        lex("lets"@) == Ok::<Seq<TokenView>, nat>(
            seq![
                TokenView { kind: TokenKind::Identifier, value: "lets"@, line: 0, pos: 0 },
                TokenView { kind: TokenKind::Eof, value: seq![], line: 4, pos: 0 },
            ],
        ),
{
    reveal_strlit("let");
    reveal_strlit("lets");
    reveal_strlit("const");
    reveal_strlit("struct");
    reveal_strlit("import");
    reveal_strlit("fn");
    reveal_strlit("if");
    reveal_strlit("else");
    reveal_strlit("while");
    reveal_strlit("for");
    reveal_strlit("in");
    reveal_strlit("match");
    reveal_strlit("pub");
    reveal_strlit("return");
    reveal_strlit("continue");
    reveal_strlit("break");
    lemma_lex_word("let"@);
    lemma_lex_word("lets"@);
    assert(keyword_of("lets"@) is None);
}

} // verus!

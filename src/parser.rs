//! The precedence-climbing parser: tokens in, a block of statements out.
//!
//! Each token kind may have a prefix handler (it starts an expression), an
//! infix handler with a binding power (it continues one), or a statement
//! handler. An expression is a prefix part followed by infix parts for as
//! long as the next token binds tighter than the caller's minimum; equal
//! powers therefore associate to the left.
use vstd::prelude::*;
use crate::token::{Token, TokenKind, TokenView};
use crate::tokenizer::{to_chars, tokens_view};
use crate::ast::{
    BinaryExpression, BlockStatement, Expression, ExpressionStatement, FloatExpression,
    FunctionCallExpression, GrouppingExpression, IntegerExpression, StringExpression,
    SymbolExpression, UnaryExpression, AssignmentExpression, Statement, VariableStatement,
    literals_in_range, statement_literals_in_range,
};

verus! {

/// How tightly an operator binds, from loosest to tightest.
#[derive(Debug, PartialEq, Eq, Structural, Clone, Copy)]
pub enum BindingPower {
    Lowest,
    Comma,
    Assignment,
    Logical,
    Comparison,
    Additive,
    Multiplicative,
    Unary,
    Call,
    Member,
    Primary,
}

pub open spec fn rank(p: BindingPower) -> nat {
    match p {
        BindingPower::Lowest => 0,
        BindingPower::Comma => 1,
        BindingPower::Assignment => 2,
        BindingPower::Logical => 3,
        BindingPower::Comparison => 4,
        BindingPower::Additive => 5,
        BindingPower::Multiplicative => 6,
        BindingPower::Unary => 7,
        BindingPower::Call => 8,
        BindingPower::Member => 9,
        BindingPower::Primary => 10,
    }
}

impl BindingPower {
    pub fn rank(&self) -> (r: u8)
        ensures
            r == rank(*self),
    {
        match self {
            BindingPower::Lowest => 0,
            BindingPower::Comma => 1,
            BindingPower::Assignment => 2,
            BindingPower::Logical => 3,
            BindingPower::Comparison => 4,
            BindingPower::Additive => 5,
            BindingPower::Multiplicative => 6,
            BindingPower::Unary => 7,
            BindingPower::Call => 8,
            BindingPower::Member => 9,
            BindingPower::Primary => 10,
        }
    }
}

/// Why a token sequence could not be parsed.
#[derive(Debug)]
pub enum ParserErrors {
    /// No prefix handler for this token.
    NoFunctionHandler(Token),
    UnexpectedExpressionType(Token),
    /// The input ended where a token was needed.
    NextTokenNotFound,
    /// A number token whose text is not a number.
    NumberIsNotANumber(Token),
    BindingPowerError,
    UnexpectedTokenKind(Token),
}

pub enum ParseErrorView {
    NoFunctionHandler(TokenView),
    UnexpectedExpressionType(TokenView),
    NextTokenNotFound,
    NumberIsNotANumber(TokenView),
    BindingPowerError,
    UnexpectedTokenKind(TokenView),
}

impl View for ParserErrors {
    type V = ParseErrorView;

    open spec fn view(&self) -> ParseErrorView {
        match self {
            ParserErrors::NoFunctionHandler(t) => ParseErrorView::NoFunctionHandler(t@),
            ParserErrors::UnexpectedExpressionType(t) => ParseErrorView::UnexpectedExpressionType(t@),
            ParserErrors::NextTokenNotFound => ParseErrorView::NextTokenNotFound,
            ParserErrors::NumberIsNotANumber(t) => ParseErrorView::NumberIsNotANumber(t@),
            ParserErrors::BindingPowerError => ParseErrorView::BindingPowerError,
            ParserErrors::UnexpectedTokenKind(t) => ParseErrorView::UnexpectedTokenKind(t@),
        }
    }
}

/// The infix handlers.
#[derive(Debug, PartialEq, Eq, Structural, Clone, Copy)]
pub enum LeftDenotationHandlerTypes {
    Default,
    Assignment,
    FunctionCall,
}

/// The prefix handlers.
#[derive(Debug, PartialEq, Eq, Structural, Clone, Copy)]
pub enum NullDenotationHandlerTypes {
    Default,
    Groupping,
    Unary,
}

/// The statement handlers.
#[derive(Debug, PartialEq, Eq, Structural, Clone, Copy)]
pub enum StatementHandlerTypes {
    Default,
    Variable,
}

/// The binding power of each infix token; every other kind binds with `Lowest`.
pub open spec fn binding_power_spec(kind: TokenKind) -> BindingPower {
    match kind {
        TokenKind::And | TokenKind::Or | TokenKind::DotDot => BindingPower::Logical,
        TokenKind::Less | TokenKind::LessEquals | TokenKind::Greater | TokenKind::GreaterEquals
        | TokenKind::Equals | TokenKind::NotEquals => BindingPower::Comparison,
        TokenKind::Plus | TokenKind::Minus => BindingPower::Additive,
        TokenKind::Star | TokenKind::Divide | TokenKind::Percent => BindingPower::Multiplicative,
        TokenKind::Assignment => BindingPower::Assignment,
        TokenKind::OpenParen => BindingPower::Call,
        _ => BindingPower::Lowest,
    }
}

pub open spec fn left_denotation_spec(kind: TokenKind) -> Option<LeftDenotationHandlerTypes> {
    match kind {
        TokenKind::Assignment => Some(LeftDenotationHandlerTypes::Assignment),
        TokenKind::OpenParen => Some(LeftDenotationHandlerTypes::FunctionCall),
        _ => if binding_power_spec(kind) != BindingPower::Lowest {
            Some(LeftDenotationHandlerTypes::Default)
        } else {
            None
        },
    }
}

pub open spec fn null_denotation_spec(kind: TokenKind) -> Option<NullDenotationHandlerTypes> {
    match kind {
        TokenKind::Number | TokenKind::String | TokenKind::Identifier => Some(
            NullDenotationHandlerTypes::Default,
        ),
        TokenKind::Minus | TokenKind::Not => Some(NullDenotationHandlerTypes::Unary),
        TokenKind::OpenParen => Some(NullDenotationHandlerTypes::Groupping),
        _ => None,
    }
}

pub open spec fn statement_handler_spec(kind: TokenKind) -> Option<StatementHandlerTypes> {
    match kind {
        TokenKind::Let | TokenKind::Const => Some(StatementHandlerTypes::Variable),
        _ => None,
    }
}

/// The binding power of `kind`.
pub fn binding_power(kind: TokenKind) -> (r: BindingPower)
    ensures
        r == binding_power_spec(kind),
{
    match kind {
        TokenKind::And | TokenKind::Or | TokenKind::DotDot => BindingPower::Logical,
        TokenKind::Less | TokenKind::LessEquals | TokenKind::Greater | TokenKind::GreaterEquals
        | TokenKind::Equals | TokenKind::NotEquals => BindingPower::Comparison,
        TokenKind::Plus | TokenKind::Minus => BindingPower::Additive,
        TokenKind::Star | TokenKind::Divide | TokenKind::Percent => BindingPower::Multiplicative,
        TokenKind::Assignment => BindingPower::Assignment,
        TokenKind::OpenParen => BindingPower::Call,
        _ => BindingPower::Lowest,
    }
}

/// The infix handler of `kind`.
pub fn left_denotation(kind: TokenKind) -> (r: Option<LeftDenotationHandlerTypes>)
    ensures
        r == left_denotation_spec(kind),
{
    match kind {
        TokenKind::Assignment => Some(LeftDenotationHandlerTypes::Assignment),
        TokenKind::OpenParen => Some(LeftDenotationHandlerTypes::FunctionCall),
        _ => match binding_power(kind) {
            BindingPower::Lowest => None,
            _ => Some(LeftDenotationHandlerTypes::Default),
        },
    }
}

/// The prefix handler of `kind`.
pub fn null_denotation(kind: TokenKind) -> (r: Option<NullDenotationHandlerTypes>)
    ensures
        r == null_denotation_spec(kind),
{
    match kind {
        TokenKind::Number | TokenKind::String | TokenKind::Identifier => Some(
            NullDenotationHandlerTypes::Default,
        ),
        TokenKind::Minus | TokenKind::Not => Some(NullDenotationHandlerTypes::Unary),
        TokenKind::OpenParen => Some(NullDenotationHandlerTypes::Groupping),
        _ => None,
    }
}

/// The statement handler of `kind`.
pub fn statement_handler(kind: TokenKind) -> (r: Option<StatementHandlerTypes>)
    ensures
        r == statement_handler_spec(kind),
{
    match kind {
        TokenKind::Let | TokenKind::Const => Some(StatementHandlerTypes::Variable),
        _ => None,
    }
}

pub open spec fn is_digit_char(c: char) -> bool {
    '0' <= c <= '9'
}

pub open spec fn all_digits(s: Seq<char>) -> bool {
    forall|i: int| 0 <= i < s.len() ==> is_digit_char(#[trigger] s[i])
}

/// The number that a string of decimal digits stands for.
pub open spec fn digits_value(s: Seq<char>) -> nat
    decreases s.len(),
{
    if s.len() == 0 {
        0
    } else {
        digits_value(s.drop_last()) * 10 + ((s.last() as u32) - ('0' as u32)) as nat
    }
}

/// The value of an integer literal: optionally signed digits that fit a
/// signed 64-bit integer, or optionally `+`-signed digits that fit an
/// unsigned one.
pub open spec fn integer_text_value(t: Seq<char>) -> Option<int> {
    let neg = t.len() > 0 && t[0] == '-';
    let digits = if t.len() > 0 && (t[0] == '-' || t[0] == '+') {
        t.subrange(1, t.len() as int)
    } else {
        t
    };
    if digits.len() == 0 || !all_digits(digits) {
        None
    } else if neg {
        if digits_value(digits) <= 0x8000_0000_0000_0000 {
            Some(-(digits_value(digits) as int))
        } else {
            None
        }
    } else if digits_value(digits) <= u64::MAX {
        Some(digits_value(digits) as int)
    } else {
        None
    }
}

/// The text after an optional leading `+` or `-`.
pub open spec fn unsigned_part(t: Seq<char>) -> Seq<char> {
    if t.len() > 0 && (t[0] == '+' || t[0] == '-') {
        t.subrange(1, t.len() as int)
    } else {
        t
    }
}

/// `c` is the lower-case ASCII letter `l`, in either case.
pub open spec fn same_letter(c: char, l: char) -> bool {
    c == l || ('A' <= c <= 'Z' && (c as u32) + 32 == (l as u32))
}

/// `t` spells the lower-case word `w`, ignoring the case of its letters.
pub open spec fn is_word_ci(t: Seq<char>, w: Seq<char>) -> bool {
    t.len() == w.len() && forall|i: int| 0 <= i < t.len() ==> same_letter(#[trigger] t[i], w[i])
}

/// Digits with at most one dot among them, and at least one digit.
pub open spec fn is_mantissa(m: Seq<char>) -> bool {
    &&& forall|i: int| 0 <= i < m.len() ==> is_digit_char(#[trigger] m[i]) || m[i] == '.'
    &&& forall|i: int, j: int| 0 <= i < m.len() && 0 <= j < m.len() && #[trigger] m[i] == '.' && #[trigger] m[j] == '.' ==> i == j
    &&& exists|i: int| 0 <= i < m.len() && is_digit_char(#[trigger] m[i])
}

/// An optionally signed run of at least one digit.
pub open spec fn is_exponent(x: Seq<char>) -> bool {
    unsigned_part(x).len() > 0 && all_digits(unsigned_part(x))
}

pub open spec fn is_e(c: char) -> bool {
    c == 'e' || c == 'E'
}

/// What `str::parse::<f64>` accepts, by the grammar its documentation gives
/// (letters in any case): an optional sign, then `inf`, `infinity`, `nan`, or
/// a number made of digits with at most one dot and at least one digit,
/// optionally followed by `e`, an optional sign and digits.
pub open spec fn parses_as_float(t: Seq<char>) -> bool {
    let r = unsigned_part(t);
    ||| is_word_ci(r, seq!['i', 'n', 'f'])
    ||| is_word_ci(r, seq!['i', 'n', 'f', 'i', 'n', 'i', 't', 'y'])
    ||| is_word_ci(r, seq!['n', 'a', 'n'])
    ||| is_mantissa(r)
    ||| exists|k: int|
        0 <= k < r.len() && is_e(#[trigger] r[k]) && is_mantissa(r.subrange(0, k)) && is_exponent(
            r.subrange(k + 1, r.len() as int),
        )
}

/// An expression tree as plain values.
pub enum ExprView {
    Float(Seq<char>),
    Integer(int),
    Str(Seq<char>),
    Symbol(Seq<char>),
    Binary(Box<ExprView>, TokenView, Box<ExprView>),
    Unary(TokenView, Box<ExprView>),
    Groupping(Box<ExprView>),
    Assignment(Box<ExprView>, TokenView, Box<ExprView>),
    Call(Box<ExprView>, Seq<ExprView>),
}

/// A statement as plain values.
pub enum StmtView {
    Expression(ExprView),
    /// Whether it is a constant, the name, the explicit type, the initializer.
    Variable(bool, Seq<char>, Option<Seq<char>>, ExprView),
    /// A nested block, which the parser does not produce.
    Block,
}

pub open spec fn expr_view(e: Expression) -> ExprView
    decreases e, 0int,
{
    match e {
        Expression::Float(f) => ExprView::Float(f.value@),
        Expression::Integer(i) => ExprView::Integer(i.value as int),
        Expression::String(s) => ExprView::Str(s.value@),
        Expression::Symbol(s) => ExprView::Symbol(s.value@),
        Expression::Binary(b) => ExprView::Binary(
            Box::new(expr_view(*b.left)),
            b.operator@,
            Box::new(expr_view(*b.right)),
        ),
        Expression::Unary(u) => ExprView::Unary(u.operator@, Box::new(expr_view(*u.expression))),
        Expression::Groupping(g) => ExprView::Groupping(Box::new(expr_view(*g.inner))),
        Expression::Assignment(a) => ExprView::Assignment(
            Box::new(expr_view(*a.assigne)),
            a.operator@,
            Box::new(expr_view(*a.value)),
        ),
        Expression::FunctionCall(c) => ExprView::Call(
            Box::new(expr_view(*c.identifier)),
            exprs_view(c.params@, c.params@.len() as int),
        ),
    }
}

/// The views of the first `k` expressions of `s`.
pub open spec fn exprs_view(s: Seq<Box<Expression>>, k: int) -> Seq<ExprView>
    decreases s, k,
{
    if k <= 0 || k > s.len() {
        seq![]
    } else {
        exprs_view(s, k - 1).push(expr_view(*s[k - 1]))
    }
}

pub open spec fn stmt_view(s: Statement) -> StmtView {
    match s {
        Statement::Variable(v) => StmtView::Variable(
            v.is_const,
            v.variable_name@,
            match v.explicit_type {
                Some(t) => Some(t@),
                None => None,
            },
            expr_view(*v.assignment),
        ),
        Statement::Expression(x) => StmtView::Expression(expr_view(*x.expression)),
        Statement::Block(_) => StmtView::Block,
    }
}

pub open spec fn eof_view() -> TokenView {
    TokenView { kind: TokenKind::Eof, value: seq![], line: 0, pos: 0 }
}

/// The token at `i`, or an end marker past the end.
pub open spec fn tok(toks: Seq<TokenView>, i: int) -> TokenView {
    if 0 <= i < toks.len() {
        toks[i]
    } else {
        eof_view()
    }
}

pub type ExprResult = Result<(ExprView, int), ParseErrorView>;

/// A primary expression made of the token `t`.
pub open spec fn primary_spec(t: TokenView) -> Result<ExprView, ParseErrorView> {
    match t.kind {
        TokenKind::Number => match integer_text_value(t.value) {
            Some(v) => Ok(ExprView::Integer(v)),
            None => if parses_as_float(t.value) {
                Ok(ExprView::Float(t.value))
            } else {
                Err(ParseErrorView::NumberIsNotANumber(t))
            },
        },
        TokenKind::String => Ok(ExprView::Str(t.value)),
        _ => Ok(ExprView::Symbol(t.value)),
    }
}

/// The expression that starts at `i` and binds tighter than `power`, and
/// where it ends.
pub open spec fn parse_expr(toks: Seq<TokenView>, i: int, power: nat) -> ExprResult
    decreases toks.len() - i, 3int,
{
    if i < 0 {
        Err(ParseErrorView::NextTokenNotFound)
    } else {
        match nud(toks, i) {
            Err(e) => Err(e),
            Ok((left, j)) => if i < j <= toks.len() {
                climb(toks, j, left, power)
            } else {
                Err(ParseErrorView::BindingPowerError)
            },
        }
    }
}

/// The prefix part of an expression that starts at `i`.
pub open spec fn nud(toks: Seq<TokenView>, i: int) -> ExprResult
    decreases toks.len() - i, 2int,
{
    let t = tok(toks, i);
    if i < 0 || i >= toks.len() {
        Err(ParseErrorView::NoFunctionHandler(t))
    } else {
        match null_denotation_spec(t.kind) {
            None => Err(ParseErrorView::NoFunctionHandler(t)),
            Some(NullDenotationHandlerTypes::Default) => match primary_spec(t) {
                Ok(e) => Ok((e, i + 1)),
                Err(e) => Err(e),
            },
            Some(NullDenotationHandlerTypes::Unary) => match parse_expr(toks, i + 1, 0) {
                Ok((e, j)) => Ok((ExprView::Unary(t, Box::new(e)), j)),
                Err(e) => Err(e),
            },
            Some(NullDenotationHandlerTypes::Groupping) => match parse_expr(toks, i + 1, 0) {
                Ok((e, j)) => if tok(toks, j).kind == TokenKind::CloseParen {
                    Ok((ExprView::Groupping(Box::new(e)), j + 1))
                } else {
                    Err(ParseErrorView::UnexpectedTokenKind(tok(toks, j)))
                },
                Err(e) => Err(e),
            },
        }
    }
}

/// One infix part at `i` after `left`: the expression it makes and where it ends.
pub open spec fn led_step(toks: Seq<TokenView>, i: int, left: ExprView) -> ExprResult
    decreases toks.len() - i, 0int,
{
    let t = tok(toks, i);
    let p = rank(binding_power_spec(t.kind));
    if i < 0 || i >= toks.len() {
        Err(ParseErrorView::UnexpectedExpressionType(t))
    } else {
        match left_denotation_spec(t.kind) {
            Some(LeftDenotationHandlerTypes::FunctionCall) => match call_args(toks, i + 1) {
                Err(e) => Err(e),
                Ok((args, j)) => Ok((ExprView::Call(Box::new(left), args), j)),
            },
            Some(LeftDenotationHandlerTypes::Assignment) => match parse_expr(toks, i + 1, p) {
                Err(e) => Err(e),
                Ok((right, j)) => Ok((ExprView::Assignment(Box::new(left), t, Box::new(right)), j)),
            },
            Some(LeftDenotationHandlerTypes::Default) => match parse_expr(toks, i + 1, p) {
                Err(e) => Err(e),
                Ok((right, j)) => Ok((ExprView::Binary(Box::new(left), t, Box::new(right)), j)),
            },
            None => Err(ParseErrorView::UnexpectedExpressionType(t)),
        }
    }
}

/// Whether the token at `i` continues an expression whose minimum power is `power`.
pub open spec fn continues(toks: Seq<TokenView>, i: int, power: nat) -> bool {
    0 <= i < toks.len() && rank(binding_power_spec(tok(toks, i).kind)) > power
}

/// The infix parts that follow `left` at `i`, while they bind tighter than `power`.
pub open spec fn climb(toks: Seq<TokenView>, i: int, left: ExprView, power: nat) -> ExprResult
    decreases toks.len() - i, 1int,
{
    if !continues(toks, i, power) {
        Ok((left, i))
    } else {
        match led_step(toks, i, left) {
            Err(e) => Err(e),
            Ok((e, j)) => if i < j <= toks.len() {
                climb(toks, j, e, power)
            } else {
                Err(ParseErrorView::BindingPowerError)
            },
        }
    }
}

/// The arguments of a call whose `(` is just before `i`, and where the call ends.
pub open spec fn call_args(toks: Seq<TokenView>, i: int) -> Result<(Seq<ExprView>, int), ParseErrorView>
    decreases toks.len() - i, 5int,
{
    if tok(toks, i).kind == TokenKind::CloseParen && 0 <= i < toks.len() {
        Ok((seq![], i + 1))
    } else {
        args_from(toks, i, seq![])
    }
}

/// Arguments from `i` on, `acc` being those before: expressions separated by
/// commas and closed by `)`.
pub open spec fn args_from(toks: Seq<TokenView>, i: int, acc: Seq<ExprView>) -> Result<(Seq<ExprView>, int), ParseErrorView>
    decreases toks.len() - i, 4int,
{
    match parse_expr(toks, i, 0) {
        Err(e) => Err(e),
        Ok((a, j)) => if j <= i || j >= toks.len() {
            Err(ParseErrorView::UnexpectedTokenKind(tok(toks, j)))
        } else if tok(toks, j).kind == TokenKind::Comma {
            args_from(toks, j + 1, acc.push(a))
        } else if tok(toks, j).kind == TokenKind::CloseParen {
            Ok((acc.push(a), j + 1))
        } else {
            Err(ParseErrorView::UnexpectedTokenKind(tok(toks, j)))
        },
    }
}

pub type StmtResult = Result<(StmtView, int), ParseErrorView>;

/// `kind` is `let` or `const`; then a name, optionally `:` and a type name,
/// then `=`, an expression and `;`.
pub open spec fn parse_variable_spec(toks: Seq<TokenView>, i: int) -> StmtResult {
    let is_const = tok(toks, i).kind == TokenKind::Const;
    let n = tok(toks, i + 1);
    let c = tok(toks, i + 2);
    if n.kind != TokenKind::Identifier {
        Err(ParseErrorView::UnexpectedTokenKind(n))
    } else if c.kind != TokenKind::Colon && c.kind != TokenKind::Assignment {
        Err(ParseErrorView::UnexpectedTokenKind(c))
    } else if c.kind == TokenKind::Colon && tok(toks, i + 3).kind != TokenKind::Identifier {
        Err(ParseErrorView::UnexpectedTokenKind(tok(toks, i + 3)))
    } else {
        let a = if c.kind == TokenKind::Colon { i + 4 } else { i + 2 };
        let ty = if c.kind == TokenKind::Colon { Some(tok(toks, i + 3).value) } else { None };
        if tok(toks, a).kind != TokenKind::Assignment {
            Err(ParseErrorView::UnexpectedTokenKind(tok(toks, a)))
        } else {
            match parse_expr(toks, a + 1, 0) {
                Err(e) => Err(e),
                Ok((e, j)) => if tok(toks, j).kind == TokenKind::SemiColon {
                    Ok((StmtView::Variable(is_const, n.value, ty, e), j + 1))
                } else {
                    Err(ParseErrorView::UnexpectedTokenKind(tok(toks, j)))
                },
            }
        }
    }
}

/// The statement that starts at `i`: a declaration, or an expression and `;`.
pub open spec fn parse_statement_spec(toks: Seq<TokenView>, i: int) -> StmtResult {
    if statement_handler_spec(tok(toks, i).kind) is Some {
        parse_variable_spec(toks, i)
    } else {
        match parse_expr(toks, i, 0) {
            Err(e) => Err(e),
            Ok((e, j)) => if tok(toks, j).kind == TokenKind::SemiColon {
                Ok((StmtView::Expression(e), j + 1))
            } else {
                Err(ParseErrorView::UnexpectedTokenKind(tok(toks, j)))
            },
        }
    }
}

/// The statements from `i` up to the end marker, `acc` being those before.
pub open spec fn parse_all(toks: Seq<TokenView>, i: int, acc: Seq<StmtView>) -> Result<Seq<StmtView>, ParseErrorView>
    decreases toks.len() - i,
{
    if i < 0 || i >= toks.len() || toks[i].kind == TokenKind::Eof {
        Ok(acc)
    } else {
        match parse_statement_spec(toks, i) {
            Err(e) => Err(e),
            Ok((s, j)) => if i < j <= toks.len() {
                parse_all(toks, j, acc.push(s))
            } else {
                Err(ParseErrorView::BindingPowerError)
            },
        }
    }
}

/// The program that a token sequence ended by `Eof` stands for.
pub open spec fn parse_program(toks: Seq<TokenView>) -> Result<Seq<StmtView>, ParseErrorView> {
    parse_all(toks, 0, seq![])
}

proof fn lemma_digits_step(v: Seq<char>, start: int, k: int)
    requires
        0 <= start <= k < v.len(),
    ensures
        digits_value(v.subrange(start, k + 1)) == digits_value(v.subrange(start, k)) * 10 + ((v[k] as u32) - ('0' as u32)) as nat,
{
    assert(v.subrange(start, k + 1).drop_last() == v.subrange(start, k));
}

/// The value of an integer literal, as `integer_text_value` says.
#[verifier::loop_isolation(false)]
pub fn integer_text(t: &str) -> (r: Option<i128>)
    ensures
        match integer_text_value(t@) {
            Some(v) => r == Some(v as i128),
            None => r is None,
        },
        r matches Some(v) ==> i64::MIN <= v <= u64::MAX,
{
    let v = to_chars(t);
    let n = v.len();
    let neg = n > 0 && v[0] == '-';
    let start: usize = if n > 0 && (v[0] == '-' || v[0] == '+') { 1 } else { 0 };
    let ghost digits = if t@.len() > 0 && (t@[0] == '-' || t@[0] == '+') {
        t@.subrange(1, t@.len() as int)
    } else {
        t@
    };
    assert(digits == v@.subrange(start as int, n as int));
    if start >= n {
        return None;
    }
    let mut acc: u128 = 0;
    let mut big = false;
    let mut k: usize = start;
    assert(v@.subrange(start as int, start as int) == Seq::<char>::empty());
    while k < n
        invariant
            start <= k <= n,
            n == v@.len(),
            all_digits(v@.subrange(start as int, k as int)),
            !big ==> acc == digits_value(v@.subrange(start as int, k as int)) && acc <= u64::MAX,
            big ==> digits_value(v@.subrange(start as int, k as int)) > u64::MAX,
        decreases n - k,
    {
        let c = v[k];
        if !('0' <= c && c <= '9') {
            assert(!all_digits(v@.subrange(start as int, n as int))) by {
                assert(v@.subrange(start as int, n as int)[k - start] == c);
            }
            return None;
        }
        proof {
            lemma_digits_step(v@, start as int, k as int);
        }
        let d = (c as u32 - '0' as u32) as u128;
        if !big {
            let next = acc * 10 + d;
            if next > u64::MAX as u128 {
                big = true;
            } else {
                acc = next;
            }
        }
        assert(all_digits(v@.subrange(start as int, k + 1))) by {
            assert forall|i: int| 0 <= i < k + 1 - start implies is_digit_char(#[trigger] v@.subrange(start as int, k + 1)[i]) by {
                if i < k - start {
                    assert(v@.subrange(start as int, k + 1)[i] == v@.subrange(start as int, k as int)[i]);
                }
            }
        }
        k += 1;
    }
    if big {
        return None;
    }
    if neg {
        if acc <= 0x8000_0000_0000_0000u128 {
            Some(-(acc as i128))
        } else {
            None
        }
    } else {
        Some(acc as i128)
    }
}

/// Whether `v[from..to]` spells the lower-case word `w`, in any case.
fn word_ci(v: &Vec<char>, from: usize, to: usize, w: &Vec<char>) -> (r: bool)
    requires
        from <= to <= v@.len(),
    ensures
        r == is_word_ci(v@.subrange(from as int, to as int), w@),
{
    let ghost t = v@.subrange(from as int, to as int);
    if to - from != w.len() {
        return false;
    }
    let mut i: usize = 0;
    while i < w.len()
        invariant
            t == v@.subrange(from as int, to as int),
            from <= to <= v@.len(),
            to - from == w@.len(),
            i <= w@.len(),
            forall|j: int| 0 <= j < i ==> same_letter(#[trigger] t[j], w@[j]),
        decreases w@.len() - i,
    {
        let c = v[from + i];
        let l = w[i];
        assert(t[i as int] == c);
        if !(c == l || ('A' <= c && c <= 'Z' && (c as u32) + 32 == (l as u32))) {
            return false;
        }
        i += 1;
    }
    true
}

/// Whether `v[from..to]` is a mantissa, as `is_mantissa` says.
#[verifier::loop_isolation(false)]
fn mantissa_ok(v: &Vec<char>, from: usize, to: usize) -> (r: bool)
    requires
        from <= to <= v@.len(),
    ensures
        r == is_mantissa(v@.subrange(from as int, to as int)),
{
    let ghost m = v@.subrange(from as int, to as int);
    let mut seen_dot = false;
    let mut dot_at: usize = 0;
    let mut seen_digit = false;
    let mut k: usize = from;
    while k < to
        invariant
            from <= k <= to,
            forall|i: int| 0 <= i < k - from ==> is_digit_char(#[trigger] m[i]) || m[i] == '.',
            seen_dot ==> dot_at < k - from && m[dot_at as int] == '.',
            !seen_dot ==> forall|i: int| 0 <= i < k - from ==> #[trigger] m[i] != '.',
            seen_dot ==> forall|i: int| 0 <= i < k - from && #[trigger] m[i] == '.' ==> i == dot_at,
            seen_digit ==> exists|i: int| 0 <= i < k - from && is_digit_char(#[trigger] m[i]),
            !seen_digit ==> forall|i: int| 0 <= i < k - from ==> !is_digit_char(#[trigger] m[i]),
        decreases to - k,
    {
        let c = v[k];
        assert(m[k - from] == c);
        if '0' <= c && c <= '9' {
            seen_digit = true;
        } else if c == '.' {
            if seen_dot {
                assert(m[dot_at as int] == '.' && m[k - from] == '.');
                return false;
            }
            seen_dot = true;
            dot_at = k - from;
        } else {
            assert(!(is_digit_char(m[k - from]) || m[k - from] == '.'));
            return false;
        }
        k += 1;
    }
    seen_digit
}

/// Whether `v[from..to]` is an exponent, as `is_exponent` says.
#[verifier::loop_isolation(false)]
fn exponent_ok(v: &Vec<char>, from: usize, to: usize) -> (r: bool)
    requires
        from <= to <= v@.len(),
    ensures
        r == is_exponent(v@.subrange(from as int, to as int)),
{
    let ghost x = v@.subrange(from as int, to as int);
    let start = if from < to && (v[from] == '+' || v[from] == '-') { from + 1 } else { from };
    assert(unsigned_part(x) == v@.subrange(start as int, to as int));
    if start >= to {
        return false;
    }
    let mut k = start;
    while k < to
        invariant
            start <= k <= to <= v@.len(),
            forall|i: int| start <= i < k ==> is_digit_char(#[trigger] v@[i]),
        decreases to - k,
    {
        if !('0' <= v[k] && v[k] <= '9') {
            assert(!is_digit_char(v@.subrange(start as int, to as int)[k - start]));
            return false;
        }
        k += 1;
    }
    assert forall|i: int| 0 <= i < to - start implies is_digit_char(#[trigger] v@.subrange(start as int, to as int)[i]) by {
        assert(v@.subrange(start as int, to as int)[i] == v@[start + i]);
    }
    true
}

/// Whether `t` is written as a floating-point literal, as `parses_as_float` says.
#[verifier::loop_isolation(false)]
pub fn float_text(t: &str) -> (r: bool)
    ensures
        r == parses_as_float(t@),
{
    let v = to_chars(t);
    let n = v.len();
    let start: usize = if n > 0 && (v[0] == '+' || v[0] == '-') { 1 } else { 0 };
    let ghost r = unsigned_part(t@);
    assert(r == v@.subrange(start as int, n as int));
    if word_ci(&v, start, n, &vec!['i', 'n', 'f']) || word_ci(
        &v,
        start,
        n,
        &vec!['i', 'n', 'f', 'i', 'n', 'i', 't', 'y'],
    ) || word_ci(&v, start, n, &vec!['n', 'a', 'n']) {
        return true;
    }
    if mantissa_ok(&v, start, n) {
        return true;
    }
    let mut k = start;
    while k < n && !(v[k] == 'e' || v[k] == 'E')
        invariant
            start <= k <= n,
            forall|i: int| start <= i < k ==> !is_e(#[trigger] v@[i]),
        decreases n - k,
    {
        k += 1;
    }
    if k == n {
        assert forall|j: int| 0 <= j < r.len() implies !is_e(#[trigger] r[j]) by {
            assert(r[j] == v@[start + j]);
        }
        return false;
    }
    let ghost e = k - start;
    assert(r[e] == v@[k as int]);
    assert(r.subrange(0, e) == v@.subrange(start as int, k as int));
    assert(r.subrange(e + 1, r.len() as int) == v@.subrange(k + 1, n as int));
    let ok = mantissa_ok(&v, start, k) && exponent_ok(&v, k + 1, n);
    if !ok {
        assert forall|j: int|
            0 <= j < r.len() && is_e(#[trigger] r[j]) implies !(is_mantissa(r.subrange(0, j)) && is_exponent(
                r.subrange(j + 1, r.len() as int),
            )) by {
            if j < e {
                assert(r[j] == v@[start + j]);
            } else if j > e {
                if is_mantissa(r.subrange(0, j)) {
                    let mm = r.subrange(0, j);
                    assert(mm[e] == r[e]);
                    assert(!(is_digit_char(mm[e]) || mm[e] == '.'));
                }
            }
        }
    }
    ok
}

/// `r` is the exec form of the outcome `m`, and the parser stopped where `m` ends.
pub open spec fn expr_outcome(r: Result<Box<Expression>, ParserErrors>, m: ExprResult, final_pos: int) -> bool {
    match m {
        Ok((e, j)) => r matches Ok(x) && expr_view(*x) == e && literals_in_range(*x) && final_pos == j,
        Err(err) => r matches Err(x) && x@ == err,
    }
}

pub open spec fn stmt_outcome(r: Result<Box<Statement>, ParserErrors>, m: StmtResult, final_pos: int) -> bool {
    match m {
        Ok((sv, j)) => r matches Ok(x) && stmt_view(*x) == sv && statement_literals_in_range(*x) && final_pos == j,
        Err(err) => r matches Err(x) && x@ == err,
    }
}

pub open spec fn stmts_view(v: Seq<Box<Statement>>) -> Seq<StmtView> {
    v.map_values(|b: Box<Statement>| stmt_view(*b))
}

proof fn lemma_exprs_view_prefix(s: Seq<Box<Expression>>, x: Box<Expression>, k: int)
    requires
        0 <= k <= s.len(),
    ensures
        exprs_view(s.push(x), k) == exprs_view(s, k),
    decreases k,
{
    if k > 0 {
        lemma_exprs_view_prefix(s, x, k - 1);
        assert(s.push(x)[k - 1] == s[k - 1]);
    }
}

/// The parser: the tokens and the position of the next one.
pub struct Parser {
    tokens: Vec<Token>,
    pos: usize,
}

impl Parser {
    spec fn toks(&self) -> Seq<TokenView> {
        tokens_view(self.tokens@)
    }

    spec fn at(&self) -> int {
        self.pos as int
    }

    fn new(tokens: Vec<Token>) -> (r: Parser)
        ensures
            r.tokens == tokens,
            r.pos == 0,
    {
        Parser { tokens, pos: 0 }
    }

    fn current_kind(&self) -> (r: TokenKind)
        requires
            self.pos <= self.tokens@.len(),
        ensures
            r == tok(self.toks(), self.at()).kind,
    {
        if self.pos < self.tokens.len() {
            self.tokens[self.pos].kind
        } else {
            TokenKind::Eof
        }
    }

    /// The next token; past the end, an end marker.
    fn current_token(&self) -> (r: Token)
        requires
            self.pos <= self.tokens@.len(),
        ensures
            r@ == tok(self.toks(), self.at()),
    {
        if self.pos < self.tokens.len() {
            self.tokens[self.pos].clone()
        } else {
            Token::new(TokenKind::Eof, String::new(), 0, 0)
        }
    }

    fn has_tokens(&self) -> (r: bool)
        requires
            self.pos <= self.tokens@.len(),
        ensures
            r == (self.pos < self.tokens@.len() && self.toks()[self.at()].kind != TokenKind::Eof),
    {
        self.pos < self.tokens.len() && self.tokens[self.pos].kind != TokenKind::Eof
    }

    /// Takes the next token.
    fn next_token(&mut self) -> (r: Result<Token, ParserErrors>)
        requires
            old(self).pos <= old(self).tokens@.len(),
        ensures
            final(self).tokens == old(self).tokens,
            old(self).pos < old(self).tokens@.len() ==> (r matches Ok(t) && t@ == old(self).toks()[old(self).at()]
                && final(self).pos == old(self).pos + 1),
            old(self).pos >= old(self).tokens@.len() ==> (r matches Err(ParserErrors::NextTokenNotFound)
                && final(self).pos == old(self).pos),
    {
        if self.pos < self.tokens.len() {
            let t = self.tokens[self.pos].clone();
            self.pos = self.pos + 1;
            Ok(t)
        } else {
            Err(ParserErrors::NextTokenNotFound)
        }
    }

    /// Takes the next token if it is of `kind`.
    fn expect_token(&mut self, kind: TokenKind) -> (r: Result<Token, ParserErrors>)
        requires
            old(self).pos <= old(self).tokens@.len(),
            kind != TokenKind::Eof,
        ensures
            final(self).tokens == old(self).tokens,
            final(self).pos <= final(self).tokens@.len(),
            tok(old(self).toks(), old(self).at()).kind == kind ==> (r matches Ok(t) && t@ == old(self).toks()[old(self).at()]
                && old(self).pos < old(self).tokens@.len() && final(self).pos == old(self).pos + 1),
            tok(old(self).toks(), old(self).at()).kind != kind ==> (r matches Err(ParserErrors::UnexpectedTokenKind(t))
                && t@ == tok(old(self).toks(), old(self).at()) && final(self).pos == old(self).pos),
    {
        if self.current_kind() != kind {
            return Err(ParserErrors::UnexpectedTokenKind(self.current_token()));
        }
        self.next_token()
    }
}

impl Parser {
    /// A number, string or name.
    fn parse_primary_expression(&mut self) -> (r: Result<Box<Expression>, ParserErrors>)
        requires
            old(self).pos < old(self).tokens@.len(),
            null_denotation_spec(old(self).toks()[old(self).at()].kind) == Some(NullDenotationHandlerTypes::Default),
        ensures
            final(self).tokens == old(self).tokens,
            final(self).pos <= final(self).tokens@.len(),
            expr_outcome(r, nud(old(self).toks(), old(self).at()), final(self).at()),
            r is Ok ==> final(self).pos > old(self).pos,
    {
        let next_token = match self.next_token() {
            Ok(t) => t,
            Err(e) => return Err(e),
        };
        match next_token.kind {
            TokenKind::Number => {
                match integer_text(next_token.value.as_str()) {
                    Some(value) => Ok(Box::new(Expression::Integer(IntegerExpression { value }))),
                    None => {
                        if float_text(next_token.value.as_str()) {
                            Ok(Box::new(Expression::Float(FloatExpression { value: next_token.value })))
                        } else {
                            Err(ParserErrors::NumberIsNotANumber(next_token))
                        }
                    },
                }
            },
            TokenKind::String => Ok(Box::new(Expression::String(StringExpression { value: next_token.value }))),
            _ => Ok(Box::new(Expression::Symbol(SymbolExpression { value: next_token.value }))),
        }
    }

    /// `-` or `!` and the expression after it.
    fn parse_unary_expression(&mut self) -> (r: Result<Box<Expression>, ParserErrors>)
        requires
            old(self).pos < old(self).tokens@.len(),
            null_denotation_spec(old(self).toks()[old(self).at()].kind) == Some(NullDenotationHandlerTypes::Unary),
        ensures
            final(self).tokens == old(self).tokens,
            final(self).pos <= final(self).tokens@.len(),
            expr_outcome(r, nud(old(self).toks(), old(self).at()), final(self).at()),
            r is Ok ==> final(self).pos > old(self).pos,
        decreases old(self).tokens@.len() - old(self).pos, 2int,
    {
        let operator = match self.next_token() {
            Ok(t) => t,
            Err(e) => return Err(e),
        };
        let expression = match self.parse_expression(BindingPower::Lowest) {
            Ok(e) => e,
            Err(e) => return Err(e),
        };
        Ok(Box::new(Expression::Unary(UnaryExpression { operator, expression })))
    }

    /// `(`, an expression, and `)`.
    fn parse_groupping_expression(&mut self) -> (r: Result<Box<Expression>, ParserErrors>)
        requires
            old(self).pos < old(self).tokens@.len(),
            null_denotation_spec(old(self).toks()[old(self).at()].kind) == Some(NullDenotationHandlerTypes::Groupping),
        ensures
            final(self).tokens == old(self).tokens,
            final(self).pos <= final(self).tokens@.len(),
            expr_outcome(r, nud(old(self).toks(), old(self).at()), final(self).at()),
            r is Ok ==> final(self).pos > old(self).pos,
        decreases old(self).tokens@.len() - old(self).pos, 2int,
    {
        match self.expect_token(TokenKind::OpenParen) {
            Ok(_) => {},
            Err(e) => return Err(e),
        }
        let inner = match self.parse_expression(BindingPower::Lowest) {
            Ok(e) => e,
            Err(e) => return Err(e),
        };
        match self.expect_token(TokenKind::CloseParen) {
            Ok(_) => {},
            Err(e) => return Err(e),
        }
        Ok(Box::new(Expression::Groupping(GrouppingExpression { inner })))
    }

    /// The prefix part of an expression, by the handler of `kind`.
    fn try_parse_null_denotaion(&mut self, kind: TokenKind) -> (r: Result<Box<Expression>, ParserErrors>)
        requires
            old(self).pos <= old(self).tokens@.len(),
            kind == tok(old(self).toks(), old(self).at()).kind,
        ensures
            final(self).tokens == old(self).tokens,
            final(self).pos <= final(self).tokens@.len(),
            expr_outcome(r, nud(old(self).toks(), old(self).at()), final(self).at()),
            r is Ok ==> final(self).pos > old(self).pos,
        decreases old(self).tokens@.len() - old(self).pos, 3int,
    {
        if self.pos >= self.tokens.len() {
            return Err(ParserErrors::NoFunctionHandler(self.current_token()));
        }
        match null_denotation(kind) {
            None => Err(ParserErrors::NoFunctionHandler(self.current_token())),
            Some(NullDenotationHandlerTypes::Default) => self.parse_primary_expression(),
            Some(NullDenotationHandlerTypes::Groupping) => self.parse_groupping_expression(),
            Some(NullDenotationHandlerTypes::Unary) => self.parse_unary_expression(),
        }
    }

    /// An operator and its right operand, which binds tighter than `power`.
    fn parse_binary_expression(&mut self, left: Box<Expression>, power: BindingPower) -> (r: Result<Box<Expression>, ParserErrors>)
        requires
            old(self).pos < old(self).tokens@.len(),
            left_denotation_spec(old(self).toks()[old(self).at()].kind) == Some(LeftDenotationHandlerTypes::Default),
            power == binding_power_spec(old(self).toks()[old(self).at()].kind),
            literals_in_range(*left),
        ensures
            final(self).tokens == old(self).tokens,
            final(self).pos <= final(self).tokens@.len(),
            expr_outcome(r, led_step(old(self).toks(), old(self).at(), expr_view(*left)), final(self).at()),
            r is Ok ==> final(self).pos > old(self).pos,
        decreases old(self).tokens@.len() - old(self).pos, 2int,
    {
        let op_token = match self.next_token() {
            Ok(t) => t,
            Err(e) => return Err(e),
        };
        let right = match self.parse_expression(power) {
            Ok(e) => e,
            Err(e) => return Err(e),
        };
        Ok(Box::new(Expression::Binary(BinaryExpression { left, operator: op_token, right })))
    }

    /// `=` and the value assigned.
    fn parse_assignment_expression(&mut self, left: Box<Expression>, power: BindingPower) -> (r: Result<Box<Expression>, ParserErrors>)
        requires
            old(self).pos < old(self).tokens@.len(),
            left_denotation_spec(old(self).toks()[old(self).at()].kind) == Some(LeftDenotationHandlerTypes::Assignment),
            power == binding_power_spec(old(self).toks()[old(self).at()].kind),
            literals_in_range(*left),
        ensures
            final(self).tokens == old(self).tokens,
            final(self).pos <= final(self).tokens@.len(),
            expr_outcome(r, led_step(old(self).toks(), old(self).at(), expr_view(*left)), final(self).at()),
            r is Ok ==> final(self).pos > old(self).pos,
        decreases old(self).tokens@.len() - old(self).pos, 2int,
    {
        let operator = match self.next_token() {
            Ok(t) => t,
            Err(e) => return Err(e),
        };
        let value = match self.parse_expression(power) {
            Ok(e) => e,
            Err(e) => return Err(e),
        };
        Ok(Box::new(Expression::Assignment(AssignmentExpression { assigne: left, operator, value })))
    }

    /// `(`, arguments separated by commas, and `)`, after the callee `left`.
    #[verifier::loop_isolation(false)]
    fn parse_function_call(&mut self, left: Box<Expression>, power: BindingPower) -> (r: Result<Box<Expression>, ParserErrors>)
        requires
            old(self).pos < old(self).tokens@.len(),
            left_denotation_spec(old(self).toks()[old(self).at()].kind) == Some(LeftDenotationHandlerTypes::FunctionCall),
            literals_in_range(*left),
        ensures
            final(self).tokens == old(self).tokens,
            final(self).pos <= final(self).tokens@.len(),
            expr_outcome(r, led_step(old(self).toks(), old(self).at(), expr_view(*left)), final(self).at()),
            r is Ok ==> final(self).pos > old(self).pos,
        decreases old(self).tokens@.len() - old(self).pos, 2int,
    {
        let ghost toks = self.toks();
        let ghost i = self.at();
        match self.expect_token(TokenKind::OpenParen) {
            Ok(_) => {},
            Err(e) => return Err(e),
        }
        let mut params: Vec<Box<Expression>> = Vec::new();
        if self.current_kind() == TokenKind::CloseParen && self.pos < self.tokens.len() {
            self.pos = self.pos + 1;
        } else {
            let ghost start = self.at();
            assert(exprs_view(params@, 0) == Seq::<ExprView>::empty());
            loop
                invariant
                    self.tokens == old(self).tokens,
                    toks == self.toks(),
                    start <= self.pos <= self.tokens@.len(),
                    call_args(toks, i + 1) == args_from(toks, self.at(), exprs_view(params@, params@.len() as int)),
                    forall|k: int| 0 <= k < params@.len() ==> literals_in_range(*#[trigger] params@[k]),
                decreases self.tokens@.len() - self.pos,
            {
                let ghost here = self.at();
                let arg = match self.parse_expression(BindingPower::Lowest) {
                    Ok(e) => e,
                    Err(e) => return Err(e),
                };
                proof {
                    lemma_exprs_view_prefix(params@, arg, params@.len() as int);
                }
                params.push(arg);
                if self.pos >= self.tokens.len() {
                    return Err(ParserErrors::UnexpectedTokenKind(self.current_token()));
                }
                let kind = self.current_kind();
                if kind == TokenKind::Comma {
                    self.pos = self.pos + 1;
                } else if kind == TokenKind::CloseParen {
                    self.pos = self.pos + 1;
                    break;
                } else {
                    return Err(ParserErrors::UnexpectedTokenKind(self.current_token()));
                }
            }
        }
        let ghost pv = exprs_view(params@, params@.len() as int);
        let call = Box::new(Expression::FunctionCall(FunctionCallExpression { params, identifier: left }));
        assert(expr_view(*call) == ExprView::Call(Box::new(expr_view(*left)), pv));
        Ok(call)
    }

    /// The infix part at the next token, by the handler of `kind`.
    fn try_parse_left_denotation(
        &mut self,
        left: Box<Expression>,
        new_power: BindingPower,
        kind: TokenKind,
    ) -> (r: Result<Box<Expression>, ParserErrors>)
        requires
            old(self).pos < old(self).tokens@.len(),
            kind == old(self).toks()[old(self).at()].kind,
            new_power == binding_power_spec(kind),
            literals_in_range(*left),
        ensures
            final(self).tokens == old(self).tokens,
            final(self).pos <= final(self).tokens@.len(),
            expr_outcome(r, led_step(old(self).toks(), old(self).at(), expr_view(*left)), final(self).at()),
            r is Ok ==> final(self).pos > old(self).pos,
        decreases old(self).tokens@.len() - old(self).pos, 3int,
    {
        match left_denotation(kind) {
            None => Err(ParserErrors::UnexpectedExpressionType(self.current_token())),
            Some(LeftDenotationHandlerTypes::Default) => self.parse_binary_expression(left, new_power),
            Some(LeftDenotationHandlerTypes::Assignment) => self.parse_assignment_expression(left, new_power),
            Some(LeftDenotationHandlerTypes::FunctionCall) => self.parse_function_call(left, new_power),
        }
    }

    /// The expression at the next token whose infix parts bind tighter than `power`.
    #[verifier::loop_isolation(false)]
    fn parse_expression(&mut self, power: BindingPower) -> (r: Result<Box<Expression>, ParserErrors>)
        requires
            old(self).pos <= old(self).tokens@.len(),
        ensures
            final(self).tokens == old(self).tokens,
            final(self).pos <= final(self).tokens@.len(),
            expr_outcome(r, parse_expr(old(self).toks(), old(self).at(), rank(power)), final(self).at()),
            r is Ok ==> final(self).pos > old(self).pos,
        decreases old(self).tokens@.len() - old(self).pos, 4int,
    {
        let ghost toks = self.toks();
        let ghost i = self.at();
        let kind = self.current_kind();
        let mut left = match self.try_parse_null_denotaion(kind) {
            Ok(e) => e,
            Err(e) => return Err(e),
        };
        let p = power.rank();
        while self.pos < self.tokens.len() && binding_power(self.current_kind()).rank() > p
            invariant
                self.tokens == old(self).tokens,
                toks == self.toks(),
                i < self.pos <= self.tokens@.len(),
                literals_in_range(*left),
                p == rank(power),
                parse_expr(toks, i, rank(power)) == climb(toks, self.at(), expr_view(*left), rank(power)),
            decreases self.tokens@.len() - self.pos,
        {
            let kind = self.current_kind();
            let new_power = binding_power(kind);
            left = match self.try_parse_left_denotation(left, new_power, kind) {
                Ok(e) => e,
                Err(e) => return Err(e),
            };
        }
        Ok(left)
    }

    /// `let` or `const`, a name, optionally `:` and a type name, `=`, an
    /// expression and `;`.
    fn parse_variable_statement(&mut self) -> (r: Result<Box<Statement>, ParserErrors>)
        requires
            old(self).pos < old(self).tokens@.len(),
            statement_handler_spec(old(self).toks()[old(self).at()].kind) is Some,
        ensures
            final(self).tokens == old(self).tokens,
            final(self).pos <= final(self).tokens@.len(),
            stmt_outcome(r, parse_variable_spec(old(self).toks(), old(self).at()), final(self).at()),
            r is Ok ==> final(self).pos > old(self).pos,
        decreases old(self).tokens@.len() - old(self).pos, 5int,
    {
        let let_token = match self.next_token() {
            Ok(t) => t,
            Err(e) => return Err(e),
        };
        let is_const = match let_token.kind {
            TokenKind::Const => true,
            TokenKind::Let => false,
            _ => return Err(ParserErrors::UnexpectedTokenKind(let_token)),
        };
        let name_token = match self.expect_token(TokenKind::Identifier) {
            Ok(t) => t,
            Err(e) => return Err(e),
        };
        let has_explicit_type = match self.current_kind() {
            TokenKind::Colon => true,
            TokenKind::Assignment => false,
            _ => return Err(ParserErrors::UnexpectedTokenKind(self.current_token())),
        };
        let mut explicit_type = None;
        if has_explicit_type {
            match self.expect_token(TokenKind::Colon) {
                Ok(_) => {},
                Err(e) => return Err(e),
            }
            if self.current_kind() != TokenKind::Identifier {
                return Err(ParserErrors::UnexpectedTokenKind(self.current_token()));
            }
            let type_token = match self.next_token() {
                Ok(t) => t,
                Err(e) => return Err(e),
            };
            explicit_type = Some(type_token.value);
        }
        match self.expect_token(TokenKind::Assignment) {
            Ok(_) => {},
            Err(e) => return Err(e),
        }
        let assignment = match self.parse_expression(BindingPower::Lowest) {
            Ok(e) => e,
            Err(e) => return Err(e),
        };
        match self.expect_token(TokenKind::SemiColon) {
            Ok(_) => {},
            Err(e) => return Err(e),
        }
        Ok(Box::new(Statement::Variable(VariableStatement {
            is_const,
            variable_name: name_token.value,
            explicit_type,
            assignment,
        })))
    }

    /// A declaration, or an expression and `;`.
    fn parse_statement(&mut self) -> (r: Result<Box<Statement>, ParserErrors>)
        requires
            old(self).pos < old(self).tokens@.len(),
        ensures
            final(self).tokens == old(self).tokens,
            final(self).pos <= final(self).tokens@.len(),
            stmt_outcome(r, parse_statement_spec(old(self).toks(), old(self).at()), final(self).at()),
            r is Ok ==> final(self).pos > old(self).pos,
        decreases old(self).tokens@.len() - old(self).pos, 6int,
    {
        match statement_handler(self.current_kind()) {
            Some(_) => self.parse_variable_statement(),
            None => {
                let expression = match self.parse_expression(BindingPower::Lowest) {
                    Ok(e) => e,
                    Err(e) => return Err(e),
                };
                match self.expect_token(TokenKind::SemiColon) {
                    Ok(_) => {},
                    Err(e) => return Err(e),
                }
                Ok(Box::new(Statement::Expression(ExpressionStatement { expression })))
            },
        }
    }

    /// Parses a whole program: statements up to the end marker, or the first error.
    #[verifier::loop_isolation(false)]
    pub fn parse(tokens: Vec<Token>) -> (r: Result<Box<BlockStatement>, ParserErrors>)
        ensures
            match parse_program(tokens_view(tokens@)) {
                Ok(svs) => r matches Ok(b) && stmts_view(b.body@) == svs && forall|k: int|
                    0 <= k < b.body@.len() ==> statement_literals_in_range(*#[trigger] b.body@[k]),
                Err(e) => r matches Err(x) && x@ == e,
            },
    {
        let mut body: Vec<Box<Statement>> = Vec::new();
        let mut parser = Parser::new(tokens);
        let ghost toks = parser.toks();
        assert(stmts_view(body@) == Seq::<StmtView>::empty());
        while parser.has_tokens()
            invariant
                toks == parser.toks(),
                parser.pos <= parser.tokens@.len(),
                parse_program(toks) == parse_all(toks, parser.at(), stmts_view(body@)),
                forall|k: int| 0 <= k < body@.len() ==> statement_literals_in_range(*#[trigger] body@[k]),
            decreases parser.tokens@.len() - parser.pos,
        {
            match parser.parse_statement() {
                Ok(s) => {
                    assert(stmts_view(body@.push(s)) == stmts_view(body@).push(stmt_view(*s)));
                    body.push(s);
                },
                Err(e) => return Err(e),
            }
        }
        Ok(Box::new(BlockStatement { body }))
    }
}

/// `t` is a number token written as the single digit `d`.
pub open spec fn digit_token(t: TokenView, d: char) -> bool {
    t.kind == TokenKind::Number && t.value == seq![d]
}

proof fn lemma_digit_literal(d: char)
    requires
        '0' <= d <= '9',
    ensures
        integer_text_value(seq![d]) == Some(((d as u32) - ('0' as u32)) as int),
{
    let t = seq![d];
    assert(t.drop_last() == Seq::<char>::empty());
    assert(digits_value(Seq::<char>::empty()) == 0);
    assert(digits_value(t) == ((d as u32) - ('0' as u32)) as nat);
    assert(all_digits(t));
    assert(t[0] != '-' && t[0] != '+');
}

/// In `1 + 2 * 3;` the product binds tighter than the sum: the statement is
/// `1 + (2 * 3)`.
pub proof fn lemma_product_binds_tighter(toks: Seq<TokenView>)
    requires
        toks.len() == 7,
        digit_token(toks[0], '1'),
        toks[1].kind == TokenKind::Plus,
        digit_token(toks[2], '2'),
        toks[3].kind == TokenKind::Star,
        digit_token(toks[4], '3'),
        toks[5].kind == TokenKind::SemiColon,
        toks[6].kind == TokenKind::Eof,
    ensures
        parse_program(toks) == Ok::<Seq<StmtView>, ParseErrorView>(
            seq![
                StmtView::Expression(
                    ExprView::Binary(
                        Box::new(ExprView::Integer(1)),
                        toks[1],
                        Box::new(
                            ExprView::Binary(
                                Box::new(ExprView::Integer(2)),
                                toks[3],
                                Box::new(ExprView::Integer(3)),
                            ),
                        ),
                    ),
                ),
            ],
        ),
{
    lemma_digit_literal('1');
    lemma_digit_literal('2');
    lemma_digit_literal('3');
    let i1 = ExprView::Integer(1);
    let i2 = ExprView::Integer(2);
    let i3 = ExprView::Integer(3);
    let product = ExprView::Binary(Box::new(i2), toks[3], Box::new(i3));
    let sum = ExprView::Binary(Box::new(i1), toks[1], Box::new(product));
    assert(nud(toks, 4) == Ok::<(ExprView, int), ParseErrorView>((i3, 5)));
    assert(climb(toks, 5, i3, 6) == Ok::<(ExprView, int), ParseErrorView>((i3, 5)));
    assert(parse_expr(toks, 4, 6) == Ok::<(ExprView, int), ParseErrorView>((i3, 5)));
    assert(led_step(toks, 3, i2) == Ok::<(ExprView, int), ParseErrorView>((product, 5)));
    assert(climb(toks, 5, product, 5) == Ok::<(ExprView, int), ParseErrorView>((product, 5)));
    assert(climb(toks, 3, i2, 5) == Ok::<(ExprView, int), ParseErrorView>((product, 5)));
    assert(nud(toks, 2) == Ok::<(ExprView, int), ParseErrorView>((i2, 3)));
    assert(parse_expr(toks, 2, 5) == Ok::<(ExprView, int), ParseErrorView>((product, 5)));
    assert(led_step(toks, 1, i1) == Ok::<(ExprView, int), ParseErrorView>((sum, 5)));
    assert(climb(toks, 5, sum, 0) == Ok::<(ExprView, int), ParseErrorView>((sum, 5)));
    assert(climb(toks, 1, i1, 0) == Ok::<(ExprView, int), ParseErrorView>((sum, 5)));
    assert(nud(toks, 0) == Ok::<(ExprView, int), ParseErrorView>((i1, 1)));
    assert(parse_expr(toks, 0, 0) == Ok::<(ExprView, int), ParseErrorView>((sum, 5)));
    assert(parse_statement_spec(toks, 0) == Ok::<(StmtView, int), ParseErrorView>((StmtView::Expression(sum), 6)));
    assert(parse_all(toks, 6, seq![StmtView::Expression(sum)]) == Ok::<Seq<StmtView>, ParseErrorView>(seq![StmtView::Expression(sum)]));
    assert(seq![].push(StmtView::Expression(sum)) == seq![StmtView::Expression(sum)]);
}

} // verus!

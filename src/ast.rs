//! The syntax tree, its plain-data description, and the runtime value model.
use vstd::prelude::*;
use vstd::slice::slice_to_vec;
use vstd::utf8::encode_utf8;
use crate::token::{same_text, Token, TokenKind};

verus! {

/// The runtime type of a value.
#[derive(Debug)]
pub enum Types {
    Integer,
    UnsingedInteger,
    Float,
    String,
    Boolean,
    Pointer,
    /// A named type and its size in bytes.
    Custom(String, usize),
    Void,
}

/// Two types are the same: the same variant, and for named types the same
/// name and size.
pub open spec fn same_type(a: Types, b: Types) -> bool {
    match (a, b) {
        (Types::Custom(n1, s1), Types::Custom(n2, s2)) => n1@ == n2@ && s1 == s2,
        (Types::Custom(_, _), _) => false,
        (_, Types::Custom(_, _)) => false,
        _ => a == b,
    }
}

impl PartialEq for Types {
    fn eq(&self, other: &Types) -> (r: bool) {
        match (self, other) {
            (Types::Custom(n1, s1), Types::Custom(n2, s2)) => same_text(n1.as_str(), n2.as_str())
                && *s1 == *s2,
            (Types::Integer, Types::Integer) => true,
            (Types::UnsingedInteger, Types::UnsingedInteger) => true,
            (Types::Float, Types::Float) => true,
            (Types::String, Types::String) => true,
            (Types::Boolean, Types::Boolean) => true,
            (Types::Pointer, Types::Pointer) => true,
            (Types::Void, Types::Void) => true,
            _ => false,
        }
    }
}

impl vstd::std_specs::cmp::PartialEqSpecImpl for Types {
    open spec fn obeys_eq_spec() -> bool {
        true
    }

    open spec fn eq_spec(&self, other: &Types) -> bool {
        same_type(*self, *other)
    }
}

impl Clone for Types {
    fn clone(&self) -> (r: Types)
        ensures
            r == *self,
    {
        match self {
            Types::Integer => Types::Integer,
            Types::UnsingedInteger => Types::UnsingedInteger,
            Types::Float => Types::Float,
            Types::String => Types::String,
            Types::Boolean => Types::Boolean,
            Types::Pointer => Types::Pointer,
            Types::Custom(name, size) => Types::Custom(name.clone(), *size),
            Types::Void => Types::Void,
        }
    }
}

/// The arithmetic operations of the language.
#[derive(Debug, PartialEq, Eq, Structural, Clone, Copy)]
pub enum BinaryOperations {
    Add,
    Subtract,
    Divide,
    Multiply,
}

/// Which operations a type admits: all four on the numeric types, only
/// `Add` on strings, none on the others.
pub open spec fn type_supports(t: Types, op: BinaryOperations) -> bool {
    match t {
        Types::Integer | Types::UnsingedInteger | Types::Float => true,
        Types::String => op == BinaryOperations::Add,
        _ => false,
    }
}

impl Types {
    pub fn supports(&self, op: BinaryOperations) -> (r: bool)
        ensures
            r == type_supports(*self, op),
    {
        match self {
            Types::Integer | Types::UnsingedInteger | Types::Float => true,
            Types::String => match op {
                BinaryOperations::Add => true,
                _ => false,
            },
            _ => false,
        }
    }
}

/// The operation that an operator token stands for.
pub open spec fn operation_of(kind: TokenKind) -> Option<BinaryOperations> {
    match kind {
        TokenKind::Plus => Some(BinaryOperations::Add),
        TokenKind::Minus => Some(BinaryOperations::Subtract),
        TokenKind::Divide => Some(BinaryOperations::Divide),
        TokenKind::Star => Some(BinaryOperations::Multiply),
        _ => None,
    }
}

impl BinaryOperations {
    pub fn try_from(value: TokenKind) -> (r: Result<BinaryOperations, ()>)
        ensures
            match operation_of(value) {
                Some(op) => r == Ok::<BinaryOperations, ()>(op),
                None => r is Err,
            },
    {
        match value {
            TokenKind::Plus => Ok(BinaryOperations::Add),
            TokenKind::Minus => Ok(BinaryOperations::Subtract),
            TokenKind::Divide => Ok(BinaryOperations::Divide),
            TokenKind::Star => Ok(BinaryOperations::Multiply),
            _ => Err(()),
        }
    }
}

/// The eight big-endian bytes of `v`.
pub open spec fn u64_be_bytes(v: u64) -> Seq<u8> {
    seq![
        (v >> 56u64) as u8,
        (v >> 48u64) as u8,
        (v >> 40u64) as u8,
        (v >> 32u64) as u8,
        (v >> 24u64) as u8,
        (v >> 16u64) as u8,
        (v >> 8u64) as u8,
        v as u8,
    ]
}

/// The number that eight big-endian bytes stand for.
pub open spec fn u64_from_be(b: Seq<u8>) -> u64 {
    ((b[0] as u64) << 56u64) | ((b[1] as u64) << 48u64) | ((b[2] as u64) << 40u64) | ((
    b[3] as u64) << 32u64) | ((b[4] as u64) << 24u64) | ((b[5] as u64) << 16u64) | ((b[6] as u64)
        << 8u64) | (b[7] as u64)
}

/// The eight big-endian two's-complement bytes of `v`.
pub open spec fn i64_be_bytes(v: i64) -> Seq<u8> {
    u64_be_bytes(v as u64)
}

pub open spec fn i64_from_be(b: Seq<u8>) -> i64 {
    u64_from_be(b) as i64
}

/// A runtime value: its bytes and its type.
#[derive(Debug)]
pub struct AbstractValue {
    pub memory: Box<Vec<u8>>,
    pub _type: Types,
}

/// What a value is, as plain values.
pub struct ValueView {
    pub memory: Seq<u8>,
    pub ty: Types,
}

impl View for AbstractValue {
    type V = ValueView;

    open spec fn view(&self) -> ValueView {
        ValueView { memory: self.memory@, ty: self._type }
    }
}

/// Two values are identical: the same bytes and the same type.
pub open spec fn same_value(a: ValueView, b: ValueView) -> bool {
    a.memory == b.memory && same_type(a.ty, b.ty)
}

pub open spec fn integer_view(v: i64) -> ValueView {
    ValueView { memory: i64_be_bytes(v), ty: Types::Integer }
}

pub open spec fn unsigned_view(v: u64) -> ValueView {
    ValueView { memory: u64_be_bytes(v), ty: Types::UnsingedInteger }
}

/// A string value: the UTF-8 bytes of `s`.
pub open spec fn string_view(s: Seq<char>) -> ValueView {
    ValueView { memory: encode_utf8(s), ty: Types::String }
}

fn copy_bytes(v: &Vec<u8>) -> (r: Vec<u8>)
    ensures
        r@ == v@,
{
    slice_to_vec(v.as_slice())
}

pub fn u64_to_be(v: u64) -> (r: Vec<u8>)
    ensures
        r@ == u64_be_bytes(v),
{
    let r = vec![
        (v >> 56u64) as u8,
        (v >> 48u64) as u8,
        (v >> 40u64) as u8,
        (v >> 32u64) as u8,
        (v >> 24u64) as u8,
        (v >> 16u64) as u8,
        (v >> 8u64) as u8,
        v as u8,
    ];
    assert(r@ == u64_be_bytes(v));
    r
}

pub fn u64_of_be(b: &Vec<u8>) -> (r: u64)
    requires
        b@.len() == 8,
    ensures
        r == u64_from_be(b@),
{
    ((b[0] as u64) << 56u64) | ((b[1] as u64) << 48u64) | ((b[2] as u64) << 40u64) | ((
    b[3] as u64) << 32u64) | ((b[4] as u64) << 24u64) | ((b[5] as u64) << 16u64) | ((b[6] as u64)
        << 8u64) | (b[7] as u64)
}

/// Decoding the bytes of a number gives the number back.
pub proof fn lemma_u64_be_round_trip(v: u64)
    ensures
        u64_from_be(u64_be_bytes(v)) == v,
{
    let b = u64_be_bytes(v);
    let (b0, b1, b2, b3, b4, b5, b6, b7) = (b[0], b[1], b[2], b[3], b[4], b[5], b[6], b[7]);
    assert(b0 == (v >> 56u64) as u8 && b1 == (v >> 48u64) as u8 && b2 == (v >> 40u64) as u8 && b3
        == (v >> 32u64) as u8 && b4 == (v >> 24u64) as u8 && b5 == (v >> 16u64) as u8 && b6 == (v
        >> 8u64) as u8 && b7 == v as u8);
    assert(((b0 as u64) << 56u64) | ((b1 as u64) << 48u64) | ((b2 as u64) << 40u64) | ((b3 as u64)
        << 32u64) | ((b4 as u64) << 24u64) | ((b5 as u64) << 16u64) | ((b6 as u64) << 8u64) | (
    b7 as u64) == v) by (bit_vector)
        requires
            b0 == (v >> 56u64) as u8,
            b1 == (v >> 48u64) as u8,
            b2 == (v >> 40u64) as u8,
            b3 == (v >> 32u64) as u8,
            b4 == (v >> 24u64) as u8,
            b5 == (v >> 16u64) as u8,
            b6 == (v >> 8u64) as u8,
            b7 == v as u8,
    ;
}

/// Decoding the bytes of a signed number gives the number back.
pub proof fn lemma_i64_be_round_trip(v: i64)
    ensures
        i64_from_be(i64_be_bytes(v)) == v,
{
    lemma_u64_be_round_trip(v as u64);
    let u = v as u64;
    assert((u as i64) == v) by (bit_vector)
        requires
            u == v as u64,
    ;
}

impl AbstractValue {
    pub fn new(memory: Box<Vec<u8>>, _type: Types) -> (r: AbstractValue)
        ensures
            r.memory == memory,
            r._type == _type,
    {
        AbstractValue { memory, _type }
    }

    /// An `Integer` value holding `v`.
    pub fn from_i64(v: i64) -> (r: AbstractValue)
        ensures
            r@ == integer_view(v),
    {
        AbstractValue::new(Box::new(u64_to_be(v as u64)), Types::Integer)
    }

    /// An `UnsingedInteger` value holding `v`.
    pub fn from_u64(v: u64) -> (r: AbstractValue)
        ensures
            r@ == unsigned_view(v),
    {
        AbstractValue::new(Box::new(u64_to_be(v)), Types::UnsingedInteger)
    }

    /// A `String` value holding the UTF-8 bytes of `s`.
    pub fn from_text(s: &str) -> (r: AbstractValue)
        ensures
            r@ == string_view(s@),
    {
        AbstractValue::new(Box::new(slice_to_vec(s.as_bytes())), Types::String)
    }

    /// The signed number that the eight bytes of this value stand for.
    pub fn to_i64(&self) -> (r: i64)
        requires
            self@.memory.len() == 8,
        ensures
            r == i64_from_be(self@.memory),
    {
        u64_of_be(&self.memory) as i64
    }

    /// The unsigned number that the eight bytes of this value stand for.
    pub fn to_u64(&self) -> (r: u64)
        requires
            self@.memory.len() == 8,
        ensures
            r == u64_from_be(self@.memory),
    {
        u64_of_be(&self.memory)
    }

    /// A copy of this value.
    pub fn duplicate(&self) -> (r: AbstractValue)
        ensures
            r@ == self@,
    {
        AbstractValue::new(Box::new(copy_bytes(&self.memory)), self._type.clone())
    }

    /// Whether two values are identical.
    pub fn same_as(&self, other: &AbstractValue) -> (r: bool)
        ensures
            r == same_value(self@, other@),
    {
        let a: &Vec<u8> = &*self.memory;
        let b: &Vec<u8> = &*other.memory;
        if a.len() != b.len() {
            return false;
        }
        let mut i: usize = 0;
        while i < a.len()
            invariant
                a@ == self@.memory,
                b@ == other@.memory,
                a@.len() == b@.len(),
                i <= a@.len(),
                a@.subrange(0, i as int) == b@.subrange(0, i as int),
            decreases a@.len() - i,
        {
            if a[i] != b[i] {
                assert(a@[i as int] != b@[i as int]);
                return false;
            }
            assert(a@.subrange(0, i + 1) == a@.subrange(0, i as int).push(a@[i as int]));
            assert(b@.subrange(0, i + 1) == b@.subrange(0, i as int).push(b@[i as int]));
            i += 1;
        }
        assert(a@ == a@.subrange(0, i as int));
        assert(b@ == b@.subrange(0, i as int));
        self._type == other._type
    }
}

/// The plain-data form of an expression that the interpreter evaluates.
#[derive(Debug)]
pub enum AbstractExpressionDescription {
    Integer(AbstractValue),
    UnsingedInteger(AbstractValue),
    /// A floating-point literal, as its text.
    Float(String),
    LiteralString(AbstractValue),
    Symbol(String),
    Binary(Box<AbstractExpressionDescription>, Box<AbstractExpressionDescription>, BinaryOperations),
    /// The callee, the number of arguments, and the arguments.
    FunctionCall(Box<AbstractExpressionDescription>, usize, Vec<Box<AbstractExpressionDescription>>),
    /// A construct that parses but has no evaluation rule.
    Unimplemented,
}

/// Which variant a description is.
pub open spec fn description_variant(d: AbstractExpressionDescription) -> nat {
    match d {
        AbstractExpressionDescription::Integer(_) => 0,
        AbstractExpressionDescription::UnsingedInteger(_) => 1,
        AbstractExpressionDescription::Float(_) => 2,
        AbstractExpressionDescription::LiteralString(_) => 3,
        AbstractExpressionDescription::Symbol(_) => 4,
        AbstractExpressionDescription::Binary(_, _, _) => 5,
        AbstractExpressionDescription::FunctionCall(_, _, _) => 6,
        AbstractExpressionDescription::Unimplemented => 7,
    }
}

impl AbstractExpressionDescription {
    fn variant(&self) -> (r: u8)
        ensures
            r == description_variant(*self),
    {
        match self {
            AbstractExpressionDescription::Integer(_) => 0,
            AbstractExpressionDescription::UnsingedInteger(_) => 1,
            AbstractExpressionDescription::Float(_) => 2,
            AbstractExpressionDescription::LiteralString(_) => 3,
            AbstractExpressionDescription::Symbol(_) => 4,
            AbstractExpressionDescription::Binary(_, _, _) => 5,
            AbstractExpressionDescription::FunctionCall(_, _, _) => 6,
            AbstractExpressionDescription::Unimplemented => 7,
        }
    }
}

/// Two descriptions are equal when they are of the same variant, whatever
/// they hold.
impl PartialEq for AbstractExpressionDescription {
    fn eq(&self, other: &AbstractExpressionDescription) -> (r: bool) {
        self.variant() == other.variant()
    }
}

impl vstd::std_specs::cmp::PartialEqSpecImpl for AbstractExpressionDescription {
    open spec fn obeys_eq_spec() -> bool {
        true
    }

    open spec fn eq_spec(&self, other: &AbstractExpressionDescription) -> bool {
        description_variant(*self) == description_variant(*other)
    }
}

/// The plain-data form of a statement.
#[derive(Debug)]
pub enum AbstractStatementDescription {
    /// The name, the size hint of the initializer, and the initializer.
    Variable(String, usize, Box<AbstractExpressionDescription>),
    Block(Vec<Box<AbstractStatementDescription>>),
    Expression(Box<AbstractExpressionDescription>),
}

/// How many bytes a node's value takes, as far as it is known before evaluation.
#[derive(Debug)]
pub struct MemoryAllocationInfo {
    pub count: usize,
}

/// A floating-point literal, kept as its text (which the host's
/// floating-point unit reads).
#[derive(Debug)]
pub struct FloatExpression {
    pub value: String,
}

#[derive(Debug)]
pub struct IntegerExpression {
    pub value: i128,
}

#[derive(Debug)]
pub struct StringExpression {
    pub value: String,
}

#[derive(Debug)]
pub struct SymbolExpression {
    pub value: String,
}

#[derive(Debug)]
pub struct BinaryExpression {
    pub left: Box<Expression>,
    pub operator: Token,
    pub right: Box<Expression>,
}

#[derive(Debug)]
pub struct UnaryExpression {
    pub operator: Token,
    pub expression: Box<Expression>,
}

#[derive(Debug)]
pub struct GrouppingExpression {
    pub inner: Box<Expression>,
}

#[derive(Debug)]
pub struct AssignmentExpression {
    pub assigne: Box<Expression>,
    pub operator: Token,
    pub value: Box<Expression>,
}

#[derive(Debug)]
pub struct FunctionCallExpression {
    pub params: Vec<Box<Expression>>,
    pub identifier: Box<Expression>,
}

/// An expression node; each node owns its children.
#[derive(Debug)]
pub enum Expression {
    Float(FloatExpression),
    Integer(IntegerExpression),
    String(StringExpression),
    Symbol(SymbolExpression),
    Binary(BinaryExpression),
    Unary(UnaryExpression),
    Groupping(GrouppingExpression),
    Assignment(AssignmentExpression),
    FunctionCall(FunctionCallExpression),
}

#[derive(Debug)]
pub struct BlockStatement {
    pub body: Vec<Box<Statement>>,
}

#[derive(Debug)]
pub struct ExpressionStatement {
    pub expression: Box<Expression>,
}

#[derive(Debug)]
pub struct VariableStatement {
    pub is_const: bool,
    pub variable_name: String,
    pub explicit_type: Option<String>,
    pub assignment: Box<Expression>,
}

/// A statement node.
#[derive(Debug)]
pub enum Statement {
    Block(BlockStatement),
    Expression(ExpressionStatement),
    Variable(VariableStatement),
}

/// Every integer literal in `e` fits a signed or an unsigned 64-bit integer.
pub open spec fn literals_in_range(e: Expression) -> bool
    decreases e,
{
    match e {
        Expression::Integer(i) => i64::MIN <= i.value <= u64::MAX,
        Expression::Binary(b) => literals_in_range(*b.left) && literals_in_range(*b.right),
        Expression::FunctionCall(c) => literals_in_range(*c.identifier) && forall|k: int|
            0 <= k < c.params@.len() ==> literals_in_range(*#[trigger] c.params@[k]),
        _ => true,
    }
}

pub open spec fn statement_literals_in_range(s: Statement) -> bool
    decreases s,
{
    match s {
        Statement::Block(b) => forall|k: int|
            0 <= k < b.body@.len() ==> statement_literals_in_range(*#[trigger] b.body@[k]),
        Statement::Expression(x) => literals_in_range(*x.expression),
        Statement::Variable(v) => literals_in_range(*v.assignment),
    }
}

/// The value an integer literal lowers to: signed where it fits, else unsigned.
pub open spec fn integer_literal_lowers_to(value: i128, d: AbstractExpressionDescription) -> bool {
    if i64::MIN <= value <= i64::MAX {
        d matches AbstractExpressionDescription::Integer(v) && v@ == integer_view(value as i64)
    } else {
        d matches AbstractExpressionDescription::UnsingedInteger(v) && v@ == unsigned_view(
            value as u64,
        )
    }
}

/// `d` is the description of `e`.
pub open spec fn lowers_to(e: Expression, d: AbstractExpressionDescription) -> bool
    decreases e,
{
    match e {
        Expression::Float(f) => d matches AbstractExpressionDescription::Float(t) && t@ == f.value@,
        Expression::Integer(i) => integer_literal_lowers_to(i.value, d),
        Expression::String(s) => d matches AbstractExpressionDescription::LiteralString(v) && v@
            == string_view(s.value@),
        Expression::Symbol(s) => d matches AbstractExpressionDescription::Symbol(n) && n@
            == s.value@,
        Expression::Binary(b) => match operation_of(b.operator.kind) {
            Some(op) => d matches AbstractExpressionDescription::Binary(l, r, o) && o == op
                && lowers_to(*b.left, *l) && lowers_to(*b.right, *r),
            None => d is Unimplemented,
        },
        Expression::FunctionCall(c) => d matches AbstractExpressionDescription::FunctionCall(
            callee,
            n,
            args,
        ) && n == c.params@.len() && args@.len() == c.params@.len() && lowers_to(
            *c.identifier,
            *callee,
        ) && forall|k: int|
            0 <= k < c.params@.len() ==> lowers_to(*#[trigger] c.params@[k], *args@[k]),
        _ => d is Unimplemented,
    }
}

/// The size hint of an expression: eight bytes for a number, the byte length
/// of a string, the sum of the sides of an operation (saturating), and zero
/// where nothing is known.
pub open spec fn size_hint(e: Expression) -> nat
    decreases e,
{
    match e {
        Expression::Float(_) => 8,
        Expression::Integer(_) => 8,
        Expression::String(s) => encode_utf8(s.value@).len(),
        Expression::Binary(b) => {
            let sum = size_hint(*b.left) + size_hint(*b.right);
            if sum > usize::MAX {
                usize::MAX as nat
            } else {
                sum
            }
        },
        _ => 0,
    }
}

/// The size hint of a statement: that of its expression, or for a block the
/// sum of those of its statements (saturating).
pub open spec fn statement_size_hint(s: Statement) -> nat
    decreases s, 0int,
{
    match s {
        Statement::Block(b) => block_size_hint(b.body@, b.body@.len() as int),
        Statement::Expression(x) => size_hint(*x.expression),
        Statement::Variable(v) => size_hint(*v.assignment),
    }
}

/// The saturating sum of the size hints of the first `k` statements.
pub open spec fn block_size_hint(body: Seq<Box<Statement>>, k: int) -> nat
    decreases body, k,
{
    if k <= 0 || k > body.len() {
        0
    } else {
        let sum = block_size_hint(body, k - 1) + statement_size_hint(*body[k - 1]);
        if sum > usize::MAX {
            usize::MAX as nat
        } else {
            sum
        }
    }
}

/// `d` is the description of the statement `s`.
pub open spec fn statement_lowers_to(s: Statement, d: AbstractStatementDescription) -> bool
    decreases s,
{
    match s {
        Statement::Block(b) => d matches AbstractStatementDescription::Block(v) && v@.len()
            == b.body@.len() && forall|k: int|
            0 <= k < b.body@.len() ==> statement_lowers_to(*#[trigger] b.body@[k], *v@[k]),
        Statement::Expression(x) => d matches AbstractStatementDescription::Expression(e)
            && lowers_to(*x.expression, *e),
        Statement::Variable(v) => d matches AbstractStatementDescription::Variable(n, size, e)
            && n@ == v.variable_name@ && size == size_hint(*v.assignment) && lowers_to(
            *v.assignment,
            *e,
        ),
    }
}

impl Expression {
    /// The size hint of this expression.
    pub fn get_memory_allocation_info(&self) -> (r: MemoryAllocationInfo)
        ensures
            r.count == size_hint(*self),
        decreases self,
    {
        match self {
            Expression::Float(_) => MemoryAllocationInfo { count: 8 },
            Expression::Integer(_) => MemoryAllocationInfo { count: 8 },
            Expression::String(s) => MemoryAllocationInfo { count: s.value.as_str().as_bytes().len() },
            Expression::Binary(b) => {
                let l = b.left.get_memory_allocation_info().count;
                let r = b.right.get_memory_allocation_info().count;
                MemoryAllocationInfo { count: l.saturating_add(r) }
            },
            _ => MemoryAllocationInfo { count: 0 },
        }
    }

    /// The description of this expression: literals take their runtime
    /// type here, an integer literal signed where it fits and unsigned
    /// otherwise.
    pub fn get_description(&self) -> (d: AbstractExpressionDescription)
        requires
            literals_in_range(*self),
        ensures
            lowers_to(*self, d),
        decreases self,
    {
        match self {
            Expression::Float(f) => AbstractExpressionDescription::Float(f.value.clone()),
            Expression::Integer(i) => {
                if i64::MIN as i128 <= i.value && i.value <= i64::MAX as i128 {
                    AbstractExpressionDescription::Integer(AbstractValue::from_i64(i.value as i64))
                } else {
                    AbstractExpressionDescription::UnsingedInteger(
                        AbstractValue::from_u64(i.value as u64),
                    )
                }
            },
            Expression::String(s) => AbstractExpressionDescription::LiteralString(
                AbstractValue::from_text(s.value.as_str()),
            ),
            Expression::Symbol(s) => AbstractExpressionDescription::Symbol(s.value.clone()),
            Expression::Binary(b) => match BinaryOperations::try_from(b.operator.kind) {
                Ok(op) => AbstractExpressionDescription::Binary(
                    Box::new(b.left.get_description()),
                    Box::new(b.right.get_description()),
                    op,
                ),
                Err(_) => AbstractExpressionDescription::Unimplemented,
            },
            Expression::FunctionCall(c) => {
                let callee = c.identifier.get_description();
                let mut args: Vec<Box<AbstractExpressionDescription>> = Vec::new();
                let mut k: usize = 0;
                while k < c.params.len()
                    invariant
                        k <= c.params@.len(),
                        args@.len() == k,
                        literals_in_range(*self),
                        *self == Expression::FunctionCall(*c),
                        forall|j: int| 0 <= j < k ==> lowers_to(*#[trigger] c.params@[j], *args@[j]),
                    decreases c.params@.len() - k,
                {
                    assert(literals_in_range(*c.params@[k as int]));
                    let d = c.params[k].get_description();
                    args.push(Box::new(d));
                    k += 1;
                }
                AbstractExpressionDescription::FunctionCall(Box::new(callee), args.len(), args)
            },
            _ => AbstractExpressionDescription::Unimplemented,
        }
    }
}

impl Statement {
    /// The size hint of this statement.
    pub fn get_memory_allocation_info(&self) -> (r: MemoryAllocationInfo)
        ensures
            r.count == statement_size_hint(*self),
        decreases self,
    {
        match self {
            Statement::Block(b) => b.get_memory_allocation_info(),
            Statement::Expression(x) => x.expression.get_memory_allocation_info(),
            Statement::Variable(v) => v.assignment.get_memory_allocation_info(),
        }
    }

    /// The description of this statement.
    pub fn get_description(&self) -> (d: AbstractStatementDescription)
        requires
            statement_literals_in_range(*self),
        ensures
            statement_lowers_to(*self, d),
        decreases self,
    {
        match self {
            Statement::Block(b) => AbstractStatementDescription::Block(b.get_descriptions()),
            Statement::Expression(x) => AbstractStatementDescription::Expression(
                Box::new(x.expression.get_description()),
            ),
            Statement::Variable(v) => AbstractStatementDescription::Variable(
                v.variable_name.clone(),
                v.assignment.get_memory_allocation_info().count,
                Box::new(v.assignment.get_description()),
            ),
        }
    }
}

impl BlockStatement {
    /// The sum of the size hints of the statements of this block (saturating).
    pub fn get_memory_allocation_info(&self) -> (r: MemoryAllocationInfo)
        ensures
            r.count == block_size_hint(self.body@, self.body@.len() as int),
        decreases self,
    {
        let mut count: usize = 0;
        let mut k: usize = 0;
        while k < self.body.len()
            invariant
                k <= self.body@.len(),
                count == block_size_hint(self.body@, k as int),
            decreases self.body@.len() - k,
        {
            count = count.saturating_add(self.body[k].get_memory_allocation_info().count);
            k += 1;
        }
        MemoryAllocationInfo { count }
    }

    /// The descriptions of the statements of this block, in order.
    pub fn get_descriptions(&self) -> (r: Vec<Box<AbstractStatementDescription>>)
        requires
            forall|k: int|
                0 <= k < self.body@.len() ==> statement_literals_in_range(*#[trigger] self.body@[k]),
        ensures
            r@.len() == self.body@.len(),
            forall|k: int|
                0 <= k < self.body@.len() ==> statement_lowers_to(
                    *#[trigger] self.body@[k],
                    *r@[k],
                ),
        decreases self,
    {
        let mut r: Vec<Box<AbstractStatementDescription>> = Vec::new();
        let mut k: usize = 0;
        while k < self.body.len()
            invariant
                k <= self.body@.len(),
                r@.len() == k,
                forall|j: int|
                    0 <= j < self.body@.len() ==> statement_literals_in_range(*#[trigger] self.body@[j]),
                forall|j: int| 0 <= j < k ==> statement_lowers_to(*#[trigger] self.body@[j], *r@[j]),
            decreases self.body@.len() - k,
        {
            let d = self.body[k].get_description();
            r.push(Box::new(d));
            k += 1;
        }
        r
    }
}

} // verus!

//! The tree-walking interpreter.
//!
//! It evaluates statement descriptions against an environment of variables
//! and a table of host functions. What becomes visible to the host (the value
//! of each expression statement, each failed statement, each call of a host
//! function, and the variables at the end of a run) is returned as a sequence
//! of events, in the order in which it happened.
use vstd::prelude::*;
use vstd::utf8::{decode_utf8, valid_utf8};
use crate::token::same_text;
use crate::tokenizer::lemma_encode_concat;
use crate::ast::{
    i64_be_bytes, lemma_i64_be_round_trip,
    statement_literals_in_range, statement_lowers_to, BlockStatement,
    u64_to_be, i64_from_be, integer_view, same_type, same_value, string_view, type_supports, u64_be_bytes,
    u64_from_be, unsigned_view, AbstractExpressionDescription, AbstractStatementDescription,
    AbstractValue, BinaryOperations, Types, ValueView,
};

verus! {

/// A named type of a given size in bytes.
#[derive(Debug)]
pub struct CustomType {
    size: usize,
    identifier: String,
}

/// A declared variable: its value and the depth at which it was declared.
#[derive(Debug)]
pub struct Variable {
    pub value: AbstractValue,
    pub depth: usize,
}

pub struct VariableView {
    pub value: ValueView,
    pub depth: nat,
}

impl View for Variable {
    type V = VariableView;

    open spec fn view(&self) -> VariableView {
        VariableView { value: self.value@, depth: self.depth as nat }
    }
}

/// The signature of a host function.
#[derive(Debug)]
pub struct Function {
    pub identifier: String,
    pub parameters: Vec<Types>,
    pub return_value: Option<Types>,
}

pub struct FunctionView {
    pub identifier: Seq<char>,
    pub parameters: Seq<Types>,
}

impl View for Function {
    type V = FunctionView;

    open spec fn view(&self) -> FunctionView {
        FunctionView { identifier: self.identifier@, parameters: self.parameters@ }
    }
}

/// Why a statement failed.
#[derive(Debug)]
pub enum InterpreterErrors {
    VariableAlreadyExists(String),
    SymbolNotFound(String),
    Unimplemented,
    FunctionNotFound(String),
    /// The function, the number of parameters, and the number of arguments.
    ArgumentCountMismatch(String, usize, usize),
    TypeMismatch(String),
    Overflow,
    Underflow,
    DivisionByZero,
}

pub enum ErrorView {
    VariableAlreadyExists(Seq<char>),
    SymbolNotFound(Seq<char>),
    Unimplemented,
    FunctionNotFound(Seq<char>),
    ArgumentCountMismatch(Seq<char>, nat, nat),
    TypeMismatch(Seq<char>),
    Overflow,
    Underflow,
    DivisionByZero,
}

impl View for InterpreterErrors {
    type V = ErrorView;

    open spec fn view(&self) -> ErrorView {
        match self {
            InterpreterErrors::VariableAlreadyExists(n) => ErrorView::VariableAlreadyExists(n@),
            InterpreterErrors::SymbolNotFound(n) => ErrorView::SymbolNotFound(n@),
            InterpreterErrors::Unimplemented => ErrorView::Unimplemented,
            InterpreterErrors::FunctionNotFound(n) => ErrorView::FunctionNotFound(n@),
            InterpreterErrors::ArgumentCountMismatch(n, p, a) => ErrorView::ArgumentCountMismatch(
                n@,
                *p as nat,
                *a as nat,
            ),
            InterpreterErrors::TypeMismatch(n) => ErrorView::TypeMismatch(n@),
            InterpreterErrors::Overflow => ErrorView::Overflow,
            InterpreterErrors::Underflow => ErrorView::Underflow,
            InterpreterErrors::DivisionByZero => ErrorView::DivisionByZero,
        }
    }
}

/// Work on floating-point numbers, which the host carries out: the bits of
/// a decimal literal, or the bits of the result of an operation on two
/// numbers given by their bits.
#[derive(Debug)]
pub enum FloatRequest {
    Literal(String),
    Apply(BinaryOperations, u64, u64),
}

/// What becomes visible to the host, in order.
#[derive(Debug)]
pub enum InterpreterEvent {
    /// The value of an expression statement, or of a variable at the end of a run.
    Output(AbstractValue),
    /// A statement failed.
    Error(InterpreterErrors),
    /// A host function is to be run with these arguments.
    HostCall(String, Vec<AbstractValue>),
}

pub enum EventView {
    Output(ValueView),
    Error(ErrorView),
    HostCall(Seq<char>, Seq<ValueView>),
}

pub open spec fn values_view(v: Seq<AbstractValue>) -> Seq<ValueView> {
    v.map_values(|a: AbstractValue| a@)
}

impl View for InterpreterEvent {
    type V = EventView;

    open spec fn view(&self) -> EventView {
        match self {
            InterpreterEvent::Output(v) => EventView::Output(v@),
            InterpreterEvent::Error(e) => EventView::Error(e@),
            InterpreterEvent::HostCall(n, args) => EventView::HostCall(n@, values_view(args@)),
        }
    }
}

pub open spec fn events_view(v: Seq<InterpreterEvent>) -> Seq<EventView> {
    v.map_values(|e: InterpreterEvent| e@)
}

/// The interpreter: its variables (by name, each name with its declarations
/// in ascending order of depth), the host functions, whether host calls are
/// carried out, and the depth of the next declaration.
pub struct Interpreter {
    pub vars: Vec<(String, Vec<Variable>)>,
    pub system_functions: Vec<Function>,
    pub system_function_executor: bool,
    pub current_depth: usize,
}

pub struct InterpreterView {
    pub vars: Seq<(Seq<char>, Seq<VariableView>)>,
    pub functions: Seq<FunctionView>,
    pub host: bool,
    pub depth: nat,
}

pub open spec fn variables_view(v: Seq<Variable>) -> Seq<VariableView> {
    v.map_values(|x: Variable| x@)
}

pub open spec fn entry_view(e: (String, Vec<Variable>)) -> (Seq<char>, Seq<VariableView>) {
    (e.0@, variables_view(e.1@))
}

impl View for Interpreter {
    type V = InterpreterView;

    open spec fn view(&self) -> InterpreterView {
        InterpreterView {
            vars: self.vars@.map_values(|e: (String, Vec<Variable>)| entry_view(e)),
            functions: self.system_functions@.map_values(|f: Function| f@),
            host: self.system_function_executor,
            depth: self.current_depth as nat,
        }
    }
}

/// The declarations of one name: never empty, in ascending order of depth,
/// and no two with identical values, whatever their depths.
pub open spec fn declarations_wf(list: Seq<VariableView>) -> bool {
    &&& list.len() > 0
    &&& forall|i: int, j: int| 0 <= i < j < list.len() ==> list[i].depth <= list[j].depth
    &&& forall|i: int, j: int|
        0 <= i < list.len() && 0 <= j < list.len() && i != j ==> !same_value(
            list[i].value,
            list[j].value,
        )
}

/// The interpreter's state is well formed: each name appears once among the
/// variables, with well-formed declarations, and each host function name
/// appears once among the host functions.
pub open spec fn state_wf(st: InterpreterView) -> bool {
    &&& forall|k: int| 0 <= k < st.vars.len() ==> declarations_wf(#[trigger] st.vars[k].1)
    &&& forall|i: int, j: int|
        0 <= i < st.vars.len() && 0 <= j < st.vars.len() && i != j ==> #[trigger] st.vars[i].0
            != #[trigger] st.vars[j].0
    &&& forall|i: int, j: int|
        0 <= i < st.functions.len() && 0 <= j < st.functions.len() && i != j
            ==> #[trigger] st.functions[i].identifier != #[trigger] st.functions[j].identifier
}

/// The first entry of `vars` at or after `i` for `name`.
pub open spec fn find_entry(vars: Seq<(Seq<char>, Seq<VariableView>)>, name: Seq<char>, i: int) -> Option<int>
    decreases vars.len() - i,
{
    if i < 0 || i >= vars.len() {
        None
    } else if vars[i].0 == name {
        Some(i)
    } else {
        find_entry(vars, name, i + 1)
    }
}

/// The first host function at or after `i` named `name`.
pub open spec fn find_function(fs: Seq<FunctionView>, name: Seq<char>, i: int) -> Option<int>
    decreases fs.len() - i,
{
    if i < 0 || i >= fs.len() {
        None
    } else if fs[i].identifier == name {
        Some(i)
    } else {
        find_function(fs, name, i + 1)
    }
}

/// The value of a name: its first (shallowest) declaration, or, for a name
/// that is not declared, the name itself as a string.
pub open spec fn symbol_value(st: InterpreterView, name: Seq<char>) -> ValueView {
    match find_entry(st.vars, name, 0) {
        Some(k) => st.vars[k].1[0].value,
        None => string_view(name),
    }
}

pub open spec fn float_unit_ok<F: Fn(FloatRequest) -> u64>(floats: F) -> bool {
    &&& forall|q: FloatRequest| #[trigger] floats.requires((q,))
    &&& forall|q: FloatRequest, a: u64, b: u64|
        #[trigger] floats.ensures((q,), a) && #[trigger] floats.ensures((q,), b) ==> a == b
}

/// The answer of the host's floating-point unit to `q`.
pub open spec fn float_answer<F: Fn(FloatRequest) -> u64>(floats: F, q: FloatRequest) -> u64 {
    choose|r: u64| floats.ensures((q,), r)
}

pub open spec fn signed_operation(op: BinaryOperations, a: i64, b: i64) -> Result<i64, ErrorView> {
    match op {
        BinaryOperations::Add => match a.checked_add(b) {
            Some(x) => Ok(x),
            None => Err(ErrorView::Overflow),
        },
        BinaryOperations::Subtract => match a.checked_sub(b) {
            Some(x) => Ok(x),
            None => Err(ErrorView::Underflow),
        },
        BinaryOperations::Multiply => match a.checked_mul(b) {
            Some(x) => Ok(x),
            None => Err(ErrorView::Overflow),
        },
        BinaryOperations::Divide => if b == 0 {
            Err(ErrorView::DivisionByZero)
        } else {
            match a.checked_div(b) {
                Some(x) => Ok(x),
                None => Err(ErrorView::Overflow),
            }
        },
    }
}

pub open spec fn unsigned_operation(op: BinaryOperations, a: u64, b: u64) -> Result<u64, ErrorView> {
    match op {
        BinaryOperations::Add => if a + b > u64::MAX {
            Err(ErrorView::Overflow)
        } else {
            Ok((a + b) as u64)
        },
        BinaryOperations::Subtract => if a < b {
            Err(ErrorView::Underflow)
        } else {
            Ok((a - b) as u64)
        },
        BinaryOperations::Multiply => if a * b > u64::MAX {
            Err(ErrorView::Overflow)
        } else {
            Ok((a * b) as u64)
        },
        BinaryOperations::Divide => if b == 0 {
            Err(ErrorView::DivisionByZero)
        } else {
            Ok(a / b)
        },
    }
}

/// The result of `l op r`: both types must admit the operation, and the left
/// type decides how it is carried out; the result has the left type.
pub open spec fn binary_result<F: Fn(FloatRequest) -> u64>(
    l: ValueView,
    r: ValueView,
    op: BinaryOperations,
    floats: F,
) -> Result<ValueView, ErrorView> {
    if !type_supports(l.ty, op) || !type_supports(r.ty, op) {
        Err(ErrorView::Unimplemented)
    } else {
        match l.ty {
            Types::Integer => if l.memory.len() != 8 || r.memory.len() != 8 {
                Err(ErrorView::Unimplemented)
            } else {
                match signed_operation(op, i64_from_be(l.memory), i64_from_be(r.memory)) {
                    Ok(x) => Ok(integer_view(x)),
                    Err(e) => Err(e),
                }
            },
            Types::UnsingedInteger => if l.memory.len() != 8 || r.memory.len() != 8 {
                Err(ErrorView::Unimplemented)
            } else {
                match unsigned_operation(op, u64_from_be(l.memory), u64_from_be(r.memory)) {
                    Ok(x) => Ok(unsigned_view(x)),
                    Err(e) => Err(e),
                }
            },
            Types::Float => if l.memory.len() != 8 || r.memory.len() != 8 {
                Err(ErrorView::Unimplemented)
            } else {
                Ok(
                    ValueView {
                        memory: u64_be_bytes(
                            float_answer(
                                floats,
                                FloatRequest::Apply(op, u64_from_be(l.memory), u64_from_be(r.memory)),
                            ),
                        ),
                        ty: Types::Float,
                    },
                )
            },
            Types::String => Ok(ValueView { memory: l.memory + r.memory, ty: Types::String }),
            _ => Err(ErrorView::Unimplemented),
        }
    }
}

/// Some argument has another type than the parameter at its position.
pub open spec fn types_differ(params: Seq<Types>, args: Seq<ValueView>) -> bool {
    exists|i: int| 0 <= i < params.len() && 0 <= i < args.len() && !same_type(params[i], #[trigger] args[i].ty)
}

pub open spec fn void_view() -> ValueView {
    ValueView { memory: seq![], ty: Types::Void }
}

/// A call of `name` with `count` declared and `args` evaluated arguments:
/// only a name that ends in `!` reaches the host, and only when host calls
/// are carried out; it must be registered, with as many parameters as the
/// call has arguments, each of the argument's type.
pub open spec fn call_result(st: InterpreterView, name: Seq<char>, count: nat, args: Seq<ValueView>) -> (
    Result<ValueView, ErrorView>,
    Seq<EventView>,
) {
    if !st.host || name.len() == 0 || name.last() != '!' {
        (Err(ErrorView::Unimplemented), seq![])
    } else {
        match find_function(st.functions, name, 0) {
            None => (Err(ErrorView::FunctionNotFound(name)), seq![]),
            Some(k) => {
                let f = st.functions[k];
                if f.parameters.len() != count {
                    (Err(ErrorView::ArgumentCountMismatch(name, f.parameters.len(), count)), seq![])
                } else if types_differ(f.parameters, args) {
                    (Err(ErrorView::TypeMismatch(name)), seq![])
                } else {
                    (Ok(void_view()), seq![EventView::HostCall(name, args)])
                }
            },
        }
    }
}

/// The value of `d` and the host calls made while evaluating it.
pub open spec fn eval<F: Fn(FloatRequest) -> u64>(
    st: InterpreterView,
    d: AbstractExpressionDescription,
    floats: F,
) -> (Result<ValueView, ErrorView>, Seq<EventView>)
    decreases d, 0int,
{
    match d {
        AbstractExpressionDescription::Integer(v) => (Ok(v@), seq![]),
        AbstractExpressionDescription::UnsingedInteger(v) => (Ok(v@), seq![]),
        AbstractExpressionDescription::LiteralString(v) => (Ok(v@), seq![]),
        AbstractExpressionDescription::Float(t) => (
            Ok(
                ValueView {
                    memory: u64_be_bytes(float_answer(floats, FloatRequest::Literal(t))),
                    ty: Types::Float,
                },
            ),
            seq![],
        ),
        AbstractExpressionDescription::Symbol(n) => (Ok(symbol_value(st, n@)), seq![]),
        AbstractExpressionDescription::Binary(l, r, op) => {
            let (lr, le) = eval(st, *l, floats);
            match lr {
                Err(e) => (Err(e), le),
                Ok(lv) => {
                    let (rr, re) = eval(st, *r, floats);
                    match rr {
                        Err(e) => (Err(e), le + re),
                        Ok(rv) => (binary_result(lv, rv, op, floats), le + re),
                    }
                },
            }
        },
        AbstractExpressionDescription::FunctionCall(callee, count, args) => {
            let (cr, ce) = eval(st, *callee, floats);
            match cr {
                Err(e) => (Err(e), ce),
                Ok(cv) => if !valid_utf8(cv.memory) {
                    (Err(ErrorView::Unimplemented), ce)
                } else {
                    let (ar, ae) = eval_args(st, args@, args@.len() as int, floats);
                    match ar {
                        Err(e) => (Err(e), ce + ae),
                        Ok(vals) => {
                            let (res, he) = call_result(st, decode_utf8(cv.memory), count as nat, vals);
                            (res, ce + ae + he)
                        },
                    }
                },
            }
        },
        AbstractExpressionDescription::Unimplemented => (Err(ErrorView::Unimplemented), seq![]),
    }
}

/// The values of the first `k` arguments, evaluated in order up to the first failure.
pub open spec fn eval_args<F: Fn(FloatRequest) -> u64>(
    st: InterpreterView,
    args: Seq<Box<AbstractExpressionDescription>>,
    k: int,
    floats: F,
) -> (Result<Seq<ValueView>, ErrorView>, Seq<EventView>)
    decreases args, k,
{
    if k <= 0 || k > args.len() {
        (Ok(seq![]), seq![])
    } else {
        let (pr, pe) = eval_args(st, args, k - 1, floats);
        match pr {
            Err(e) => (Err(e), pe),
            Ok(vs) => {
                let (r, e2) = eval(st, *args[k - 1], floats);
                match r {
                    Err(e) => (Err(e), pe + e2),
                    Ok(v) => (Ok(vs.push(v)), pe + e2),
                }
            },
        }
    }
}

/// `r` is the exec form of the outcome `m`.
pub open spec fn outcome_matches(r: Result<AbstractValue, InterpreterErrors>, m: Result<ValueView, ErrorView>) -> bool {
    match m {
        Ok(v) => r matches Ok(x) && x@ == v,
        Err(e) => r matches Err(x) && x@ == e,
    }
}

/// Relies on `String::from_utf8`: a string exactly when the bytes are valid UTF-8.
#[verifier::external_body]
fn utf8_text(b: &Vec<u8>) -> (r: Option<String>)
    ensures
        r is Some <==> valid_utf8(b@),
        r matches Some(s) ==> s@ == decode_utf8(b@),
{
    String::from_utf8(b.clone()).ok()
}

fn concat_bytes(a: &Vec<u8>, b: &Vec<u8>) -> (r: Vec<u8>)
    ensures
        r@ == a@ + b@,
{
    let mut r: Vec<u8> = Vec::new();
    let mut i: usize = 0;
    while i < a.len()
        invariant
            i <= a@.len(),
            r@ == a@.subrange(0, i as int),
        decreases a@.len() - i,
    {
        r.push(a[i]);
        i += 1;
    }
    let mut j: usize = 0;
    while j < b.len()
        invariant
            j <= b@.len(),
            r@ == a@ + b@.subrange(0, j as int),
        decreases b@.len() - j,
    {
        r.push(b[j]);
        j += 1;
    }
    assert(a@.subrange(0, a@.len() as int) == a@);
    assert(b@.subrange(0, b@.len() as int) == b@);
    r
}

fn ends_with_marker(name: &String) -> (r: bool)
    ensures
        r == (name@.len() > 0 && name@.last() == '!'),
{
    let n = name.as_str().unicode_len();
    n > 0 && name.as_str().get_char(n - 1) == '!'
}

proof fn lemma_float_answer<F: Fn(FloatRequest) -> u64>(floats: F, q: FloatRequest, r: u64)
    requires
        float_unit_ok(floats),
        floats.ensures((q,), r),
    ensures
        r == float_answer(floats, q),
{
    let c = float_answer(floats, q);
    assert(floats.ensures((q,), c));
}

proof fn lemma_eval_args_err_stable<F: Fn(FloatRequest) -> u64>(
    st: InterpreterView,
    args: Seq<Box<AbstractExpressionDescription>>,
    k: int,
    n: int,
    floats: F,
)
    requires
        0 <= k <= n <= args.len(),
        eval_args(st, args, k, floats).0 is Err,
    ensures
        eval_args(st, args, n, floats) == eval_args(st, args, k, floats),
    decreases n - k,
{
    if n > k {
        lemma_eval_args_err_stable(st, args, k, n - 1, floats);
    }
}

/// Whether some argument has another type than its parameter.
fn arguments_mismatch(params: &Vec<Types>, vals: &Vec<AbstractValue>) -> (r: bool)
    ensures
        r == types_differ(params@, values_view(vals@)),
{
    let mut i: usize = 0;
    while i < params.len() && i < vals.len()
        invariant
            i <= params@.len(),
            i <= vals@.len(),
            forall|j: int| 0 <= j < i ==> same_type(params@[j], #[trigger] values_view(vals@)[j].ty),
        decreases params@.len() - i,
    {
        if !(params[i] == vals[i]._type) {
            assert(!same_type(params@[i as int], values_view(vals@)[i as int].ty));
            return true;
        }
        i += 1;
    }
    false
}

impl Interpreter {
    /// The first entry for `name`, as `find_entry` gives it.
    fn lookup(&self, name: &str) -> (r: Option<usize>)
        ensures
            match r {
                Some(k) => find_entry(self@.vars, name@, 0) == Some(k as int) && k < self.vars@.len(),
                None => find_entry(self@.vars, name@, 0) is None,
            },
    {
        let mut i: usize = 0;
        while i < self.vars.len()
            invariant
                i <= self.vars@.len(),
                find_entry(self@.vars, name@, 0) == find_entry(self@.vars, name@, i as int),
            decreases self.vars@.len() - i,
        {
            if same_text(self.vars[i].0.as_str(), name) {
                return Some(i);
            }
            i += 1;
        }
        None
    }

    /// The first host function named `name`, as `find_function` gives it.
    fn find_system_function(&self, name: &str) -> (r: Option<usize>)
        ensures
            match r {
                Some(k) => find_function(self@.functions, name@, 0) == Some(k as int) && k
                    < self.system_functions@.len(),
                None => find_function(self@.functions, name@, 0) is None,
            },
    {
        let mut i: usize = 0;
        while i < self.system_functions.len()
            invariant
                i <= self.system_functions@.len(),
                find_function(self@.functions, name@, 0) == find_function(self@.functions, name@, i as int),
            decreases self.system_functions@.len() - i,
        {
            if same_text(self.system_functions[i].identifier.as_str(), name) {
                return Some(i);
            }
            i += 1;
        }
        None
    }

    /// Evaluates the arguments of a call in order, up to the first failure.
    #[verifier::loop_isolation(false)]
    fn execute_arguments<F: Fn(FloatRequest) -> u64>(
        &self,
        args: &Vec<Box<AbstractExpressionDescription>>,
        floats: &F,
        events: &mut Vec<InterpreterEvent>,
    ) -> (r: Result<Vec<AbstractValue>, InterpreterErrors>)
        requires
            float_unit_ok(*floats),
            state_wf(self@),
        ensures
            match eval_args(self@, args@, args@.len() as int, *floats).0 {
                Ok(vs) => r matches Ok(x) && values_view(x@) == vs,
                Err(e) => r matches Err(x) && x@ == e,
            },
            events_view(final(events)@) == events_view(old(events)@) + eval_args(self@, args@, args@.len() as int, *floats).1,
        decreases args, 0int,
    {
        let ghost st = self@;
        let ghost start = events_view(events@);
        let mut vals: Vec<AbstractValue> = Vec::new();
        assert(values_view(vals@) == Seq::<ValueView>::empty());
        assert(events_view(events@) == start + Seq::<EventView>::empty());
        let mut k: usize = 0;
        while k < args.len()
            invariant
                k <= args@.len(),
                eval_args(st, args@, k as int, *floats).0 == Ok::<Seq<ValueView>, ErrorView>(values_view(vals@)),
                events_view(events@) == start + eval_args(st, args@, k as int, *floats).1,
            decreases args@.len() - k,
        {
            let ghost before = events_view(events@);
            match self.execute_expression(&args[k], floats, events) {
                Ok(v) => {
                    assert(values_view(vals@.push(v)) == values_view(vals@).push(v@));
                    vals.push(v);
                    assert(events_view(events@) == start + (eval_args(st, args@, k as int, *floats).1 + events_view(events@).subrange(before.len() as int, events_view(events@).len() as int)));
                },
                Err(e) => {
                    proof {
                        assert(events_view(events@) == start + (eval_args(st, args@, k as int, *floats).1 + events_view(events@).subrange(before.len() as int, events_view(events@).len() as int)));
                        lemma_eval_args_err_stable(st, args@, k + 1, args@.len() as int, *floats);
                    }
                    return Err(e);
                },
            }
            k += 1;
        }
        Ok(vals)
    }

    /// Dispatches a call of `name` with evaluated arguments, as `call_result` says.
    fn call_system_function(
        &self,
        name: String,
        count: usize,
        vals: Vec<AbstractValue>,
        events: &mut Vec<InterpreterEvent>,
    ) -> (r: Result<AbstractValue, InterpreterErrors>)
        ensures
            outcome_matches(r, call_result(self@, name@, count as nat, values_view(vals@)).0),
            events_view(final(events)@) == events_view(old(events)@) + call_result(self@, name@, count as nat, values_view(vals@)).1,
    {
        let ghost st = self@;
        let ghost all = events_view(events@);
        assert(all + Seq::<EventView>::empty() == all);
        if !self.system_function_executor || !ends_with_marker(&name) {
            return Err(InterpreterErrors::Unimplemented);
        }
        let fk = match self.find_system_function(name.as_str()) {
            Some(fk) => fk,
            None => {
                return Err(InterpreterErrors::FunctionNotFound(name));
            },
        };
        let f = &self.system_functions[fk];
        assert(st.functions[fk as int] == f@);
        if f.parameters.len() != count {
            return Err(InterpreterErrors::ArgumentCountMismatch(name, f.parameters.len(), count));
        }
        if arguments_mismatch(&f.parameters, &vals) {
            return Err(InterpreterErrors::TypeMismatch(name));
        }
        let ghost host_name = name@;
        let ghost host_args = values_view(vals@);
        let event = InterpreterEvent::HostCall(name, vals);
        assert(event@ == EventView::HostCall(host_name, host_args));
        events.push(event);
        assert(events_view(events@) == all.push(EventView::HostCall(host_name, host_args)));
        Ok(AbstractValue::new(Box::new(Vec::new()), Types::Void))
    }

    /// `l op r`, as `binary_result` says.
    fn binary_operation<F: Fn(FloatRequest) -> u64>(
        l: &AbstractValue,
        r: &AbstractValue,
        op: BinaryOperations,
        floats: &F,
    ) -> (res: Result<AbstractValue, InterpreterErrors>)
        requires
            float_unit_ok(*floats),
        ensures
            outcome_matches(res, binary_result(l@, r@, op, *floats)),
    {
        if !l._type.supports(op) || !r._type.supports(op) {
            return Err(InterpreterErrors::Unimplemented);
        }
        match l._type {
            Types::Integer => {
                if l.memory.len() != 8 || r.memory.len() != 8 {
                    return Err(InterpreterErrors::Unimplemented);
                }
                let a = l.to_i64();
                let b = r.to_i64();
                let x = match op {
                    BinaryOperations::Add => match a.checked_add(b) {
                        Some(x) => x,
                        None => return Err(InterpreterErrors::Overflow),
                    },
                    BinaryOperations::Subtract => match a.checked_sub(b) {
                        Some(x) => x,
                        None => return Err(InterpreterErrors::Underflow),
                    },
                    BinaryOperations::Multiply => match a.checked_mul(b) {
                        Some(x) => x,
                        None => return Err(InterpreterErrors::Overflow),
                    },
                    BinaryOperations::Divide => {
                        if b == 0 {
                            return Err(InterpreterErrors::DivisionByZero);
                        }
                        match a.checked_div(b) {
                            Some(x) => x,
                            None => return Err(InterpreterErrors::Overflow),
                        }
                    },
                };
                Ok(AbstractValue::from_i64(x))
            },
            Types::UnsingedInteger => {
                if l.memory.len() != 8 || r.memory.len() != 8 {
                    return Err(InterpreterErrors::Unimplemented);
                }
                let a = l.to_u64();
                let b = r.to_u64();
                let x = match op {
                    BinaryOperations::Add => match a.checked_add(b) {
                        Some(x) => x,
                        None => return Err(InterpreterErrors::Overflow),
                    },
                    BinaryOperations::Subtract => match a.checked_sub(b) {
                        Some(x) => x,
                        None => return Err(InterpreterErrors::Underflow),
                    },
                    BinaryOperations::Multiply => match a.checked_mul(b) {
                        Some(x) => x,
                        None => return Err(InterpreterErrors::Overflow),
                    },
                    BinaryOperations::Divide => match a.checked_div(b) {
                        Some(x) => x,
                        None => return Err(InterpreterErrors::DivisionByZero),
                    },
                };
                Ok(AbstractValue::from_u64(x))
            },
            Types::Float => {
                if l.memory.len() != 8 || r.memory.len() != 8 {
                    return Err(InterpreterErrors::Unimplemented);
                }
                let q = FloatRequest::Apply(op, l.to_u64(), r.to_u64());
                let ghost gq = q;
                let bits = floats(q);
                proof {
                    lemma_float_answer(*floats, gq, bits);
                }
                Ok(AbstractValue::new(Box::new(u64_to_be(bits)), Types::Float))
            },
            Types::String => {
                let m = concat_bytes(&*l.memory, &*r.memory);
                Ok(AbstractValue::new(Box::new(m), Types::String))
            },
            _ => Err(InterpreterErrors::Unimplemented),
        }
    }
}

impl Interpreter {
    /// Evaluates `expr`, appending the host calls it makes to `events`.
    #[verifier::rlimit(40)]
    pub fn execute_expression<F: Fn(FloatRequest) -> u64>(
        &self,
        expr: &AbstractExpressionDescription,
        floats: &F,
        events: &mut Vec<InterpreterEvent>,
    ) -> (r: Result<AbstractValue, InterpreterErrors>)
        requires
            float_unit_ok(*floats),
            state_wf(self@),
        ensures
            outcome_matches(r, eval(self@, *expr, *floats).0),
            events_view(final(events)@) == events_view(old(events)@) + eval(self@, *expr, *floats).1,
        decreases expr, 0int,
    {
        let ghost st = self@;
        let ghost start = events_view(events@);
        match expr {
            AbstractExpressionDescription::Integer(v) => {
                assert(events_view(events@) == start + Seq::<EventView>::empty());
                Ok(v.duplicate())
            },
            AbstractExpressionDescription::UnsingedInteger(v) => {
                assert(events_view(events@) == start + Seq::<EventView>::empty());
                Ok(v.duplicate())
            },
            AbstractExpressionDescription::LiteralString(v) => {
                assert(events_view(events@) == start + Seq::<EventView>::empty());
                Ok(v.duplicate())
            },
            AbstractExpressionDescription::Float(t) => {
                assert(events_view(events@) == start + Seq::<EventView>::empty());
                let q = FloatRequest::Literal(t.clone());
                let ghost gq = q;
                let bits = floats(q);
                proof {
                    lemma_float_answer(*floats, gq, bits);
                }
                Ok(AbstractValue::new(Box::new(u64_to_be(bits)), Types::Float))
            },
            AbstractExpressionDescription::Symbol(n) => {
                assert(events_view(events@) == start + Seq::<EventView>::empty());
                match self.lookup(n.as_str()) {
                    Some(k) => {
                        assert(declarations_wf(st.vars[k as int].1));
                        assert(self.vars@[k as int].1@.len() > 0);
                        Ok(self.vars[k].1[0].value.duplicate())
                    },
                    None => Ok(AbstractValue::from_text(n.as_str())),
                }
            },
            AbstractExpressionDescription::Binary(l, r, op) => {
                let lv = match self.execute_expression(l, floats, events) {
                    Ok(v) => v,
                    Err(e) => return Err(e),
                };
                let ghost mid = events_view(events@);
                let rv = match self.execute_expression(r, floats, events) {
                    Ok(v) => v,
                    Err(e) => {
                        assert(events_view(events@) == start + (mid.subrange(start.len() as int, mid.len() as int) + (events_view(events@).subrange(mid.len() as int, events_view(events@).len() as int))));
                        return Err(e);
                    },
                };
                assert(events_view(events@) == start + (mid.subrange(start.len() as int, mid.len() as int) + (events_view(events@).subrange(mid.len() as int, events_view(events@).len() as int))));
                Interpreter::binary_operation(&lv, &rv, *op, floats)
            },
            AbstractExpressionDescription::FunctionCall(callee, count, args) => {
                let cv = match self.execute_expression(callee, floats, events) {
                    Ok(v) => v,
                    Err(e) => return Err(e),
                };
                let ghost after_callee = events_view(events@);
                let name = match utf8_text(&*cv.memory) {
                    Some(s) => s,
                    None => {
                        assert(events_view(events@) == after_callee);
                        return Err(InterpreterErrors::Unimplemented);
                    },
                };
                let vals = match self.execute_arguments(args, floats, events) {
                    Ok(vals) => vals,
                    Err(e) => {
                        assert(events_view(events@) == start + (after_callee.subrange(start.len() as int, after_callee.len() as int) + events_view(events@).subrange(after_callee.len() as int, events_view(events@).len() as int)));
                        return Err(e);
                    },
                };
                let ghost all = events_view(events@);
                assert(all == start + (after_callee.subrange(start.len() as int, after_callee.len() as int) + eval_args(st, args@, args@.len() as int, *floats).1));
                let r = self.call_system_function(name, *count, vals, events);
                assert(events_view(events@) == start + (after_callee.subrange(start.len() as int, after_callee.len() as int) + eval_args(st, args@, args@.len() as int, *floats).1 + events_view(events@).subrange(all.len() as int, events_view(events@).len() as int)));
                r
            },
            AbstractExpressionDescription::Unimplemented => {
                assert(events_view(events@) == start + Seq::<EventView>::empty());
                Err(InterpreterErrors::Unimplemented)
            },
        }
    }
}

/// Where a declaration at `depth` goes among `list`: after every entry at the
/// same depth or shallower, so the list stays in ascending order of depth
/// and declarations at one depth stay in the order they were made.
pub open spec fn insert_point(list: Seq<VariableView>, depth: nat, i: int) -> int
    decreases list.len() - i,
{
    if i < 0 {
        0
    } else if i >= list.len() || list[i].depth > depth {
        i
    } else {
        insert_point(list, depth, i + 1)
    }
}

/// Some declaration in `list` has a value identical to that of `v`, at any depth.
pub open spec fn has_identical(list: Seq<VariableView>, v: VariableView) -> bool {
    exists|j: int| 0 <= j < list.len() && same_value(#[trigger] list[j].value, v.value)
}

/// The variables after declaring `name` as `v`, or the error when `name`
/// already has a declaration with a value identical to that of `v`.
pub open spec fn declare_in(
    vars: Seq<(Seq<char>, Seq<VariableView>)>,
    name: Seq<char>,
    v: VariableView,
) -> Result<Seq<(Seq<char>, Seq<VariableView>)>, ErrorView> {
    match find_entry(vars, name, 0) {
        Some(k) => if has_identical(vars[k].1, v) {
            Err(ErrorView::VariableAlreadyExists(name))
        } else {
            let list = vars[k].1;
            let p = insert_point(list, v.depth, 0);
            Ok(vars.update(k, (name, list.take(p).push(v) + list.skip(p))))
        },
        None => Ok(vars.push((name, seq![v]))),
    }
}

pub open spec fn with_vars(st: InterpreterView, vars: Seq<(Seq<char>, Seq<VariableView>)>) -> InterpreterView {
    InterpreterView { vars, functions: st.functions, host: st.host, depth: st.depth }
}

pub open spec fn next_depth(st: InterpreterView) -> InterpreterView {
    InterpreterView {
        vars: st.vars,
        functions: st.functions,
        host: st.host,
        depth: if st.depth < usize::MAX { st.depth + 1 } else { st.depth },
    }
}

/// Running one statement: the state after it, whether it failed, and the
/// events it made (host calls, and the value of an expression statement).
pub open spec fn run_statement<F: Fn(FloatRequest) -> u64>(
    st: InterpreterView,
    d: AbstractStatementDescription,
    floats: F,
) -> (InterpreterView, Result<(), ErrorView>, Seq<EventView>)
    decreases d, 0int,
{
    match d {
        AbstractStatementDescription::Variable(name, _, init) => {
            let (r, ev) = eval(st, *init, floats);
            match r {
                Err(e) => (st, Err(e), ev),
                Ok(v) => match declare_in(st.vars, name@, VariableView { value: v, depth: st.depth }) {
                    Err(e) => (st, Err(e), ev),
                    Ok(vars) => (with_vars(st, vars), Ok(()), ev),
                },
            }
        },
        AbstractStatementDescription::Expression(e) => {
            let (r, ev) = eval(st, *e, floats);
            match r {
                Err(x) => (st, Err(x), ev),
                Ok(v) => (st, Ok(()), ev.push(EventView::Output(v))),
            }
        },
        AbstractStatementDescription::Block(stmts) => run_block(st, stmts@, stmts@.len() as int, floats),
    }
}

/// Running the first `k` statements of a block: each one deeper than the one
/// before, and the block fails with the first statement that fails.
pub open spec fn run_block<F: Fn(FloatRequest) -> u64>(
    st: InterpreterView,
    stmts: Seq<Box<AbstractStatementDescription>>,
    k: int,
    floats: F,
) -> (InterpreterView, Result<(), ErrorView>, Seq<EventView>)
    decreases stmts, k,
{
    if k <= 0 || k > stmts.len() {
        (st, Ok(()), seq![])
    } else {
        let (s1, r1, e1) = run_block(st, stmts, k - 1, floats);
        match r1 {
            Err(e) => (s1, Err(e), e1),
            Ok(_) => {
                let (s2, r2, e2) = run_statement(s1, *stmts[k - 1], floats);
                match r2 {
                    Err(e) => (s2, Err(e), e1 + e2),
                    Ok(_) => (next_depth(s2), Ok(()), e1 + e2),
                }
            },
        }
    }
}

/// Running the first `k` statements of a script: a statement that fails is
/// reported and the next one runs.
pub open spec fn run_script<F: Fn(FloatRequest) -> u64>(
    st: InterpreterView,
    stmts: Seq<Box<AbstractStatementDescription>>,
    k: int,
    floats: F,
) -> (InterpreterView, Seq<EventView>)
    decreases k,
{
    if k <= 0 || k > stmts.len() {
        (st, seq![])
    } else {
        let (s1, e1) = run_script(st, stmts, k - 1, floats);
        let (s2, r, e2) = run_statement(s1, *stmts[k - 1], floats);
        match r {
            Ok(_) => (s2, e1 + e2),
            Err(e) => (s2, e1 + e2.push(EventView::Error(e))),
        }
    }
}

/// The value of every declaration, name by name in the order the names were
/// first declared.
pub open spec fn dump(vars: Seq<(Seq<char>, Seq<VariableView>)>) -> Seq<EventView>
    decreases vars.len(),
{
    if vars.len() == 0 {
        seq![]
    } else {
        dump(vars.drop_last()) + vars.last().1.map_values(|v: VariableView| EventView::Output(v.value))
    }
}

/// A whole run: the statements of the script, then the values of all variables.
pub open spec fn run<F: Fn(FloatRequest) -> u64>(
    st: InterpreterView,
    stmts: Seq<Box<AbstractStatementDescription>>,
    floats: F,
) -> (InterpreterView, Seq<EventView>) {
    let (s, e) = run_script(st, stmts, stmts.len() as int, floats);
    (s, e + dump(s.vars))
}

proof fn lemma_insert_point(list: Seq<VariableView>, depth: nat, i: int)
    requires
        0 <= i <= list.len(),
        forall|j: int| 0 <= j < i ==> list[j].depth <= depth,
    ensures
        i <= insert_point(list, depth, i) <= list.len(),
        forall|j: int| 0 <= j < insert_point(list, depth, i) ==> list[j].depth <= depth,
        insert_point(list, depth, i) < list.len() ==> list[insert_point(list, depth, i)].depth > depth,
    decreases list.len() - i,
{
    if i < list.len() && list[i].depth <= depth {
        lemma_insert_point(list, depth, i + 1);
    }
}

proof fn lemma_find_entry(vars: Seq<(Seq<char>, Seq<VariableView>)>, name: Seq<char>, i: int)
    requires
        0 <= i,
    ensures
        find_entry(vars, name, i) matches Some(k) ==> i <= k < vars.len() && vars[k].0 == name,
    decreases vars.len() - i,
{
    if i < vars.len() && vars[i].0 != name {
        lemma_find_entry(vars, name, i + 1);
    }
}

proof fn lemma_find_entry_none(vars: Seq<(Seq<char>, Seq<VariableView>)>, name: Seq<char>, i: int)
    requires
        0 <= i,
        find_entry(vars, name, i) is None,
    ensures
        forall|m: int| i <= m < vars.len() ==> vars[m].0 != name,
    decreases vars.len() - i,
{
    if i < vars.len() {
        lemma_find_entry_none(vars, name, i + 1);
    }
}

/// Declaring keeps every name's declarations well formed.
proof fn lemma_declare_wf(st: InterpreterView, name: Seq<char>, v: VariableView)
    requires
        state_wf(st),
    ensures
        declare_in(st.vars, name, v) matches Ok(vars) ==> state_wf(with_vars(st, vars)),
{
    lemma_find_entry(st.vars, name, 0);
    match find_entry(st.vars, name, 0) {
        Some(k) => {
            if !has_identical(st.vars[k].1, v) {
                let list = st.vars[k].1;
                assert(declarations_wf(list));
                lemma_insert_point(list, v.depth, 0);
                let p = insert_point(list, v.depth, 0);
                let nl = list.take(p).push(v) + list.skip(p);
                assert(nl.len() == list.len() + 1);
                assert forall|i: int| 0 <= i < nl.len() implies nl[i] == (if i < p { list[i] } else if i == p { v } else { list[i - 1] }) by {}
                assert forall|i: int, j: int| 0 <= i < j < nl.len() implies nl[i].depth <= nl[j].depth by {
                    if j > p && i < p {
                        assert(list[i].depth <= list[j - 1].depth);
                    }
                    if i > p {
                        assert(list[i - 1].depth <= list[j - 1].depth);
                    }
                    if i == p && p < list.len() {
                        assert(list[p].depth <= list[j - 1].depth);
                    }
                }
                assert forall|i: int, j: int|
                    0 <= i < nl.len() && 0 <= j < nl.len() && i != j implies !same_value(nl[i].value, nl[j].value) by {
                    if i == p {
                        let jj = if j < p { j } else { j - 1 };
                        assert(nl[j] == list[jj]);
                    } else if j == p {
                        let ii = if i < p { i } else { i - 1 };
                        assert(nl[i] == list[ii]);
                    }
                }
                let vars = st.vars.update(k, (name, nl));
                assert forall|m: int| 0 <= m < vars.len() implies declarations_wf(#[trigger] vars[m].1) by {
                    if m != k {
                        assert(vars[m] == st.vars[m]);
                    }
                }
                assert forall|i: int, j: int|
                    0 <= i < vars.len() && 0 <= j < vars.len() && i != j implies #[trigger] vars[i].0
                        != #[trigger] vars[j].0 by {
                    assert(vars[i].0 == st.vars[i].0);
                    assert(vars[j].0 == st.vars[j].0);
                }
            }
        },
        None => {
            let vars = st.vars.push((name, seq![v]));
            assert forall|m: int| 0 <= m < vars.len() implies declarations_wf(#[trigger] vars[m].1) by {
                if m < st.vars.len() {
                    assert(vars[m] == st.vars[m]);
                }
            }
            lemma_find_entry_none(st.vars, name, 0);
            assert forall|i: int, j: int|
                0 <= i < vars.len() && 0 <= j < vars.len() && i != j implies #[trigger] vars[i].0
                    != #[trigger] vars[j].0 by {
                if i < st.vars.len() {
                    assert(vars[i] == st.vars[i]);
                }
                if j < st.vars.len() {
                    assert(vars[j] == st.vars[j]);
                }
            }
        },
    }
}

proof fn lemma_run_block_err_stable<F: Fn(FloatRequest) -> u64>(
    st: InterpreterView,
    stmts: Seq<Box<AbstractStatementDescription>>,
    k: int,
    n: int,
    floats: F,
)
    requires
        0 <= k <= n <= stmts.len(),
        run_block(st, stmts, k, floats).1 is Err,
    ensures
        run_block(st, stmts, n, floats) == run_block(st, stmts, k, floats),
    decreases n - k,
{
    if n > k {
        lemma_run_block_err_stable(st, stmts, k, n - 1, floats);
    }
}

impl Interpreter {
    /// Declares `name` as `value` at the current depth, as `declare_in` says.
    #[verifier::loop_isolation(false)]
    fn declare(&mut self, name: &String, value: AbstractValue) -> (r: Result<(), InterpreterErrors>)
        requires
            state_wf(old(self)@),
        ensures
            state_wf(final(self)@),
            match declare_in(
                old(self)@.vars,
                name@,
                VariableView { value: value@, depth: old(self).current_depth as nat },
            ) {
                Ok(vars) => r is Ok && final(self)@ == with_vars(old(self)@, vars),
                Err(e) => r matches Err(x) && x@ == e && final(self)@ == old(self)@,
            },
    {
        let ghost st = self@;
        let ghost vv = VariableView { value: value@, depth: self.current_depth as nat };
        proof {
            lemma_declare_wf(st, name@, vv);
            lemma_find_entry(st.vars, name@, 0);
        }
        let var = Variable { value, depth: self.current_depth };
        assert(var@ == vv);
        match self.lookup(name.as_str()) {
            Some(k) => {
                let ghost list = st.vars[k as int].1;
                {
                    let entries = &self.vars[k].1;
                    assert(variables_view(entries@) == list);
                    let mut j: usize = 0;
                    while j < entries.len()
                        invariant
                            j <= entries@.len(),
                            var@ == vv,
                            variables_view(entries@) == list,
                            forall|i: int| 0 <= i < j ==> !same_value(#[trigger] list[i].value, vv.value),
                        decreases entries@.len() - j,
                    {
                        assert(list[j as int] == entries@[j as int]@);
                        if entries[j].value.same_as(&var.value) {
                            assert(same_value(list[j as int].value, vv.value));
                            return Err(InterpreterErrors::VariableAlreadyExists(name.clone()));
                        }
                        j += 1;
                    }
                }
                let mut p: usize = 0;
                while p < self.vars[k].1.len() && self.vars[k].1[p].depth <= var.depth
                    invariant
                        self@ == st,
                        k < self.vars@.len(),
                        variables_view(self.vars@[k as int].1@) == list,
                        var@ == vv,
                        p <= list.len(),
                        insert_point(list, vv.depth, 0) == insert_point(list, vv.depth, p as int),
                    decreases list.len() - p,
                {
                    assert(list[p as int] == self.vars@[k as int].1@[p as int]@);
                    p += 1;
                }
                let mut entry = self.vars.remove(k);
                entry.1.insert(p, var);
                let ghost new_list = variables_view(entry.1@);
                assert(new_list == list.take(p as int).push(vv) + list.skip(p as int));
                self.vars.insert(k, entry);
                assert(self@.vars == st.vars.update(k as int, (name@, new_list)));
                Ok(())
            },
            None => {
                let mut entries: Vec<Variable> = Vec::new();
                entries.push(var);
                assert(variables_view(entries@) == seq![vv]);
                self.vars.push((name.clone(), entries));
                assert(self@.vars == st.vars.push((name@, seq![vv])));
                Ok(())
            },
        }
    }
}

/// `r` is the exec form of the outcome `m` of a statement.
pub open spec fn statement_outcome_matches(
    r: Result<Option<AbstractValue>, InterpreterErrors>,
    m: Result<(), ErrorView>,
) -> bool {
    match m {
        Ok(_) => r matches Ok(v) && v is None,
        Err(e) => r matches Err(x) && x@ == e,
    }
}

impl Interpreter {
    /// Runs one statement, as `run_statement` says.
    #[verifier::loop_isolation(false)]
    pub fn execute_statement<F: Fn(FloatRequest) -> u64>(
        &mut self,
        description: &AbstractStatementDescription,
        floats: &F,
        events: &mut Vec<InterpreterEvent>,
    ) -> (r: Result<Option<AbstractValue>, InterpreterErrors>)
        requires
            float_unit_ok(*floats),
            state_wf(old(self)@),
        ensures
            state_wf(final(self)@),
            final(self)@ == run_statement(old(self)@, *description, *floats).0,
            statement_outcome_matches(r, run_statement(old(self)@, *description, *floats).1),
            events_view(final(events)@) == events_view(old(events)@) + run_statement(
                old(self)@,
                *description,
                *floats,
            ).2,
        decreases description, 0int,
    {
        let ghost st = self@;
        let ghost start = events_view(events@);
        match description {
            AbstractStatementDescription::Variable(name, _size, value) => {
                let v = match self.execute_expression(value, floats, events) {
                    Ok(v) => v,
                    Err(e) => return Err(e),
                };
                match self.declare(name, v) {
                    Ok(()) => Ok(None),
                    Err(e) => Err(e),
                }
            },
            AbstractStatementDescription::Block(statements) => {
                match self.execute_block(statements, floats, events) {
                    Ok(()) => Ok(None),
                    Err(e) => Err(e),
                }
            },
            AbstractStatementDescription::Expression(expr) => {
                let v = match self.execute_expression(expr, floats, events) {
                    Ok(v) => v,
                    Err(e) => return Err(e),
                };
                let ghost mid = events_view(events@);
                let ghost out = v@;
                events.push(InterpreterEvent::Output(v));
                assert(events_view(events@) == mid.push(EventView::Output(out)));
                assert(events_view(events@) == start + eval(st, **expr, *floats).1.push(EventView::Output(out)));
                Ok(None)
            },
        }
    }

    /// Runs the statements of a block in order, each one deeper than the one
    /// before, up to the first that fails.
    #[verifier::loop_isolation(false)]
    fn execute_block<F: Fn(FloatRequest) -> u64>(
        &mut self,
        statements: &Vec<Box<AbstractStatementDescription>>,
        floats: &F,
        events: &mut Vec<InterpreterEvent>,
    ) -> (r: Result<(), InterpreterErrors>)
        requires
            float_unit_ok(*floats),
            state_wf(old(self)@),
        ensures
            state_wf(final(self)@),
            final(self)@ == run_block(old(self)@, statements@, statements@.len() as int, *floats).0,
            match run_block(old(self)@, statements@, statements@.len() as int, *floats).1 {
                Ok(_) => r is Ok,
                Err(e) => r matches Err(x) && x@ == e,
            },
            events_view(final(events)@) == events_view(old(events)@) + run_block(
                old(self)@,
                statements@,
                statements@.len() as int,
                *floats,
            ).2,
        decreases statements, 0int,
    {
        let ghost st = self@;
        let ghost start = events_view(events@);
        assert(events_view(events@) == start + Seq::<EventView>::empty());
        let mut k: usize = 0;
        while k < statements.len()
            invariant
                k <= statements@.len(),
                state_wf(self@),
                self@ == run_block(st, statements@, k as int, *floats).0,
                run_block(st, statements@, k as int, *floats).1 is Ok,
                events_view(events@) == start + run_block(st, statements@, k as int, *floats).2,
            decreases statements@.len() - k,
        {
            let ghost before = events_view(events@);
            let res = self.execute_statement(&statements[k], floats, events);
            assert(events_view(events@) == start + (run_block(st, statements@, k as int, *floats).2
                + events_view(events@).subrange(before.len() as int, events_view(events@).len() as int)));
            match res {
                Ok(_) => {},
                Err(e) => {
                    proof {
                        lemma_run_block_err_stable(st, statements@, k + 1, statements@.len() as int, *floats);
                    }
                    return Err(e);
                },
            }
            if self.current_depth < usize::MAX {
                self.current_depth = self.current_depth + 1;
            }
            k += 1;
        }
        Ok(())
    }

    /// Runs a script: each statement in order, reporting each failure and
    /// going on with the next statement; then reports the value of every
    /// declaration, as `run` says.
    #[verifier::loop_isolation(false)]
    pub fn execute_descriptions<F: Fn(FloatRequest) -> u64>(
        &mut self,
        statements: &Vec<Box<AbstractStatementDescription>>,
        floats: &F,
    ) -> (r: Vec<InterpreterEvent>)
        requires
            float_unit_ok(*floats),
            state_wf(old(self)@),
        ensures
            state_wf(final(self)@),
            final(self)@ == run(old(self)@, statements@, *floats).0,
            events_view(r@) == run(old(self)@, statements@, *floats).1,
    {
        let ghost st = self@;
        let mut events: Vec<InterpreterEvent> = Vec::new();
        assert(events_view(events@) == Seq::<EventView>::empty());
        let mut k: usize = 0;
        while k < statements.len()
            invariant
                k <= statements@.len(),
                state_wf(self@),
                self@ == run_script(st, statements@, k as int, *floats).0,
                events_view(events@) == run_script(st, statements@, k as int, *floats).1,
            decreases statements@.len() - k,
        {
            let ghost before = events_view(events@);
            let res = self.execute_statement(&statements[k], floats, &mut events);
            match res {
                Ok(_) => {},
                Err(e) => {
                    let ghost mid = events_view(events@);
                    let ghost ev = e@;
                    events.push(InterpreterEvent::Error(e));
                    assert(events_view(events@) == mid.push(EventView::Error(ev)));
                    assert(events_view(events@) == before + events_view(events@).subrange(before.len() as int, mid.len() as int).push(EventView::Error(ev)));
                },
            }
            k += 1;
        }
        let ghost scripted = events_view(events@);
        self.dump_variables(&mut events);
        events
    }

    /// Appends the value of every declaration, as `dump` says.
    #[verifier::loop_isolation(false)]
    fn dump_variables(&self, events: &mut Vec<InterpreterEvent>)
        ensures
            events_view(final(events)@) == events_view(old(events)@) + dump(self@.vars),
    {
        let ghost start = events_view(events@);
        let mut k: usize = 0;
        assert(self@.vars.take(0) == Seq::<(Seq<char>, Seq<VariableView>)>::empty());
        assert(events_view(events@) == start + dump(self@.vars.take(0)));
        while k < self.vars.len()
            invariant
                k <= self.vars@.len(),
                events_view(events@) == start + dump(self@.vars.take(k as int)),
            decreases self.vars@.len() - k,
        {
            let entries = &self.vars[k].1;
            let ghost list = self@.vars[k as int].1;
            assert(list == variables_view(entries@));
            let ghost base = events_view(events@);
            let mut j: usize = 0;
            while j < entries.len()
                invariant
                    j <= entries@.len(),
                    list == variables_view(entries@),
                    events_view(events@) == base + list.take(j as int).map_values(|v: VariableView| EventView::Output(v.value)),
                decreases entries@.len() - j,
            {
                let v = entries[j].value.duplicate();
                let ghost out = v@;
                assert(list[j as int] == entries@[j as int]@);
                let ghost prev = events_view(events@);
                events.push(InterpreterEvent::Output(v));
                assert(events_view(events@) == prev.push(EventView::Output(out)));
                assert(list.take(j + 1).map_values(|v: VariableView| EventView::Output(v.value))
                    == list.take(j as int).map_values(|v: VariableView| EventView::Output(v.value)).push(EventView::Output(out)));
                j += 1;
            }
            assert(list.take(j as int) == list);
            assert(self@.vars.take(k + 1).drop_last() == self@.vars.take(k as int));
            k += 1;
        }
        assert(self@.vars.take(k as int) == self@.vars);
    }
}

/// The name of the host function that every interpreter knows.
pub open spec fn debug_reply_name() -> Seq<char> {
    seq!['d', 'e', 'b', 'u', 'g', '_', 'r', 'e', 'p', 'l', 'y', '!']
}

impl Interpreter {
    /// An interpreter with no variables, at depth zero, that knows the host
    /// function `debug_reply!` taking one string, and does not yet carry out
    /// host calls.
    pub fn new() -> (r: Interpreter)
        ensures
            r@.vars.len() == 0,
            r@.functions.len() == 1,
            r@.functions[0].identifier == debug_reply_name(),
            r@.functions[0].parameters == seq![Types::String],
            r.system_functions@[0].return_value is None,
            !r@.host,
            r@.depth == 0,
            state_wf(r@),
    {
        let mut parameters: Vec<Types> = Vec::new();
        parameters.push(Types::String);
        let mut system_functions: Vec<Function> = Vec::new();
        let identifier = String::from_str("debug_reply!");
        proof {
            reveal_strlit("debug_reply!");
        }
        system_functions.push(Function { identifier, parameters, return_value: None });
        let r = Interpreter { vars: Vec::new(), system_functions, system_function_executor: false, current_depth: 0 };
        assert(r@.functions[0].parameters == seq![Types::String]);
        r
    }

    /// Runs a parsed script: lowers each statement to its description and
    /// runs the descriptions, as `run` says.
    pub fn execute<F: Fn(FloatRequest) -> u64>(&mut self, ast: BlockStatement, floats: &F) -> (r: Vec<InterpreterEvent>)
        requires
            float_unit_ok(*floats),
            state_wf(old(self)@),
            forall|k: int| 0 <= k < ast.body@.len() ==> statement_literals_in_range(*#[trigger] ast.body@[k]),
        ensures
            state_wf(final(self)@),
            exists|ds: Seq<Box<AbstractStatementDescription>>| {
                &&& ds.len() == ast.body@.len()
                &&& forall|k: int| 0 <= k < ds.len() ==> statement_lowers_to(*#[trigger] ast.body@[k], *ds[k])
                &&& final(self)@ == run(old(self)@, ds, *floats).0
                &&& events_view(r@) == run(old(self)@, ds, *floats).1
            },
    {
        let d = ast.get_descriptions();
        self.execute_descriptions(&d, floats)
    }
}

/// Dividing any integer by the integer zero fails with a division-by-zero
/// error.
pub proof fn lemma_division_by_zero<F: Fn(FloatRequest) -> u64>(a: i64, floats: F)
    ensures
        binary_result(integer_view(a), integer_view(0), BinaryOperations::Divide, floats)
            == Err::<ValueView, ErrorView>(ErrorView::DivisionByZero),
{
    lemma_i64_be_round_trip(0);
    assert(i64_be_bytes(a).len() == 8);
}

/// Adding two strings gives the string of both texts in order; subtracting
/// them is not supported.
pub proof fn lemma_string_concatenation<F: Fn(FloatRequest) -> u64>(
    a: Seq<char>,
    b: Seq<char>,
    floats: F,
)
    ensures
        binary_result(string_view(a), string_view(b), BinaryOperations::Add, floats)
            == Ok::<ValueView, ErrorView>(string_view(a + b)),
        binary_result(string_view(a), string_view(b), BinaryOperations::Subtract, floats)
            == Err::<ValueView, ErrorView>(ErrorView::Unimplemented),
{
    lemma_encode_concat(a, b);
}

proof fn lemma_find_entry_pushed(
    vars: Seq<(Seq<char>, Seq<VariableView>)>,
    name: Seq<char>,
    list: Seq<VariableView>,
    i: int,
)
    requires
        0 <= i <= vars.len(),
        find_entry(vars, name, i) is None,
    ensures
        find_entry(vars.push((name, list)), name, i) == Some(vars.len() as int),
    decreases vars.len() - i,
{
    if i < vars.len() {
        assert(vars.push((name, list))[i] == vars[i]);
        lemma_find_entry_pushed(vars, name, list, i + 1);
    }
}

/// Declaring a new name, then the same value again, fails with
/// `VariableAlreadyExists` at the same depth and at any greater one;
/// declaring another value at a greater depth keeps both declarations, in
/// ascending order of depth.
pub proof fn lemma_redeclaration(
    vars: Seq<(Seq<char>, Seq<VariableView>)>,
    name: Seq<char>,
    first: VariableView,
    second: VariableView,
)
    requires
        find_entry(vars, name, 0) is None,
        first.depth < second.depth,
        !same_value(first.value, second.value),
    ensures
        declare_in(vars, name, first) == Ok::<_, ErrorView>(vars.push((name, seq![first]))),
        declare_in(vars.push((name, seq![first])), name, first) == Err::<Seq<(Seq<char>, Seq<VariableView>)>, _>(
            ErrorView::VariableAlreadyExists(name),
        ),
        declare_in(
            vars.push((name, seq![first])),
            name,
            VariableView { value: first.value, depth: second.depth },
        ) == Err::<Seq<(Seq<char>, Seq<VariableView>)>, _>(ErrorView::VariableAlreadyExists(name)),
        declare_in(vars.push((name, seq![first])), name, second) == Ok::<_, ErrorView>(
            vars.push((name, seq![first, second])),
        ),
{
    let one = vars.push((name, seq![first]));
    lemma_find_entry_pushed(vars, name, seq![first], 0);
    let k = vars.len() as int;
    assert(one[k].1 == seq![first]);
    assert(same_value(seq![first][0].value, first.value));
    assert(has_identical(one[k].1, first));
    assert(has_identical(one[k].1, VariableView { value: first.value, depth: second.depth }));
    assert(!has_identical(one[k].1, second));
    assert(insert_point(seq![first], second.depth, 1) == 1);
    assert(insert_point(seq![first], second.depth, 0) == 1);
    assert(seq![first].take(1).push(second) + seq![first].skip(1) == seq![first, second]);
    assert(one.update(k, (name, seq![first, second])) == vars.push((name, seq![first, second])));
}

/// A call of a name that ends in `!`, with host calls carried out: a name that
/// is not registered fails with `FunctionNotFound`; a registered one with
/// another number of arguments fails with `ArgumentCountMismatch`, and with an
/// argument of another type with `TypeMismatch`; a call that matches yields
/// the void value and hands the call to the host exactly once.
pub proof fn lemma_host_call_contract(
    st: InterpreterView,
    name: Seq<char>,
    count: nat,
    args: Seq<ValueView>,
)
    requires
        st.host,
        name.len() > 0,
        name.last() == '!',
    ensures
        find_function(st.functions, name, 0) is None ==> call_result(st, name, count, args) == (
            Err::<ValueView, ErrorView>(ErrorView::FunctionNotFound(name)),
            Seq::<EventView>::empty(),
        ),
        find_function(st.functions, name, 0) matches Some(k) ==> {
            let f = st.functions[k];
            &&& f.parameters.len() != count ==> call_result(st, name, count, args) == (
                Err::<ValueView, ErrorView>(
                    ErrorView::ArgumentCountMismatch(name, f.parameters.len(), count),
                ),
                Seq::<EventView>::empty(),
            )
            &&& f.parameters.len() == count && types_differ(f.parameters, args) ==> call_result(
                st,
                name,
                count,
                args,
            ) == (
                Err::<ValueView, ErrorView>(ErrorView::TypeMismatch(name)),
                Seq::<EventView>::empty(),
            )
            &&& f.parameters.len() == count && !types_differ(f.parameters, args) ==> call_result(
                st,
                name,
                count,
                args,
            ) == (Ok::<ValueView, ErrorView>(void_view()), seq![EventView::HostCall(name, args)])
        },
{
}

/// In a script whose first statement fails and whose second succeeds, both
/// without host calls, the failure is reported, then the value of the second.
pub proof fn lemma_statement_isolation<F: Fn(FloatRequest) -> u64>(
    st: InterpreterView,
    first: AbstractExpressionDescription,
    second: AbstractExpressionDescription,
    floats: F,
)
    requires
        eval(st, first, floats).0 is Err,
        eval(st, first, floats).1 == Seq::<EventView>::empty(),
        eval(st, second, floats).0 is Ok,
        eval(st, second, floats).1 == Seq::<EventView>::empty(),
    ensures
        ({
            let stmts = seq![
                Box::new(AbstractStatementDescription::Expression(Box::new(first))),
                Box::new(AbstractStatementDescription::Expression(Box::new(second))),
            ];
            &&& run_script(st, stmts, 2, floats) == (
                st,
                seq![
                    EventView::Error(eval(st, first, floats).0->Err_0),
                    EventView::Output(eval(st, second, floats).0->Ok_0),
                ],
            )
            &&& st.vars.len() == 0 ==> run(st, stmts, floats).1 == run_script(st, stmts, 2, floats).1
        }),
{
    let stmts = seq![
        Box::new(AbstractStatementDescription::Expression(Box::new(first))),
        Box::new(AbstractStatementDescription::Expression(Box::new(second))),
    ];
    let e = eval(st, first, floats).0->Err_0;
    let v = eval(st, second, floats).0->Ok_0;
    assert(run_script(st, stmts, 0, floats) == (st, Seq::<EventView>::empty()));
    assert(run_statement(st, *stmts[0], floats) == (st, Err::<(), ErrorView>(e), Seq::<EventView>::empty()));
    assert(run_script(st, stmts, 1, floats).1 == seq![EventView::Error(e)]);
    assert(run_statement(st, *stmts[1], floats) == (st, Ok::<(), ErrorView>(()), seq![EventView::Output(v)]));
    assert(run_script(st, stmts, 2, floats).1 == seq![EventView::Error(e), EventView::Output(v)]);
    if st.vars.len() == 0 {
        assert(dump(st.vars) == Seq::<EventView>::empty());
        assert(run_script(st, stmts, 2, floats).1 + Seq::<EventView>::empty() == run_script(st, stmts, 2, floats).1);
    }
}

/// A failing statement does not stop the script: whatever the first of two
/// statements does, the second runs from the state the first left, and each
/// failure is reported right after the events of its statement.
pub proof fn lemma_script_goes_on<F: Fn(FloatRequest) -> u64>(
    st: InterpreterView,
    first: AbstractStatementDescription,
    second: AbstractStatementDescription,
    floats: F,
)
    ensures
        ({
            let stmts = seq![Box::new(first), Box::new(second)];
            let (s1, r1, e1) = run_statement(st, first, floats);
            let (s2, r2, e2) = run_statement(s1, second, floats);
            let reported1 = match r1 {
                Ok(_) => e1,
                Err(e) => e1.push(EventView::Error(e)),
            };
            let reported2 = match r2 {
                Ok(_) => e2,
                Err(e) => e2.push(EventView::Error(e)),
            };
            run_script(st, stmts, 2, floats) == (s2, reported1 + reported2)
        }),
{
    let stmts = seq![Box::new(first), Box::new(second)];
    let (s1, r1, e1) = run_statement(st, first, floats);
    assert(run_script(st, stmts, 0, floats) == (st, Seq::<EventView>::empty()));
    assert(*stmts[0] == first);
    assert(*stmts[1] == second);
    let reported1 = match r1 {
        Ok(_) => e1,
        Err(e) => e1.push(EventView::Error(e)),
    };
    assert(Seq::<EventView>::empty() + e1 == e1);
    assert(Seq::<EventView>::empty() + e1.push(EventView::Error(r1->Err_0)) == e1.push(EventView::Error(r1->Err_0)));
    assert(run_script(st, stmts, 1, floats) == (s1, reported1));
    let (s2, r2, e2) = run_statement(s1, second, floats);
    match r2 {
        Ok(_) => {},
        Err(e) => {
            assert(reported1 + e2.push(EventView::Error(e)) == (reported1 + e2).push(EventView::Error(e)));
        },
    }
}

} // verus!

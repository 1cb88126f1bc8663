use discord_script::ast::{
    AbstractExpressionDescription, AbstractStatementDescription, AbstractValue, BinaryOperations,
    BlockStatement, Expression, Statement, Types,
};
use discord_script::interpreter::{
    Function, FloatRequest, Interpreter, InterpreterErrors, InterpreterEvent,
};
use discord_script::parser::{Parser, ParserErrors};
use discord_script::token::{Token, TokenKind};
use discord_script::tokenizer::Lexer;

fn float_unit(q: FloatRequest) -> u64 {
    match q {
        FloatRequest::Literal(text) => text.parse::<f64>().unwrap().to_bits(),
        FloatRequest::Apply(op, a, b) => {
            let (a, b) = (f64::from_bits(a), f64::from_bits(b));
            let r = match op {
                BinaryOperations::Add => a + b,
                BinaryOperations::Subtract => a - b,
                BinaryOperations::Divide => a / b,
                BinaryOperations::Multiply => a * b,
            };
            r.to_bits()
        }
    }
}

fn parse(source: &str) -> BlockStatement {
    *Parser::parse(Lexer::tokenize(source.to_string()).unwrap()).unwrap()
}

fn run_with(interp: &mut Interpreter, source: &str) -> Vec<InterpreterEvent> {
    interp.execute(parse(source), &float_unit)
}

fn run(source: &str) -> Vec<InterpreterEvent> {
    let mut interp = Interpreter::new();
    run_with(&mut interp, source)
}

fn host(source: &str) -> Vec<InterpreterEvent> {
    let mut interp = Interpreter::new();
    interp.system_function_executor = true;
    run_with(&mut interp, source)
}

fn integer(v: &InterpreterEvent) -> i64 {
    match v {
        InterpreterEvent::Output(value) => {
            assert!(value._type == Types::Integer);
            i64::from_be_bytes(value.memory.as_slice().try_into().unwrap())
        }
        other => panic!("not an output: {:?}", other),
    }
}

fn text(v: &InterpreterEvent) -> String {
    match v {
        InterpreterEvent::Output(value) => {
            assert!(value._type == Types::String);
            String::from_utf8(*value.memory.clone()).unwrap()
        }
        other => panic!("not an output: {:?}", other),
    }
}

fn error(v: &InterpreterEvent) -> &InterpreterErrors {
    match v {
        InterpreterEvent::Error(e) => e,
        other => panic!("not an error: {:?}", other),
    }
}

#[test]
fn multiplication_binds_tighter_than_addition() {
    let block = parse("1 + 2 * 3;");
    assert_eq!(block.body.len(), 1);
    let expr = match &*block.body[0] {
        Statement::Expression(s) => &s.expression,
        other => panic!("{:?}", other),
    };
    match &**expr {
        Expression::Binary(b) => {
            assert_eq!(b.operator.kind, TokenKind::Plus);
            assert!(matches!(&*b.left, Expression::Integer(i) if i.value == 1));
            match &*b.right {
                Expression::Binary(r) => {
                    assert_eq!(r.operator.kind, TokenKind::Star);
                    assert!(matches!(&*r.left, Expression::Integer(i) if i.value == 2));
                    assert!(matches!(&*r.right, Expression::Integer(i) if i.value == 3));
                }
                other => panic!("{:?}", other),
            }
        }
        other => panic!("{:?}", other),
    }
    let events = run("1 + 2 * 3;");
    assert_eq!(events.len(), 1);
    assert_eq!(integer(&events[0]), 7);
}

#[test]
fn equal_powers_associate_left() {
    let events = run("10 - 3 - 2;");
    assert_eq!(integer(&events[0]), 5);
    let events = run("12 / 2 * 3;");
    assert_eq!(integer(&events[0]), 18);
}

#[test]
fn large_literal_becomes_unsigned() {
    let block = parse("9223372036854775808;");
    let expr = match &*block.body[0] {
        Statement::Expression(s) => &s.expression,
        other => panic!("{:?}", other),
    };
    assert!(matches!(&**expr, Expression::Integer(i) if i.value == 9223372036854775808));
    match expr.get_description() {
        AbstractExpressionDescription::UnsingedInteger(v) => {
            assert!(v._type == Types::UnsingedInteger);
            assert_eq!(*v.memory, 9223372036854775808u64.to_be_bytes().to_vec());
        }
        other => panic!("{:?}", other),
    }
    let small = parse("9223372036854775807;");
    match &*small.body[0] {
        Statement::Expression(s) => {
            assert!(matches!(s.expression.get_description(), AbstractExpressionDescription::Integer(_)))
        }
        other => panic!("{:?}", other),
    }
}

#[test]
fn literal_too_large_for_integers_is_a_float() {
    let block = parse("18446744073709551616;");
    match &*block.body[0] {
        Statement::Expression(s) => assert!(matches!(&*s.expression, Expression::Float(_))),
        other => panic!("{:?}", other),
    }
}

#[test]
fn integer_division_by_zero_is_reported_and_run_goes_on() {
    let events = run("10 / 0; 4;");
    assert_eq!(events.len(), 2);
    assert!(matches!(error(&events[0]), InterpreterErrors::DivisionByZero));
    assert_eq!(integer(&events[1]), 4);
}

#[test]
fn integer_overflow_and_unsigned_underflow() {
    let events = run("9223372036854775807 + 1; 9223372036854775807 * 2; 9223372036854775808 - 9223372036854775809;");
    assert_eq!(events.len(), 3);
    assert!(matches!(error(&events[0]), InterpreterErrors::Overflow));
    assert!(matches!(error(&events[1]), InterpreterErrors::Overflow));
    assert!(matches!(error(&events[2]), InterpreterErrors::Underflow));
}

#[test]
fn unsigned_arithmetic_keeps_its_type() {
    let events = run("9223372036854775808 + 1;");
    match &events[0] {
        InterpreterEvent::Output(v) => {
            assert!(v._type == Types::UnsingedInteger);
            assert_eq!(*v.memory, 9223372036854775809u64.to_be_bytes().to_vec());
        }
        other => panic!("{:?}", other),
    }
}

#[test]
fn strings_concatenate() {
    let events = run("\"a\" + \"b\";");
    assert_eq!(events.len(), 1);
    assert_eq!(text(&events[0]), "ab");
}

#[test]
fn strings_do_not_subtract() {
    let events = run("\"a\" - \"b\";");
    assert_eq!(events.len(), 1);
    assert!(matches!(error(&events[0]), InterpreterErrors::Unimplemented));
}

#[test]
fn floats_go_through_the_host_unit() {
    let events = run("1.5 + 2.25;");
    match &events[0] {
        InterpreterEvent::Output(v) => {
            assert!(v._type == Types::Float);
            assert_eq!(*v.memory, 3.75f64.to_be_bytes().to_vec());
        }
        other => panic!("{:?}", other),
    }
}

#[test]
fn unknown_name_is_its_own_text() {
    let events = run("hello;");
    assert_eq!(text(&events[0]), "hello");
}

#[test]
fn variables_and_end_of_run_dump() {
    let events = run("let x = 5; x + 1; const y: Int = \"s\";");
    assert_eq!(events.len(), 3);
    assert_eq!(integer(&events[0]), 6);
    assert_eq!(integer(&events[1]), 5);
    assert_eq!(text(&events[2]), "s");
}

#[test]
fn identical_redeclaration_fails() {
    let events = run("let x = 1; let x = 1;");
    assert_eq!(events.len(), 2);
    match error(&events[0]) {
        InterpreterErrors::VariableAlreadyExists(name) => assert_eq!(name, "x"),
        other => panic!("{:?}", other),
    }
    assert_eq!(integer(&events[1]), 1);
}

#[test]
fn redeclaration_at_greater_depth_keeps_both() {
    let mut interp = Interpreter::new();
    let statements = vec![
        Box::new(AbstractStatementDescription::Variable(
            "x".to_string(),
            8,
            Box::new(AbstractExpressionDescription::Integer(AbstractValue::from_i64(1))),
        )),
        Box::new(AbstractStatementDescription::Variable(
            "x".to_string(),
            8,
            Box::new(AbstractExpressionDescription::Integer(AbstractValue::from_i64(2))),
        )),
    ];
    let block = AbstractStatementDescription::Block(statements);
    let mut events = Vec::new();
    let r = interp.execute_statement(&block, &float_unit, &mut events);
    assert!(matches!(r, Ok(None)));
    assert!(events.is_empty());
    assert_eq!(interp.current_depth, 2);
    assert_eq!(interp.vars.len(), 1);
    let list = &interp.vars[0].1;
    assert_eq!(list.len(), 2);
    assert_eq!((list[0].depth, list[1].depth), (0, 1));
    assert_eq!(list[0].value.to_i64(), 1);
    assert_eq!(list[1].value.to_i64(), 2);
    let events = run_with(&mut interp, "x;");
    assert_eq!(integer(&events[0]), 1);
}

#[test]
fn different_values_at_one_depth_both_stay() {
    let events = run("let x = 1; let x = 2; x;");
    assert_eq!(events.len(), 3);
    assert_eq!(integer(&events[0]), 1);
    assert_eq!(integer(&events[1]), 1);
    assert_eq!(integer(&events[2]), 2);
}

#[test]
fn host_call_reaches_the_executor_once() {
    let events = host("debug_reply!(\"hi\");");
    assert_eq!(events.len(), 2);
    match &events[0] {
        InterpreterEvent::HostCall(name, args) => {
            assert_eq!(name, "debug_reply!");
            assert_eq!(args.len(), 1);
            assert_eq!(String::from_utf8(*args[0].memory.clone()).unwrap(), "hi");
        }
        other => panic!("{:?}", other),
    }
    match &events[1] {
        InterpreterEvent::Output(v) => {
            assert!(v._type == Types::Void);
            assert!(v.memory.is_empty());
        }
        other => panic!("{:?}", other),
    }
}

#[test]
fn unregistered_host_function_is_not_found() {
    let events = host("nothing!(1);");
    match error(&events[0]) {
        InterpreterErrors::FunctionNotFound(name) => assert_eq!(name, "nothing!"),
        other => panic!("{:?}", other),
    }
}

#[test]
fn host_call_with_wrong_count_or_type() {
    let events = host("debug_reply!(\"a\", \"b\"); debug_reply!(1); debug_reply!();");
    assert_eq!(events.len(), 3);
    match error(&events[0]) {
        InterpreterErrors::ArgumentCountMismatch(name, p, a) => {
            assert_eq!(name, "debug_reply!");
            assert_eq!((*p, *a), (1, 2));
        }
        other => panic!("{:?}", other),
    }
    assert!(matches!(error(&events[1]), InterpreterErrors::TypeMismatch(n) if n == "debug_reply!"));
    assert!(matches!(error(&events[2]), InterpreterErrors::ArgumentCountMismatch(_, 1, 0)));
}

#[test]
fn registered_host_function_with_two_parameters() {
    let mut interp = Interpreter::new();
    interp.system_function_executor = true;
    interp.system_functions.push(Function {
        identifier: "add!".to_string(),
        parameters: vec![Types::Integer, Types::Integer],
        return_value: None,
    });
    let events = run_with(&mut interp, "add!(1 + 1, 3);");
    match &events[0] {
        InterpreterEvent::HostCall(name, args) => {
            assert_eq!(name, "add!");
            assert_eq!(args[0].to_i64(), 2);
            assert_eq!(args[1].to_i64(), 3);
        }
        other => panic!("{:?}", other),
    }
}

#[test]
fn calls_without_host_or_marker_are_unimplemented() {
    let events = run("debug_reply!(\"hi\");");
    assert!(matches!(error(&events[0]), InterpreterErrors::Unimplemented));
    let events = host("reply(\"hi\");");
    assert!(matches!(error(&events[0]), InterpreterErrors::Unimplemented));
}

#[test]
fn failing_statement_then_succeeding_one() {
    let events = run("\"a\" * 2; 3;");
    assert_eq!(events.len(), 2);
    assert!(matches!(error(&events[0]), InterpreterErrors::Unimplemented));
    assert_eq!(integer(&events[1]), 3);
}

#[test]
fn unary_grouping_and_comparison_are_unimplemented() {
    let events = run("-1; (2); 1 < 2; x = 3;");
    assert_eq!(events.len(), 4);
    for e in &events {
        assert!(matches!(error(e), InterpreterErrors::Unimplemented));
    }
}

#[test]
fn parse_errors() {
    let tokens = |s: &str| Lexer::tokenize(s.to_string()).unwrap();
    assert!(matches!(Parser::parse(tokens(";")), Err(ParserErrors::NoFunctionHandler(t)) if t.kind == TokenKind::SemiColon));
    assert!(matches!(Parser::parse(tokens("1 2;")), Err(ParserErrors::UnexpectedTokenKind(t)) if t.kind == TokenKind::Number));
    assert!(matches!(Parser::parse(tokens("let = 1;")), Err(ParserErrors::UnexpectedTokenKind(t)) if t.kind == TokenKind::Assignment));
    assert!(matches!(Parser::parse(tokens("let x: 1 = 1;")), Err(ParserErrors::UnexpectedTokenKind(t)) if t.kind == TokenKind::Number));
    assert!(matches!(Parser::parse(tokens("let x = 1")), Err(ParserErrors::UnexpectedTokenKind(t)) if t.kind == TokenKind::Eof));
    assert!(matches!(Parser::parse(tokens("f(1;")), Err(ParserErrors::UnexpectedTokenKind(t)) if t.kind == TokenKind::SemiColon));
    for text in ["1e", "e5", "+", ".", "1.2.3", "1e+", "infinit", "abc", "--1"] {
        let bad = vec![
            Token::new(TokenKind::Number, text.to_string(), 0, 0),
            Token::new(TokenKind::SemiColon, ";".to_string(), 3, 0),
            Token::new(TokenKind::Eof, String::new(), 4, 0),
        ];
        assert!(
            matches!(Parser::parse(bad), Err(ParserErrors::NumberIsNotANumber(t)) if t.value == text),
            "{}",
            text
        );
    }
}

#[test]
fn number_tokens_in_float_syntax_are_float_literals() {
    for text in ["1e5", "1.", ".5", "2.5E-3", "+1e+2", "inf", "-Infinity", "NaN", "99999999999999999999"] {
        let tokens = vec![
            Token::new(TokenKind::Number, text.to_string(), 0, 0),
            Token::new(TokenKind::SemiColon, ";".to_string(), 3, 0),
            Token::new(TokenKind::Eof, String::new(), 4, 0),
        ];
        let block = Parser::parse(tokens).unwrap();
        match &*block.body[0] {
            Statement::Expression(s) => {
                assert!(matches!(&*s.expression, Expression::Float(f) if f.value == text), "{}", text)
            }
            other => panic!("{:?}", other),
        }
        assert!(text.parse::<f64>().is_ok());
    }
    let tokens = vec![
        Token::new(TokenKind::Number, "1e5".to_string(), 0, 0),
        Token::new(TokenKind::SemiColon, ";".to_string(), 3, 0),
        Token::new(TokenKind::Eof, String::new(), 4, 0),
    ];
    let events = Interpreter::new().execute(*Parser::parse(tokens).unwrap(), &float_unit);
    match &events[0] {
        InterpreterEvent::Output(v) => assert_eq!(*v.memory, 100000.0f64.to_be_bytes().to_vec()),
        other => panic!("{:?}", other),
    }
}

#[test]
fn declaration_with_explicit_type() {
    let block = parse("const name: Text = \"v\";");
    match &*block.body[0] {
        Statement::Variable(v) => {
            assert!(v.is_const);
            assert_eq!(v.variable_name, "name");
            assert_eq!(v.explicit_type.as_deref(), Some("Text"));
            assert!(matches!(&*v.assignment, Expression::String(s) if s.value == "v"));
        }
        other => panic!("{:?}", other),
    }
}

#[test]
fn call_arguments_are_full_expressions() {
    let block = parse("f!(1 + 2, \"x\")(3);");
    match &*block.body[0] {
        Statement::Expression(s) => match &*s.expression {
            Expression::FunctionCall(outer) => {
                assert_eq!(outer.params.len(), 1);
                match &*outer.identifier {
                    Expression::FunctionCall(inner) => {
                        assert_eq!(inner.params.len(), 2);
                        assert!(matches!(&*inner.params[0], Expression::Binary(_)));
                    }
                    other => panic!("{:?}", other),
                }
            }
            other => panic!("{:?}", other),
        },
        other => panic!("{:?}", other),
    }
}

#[test]
fn size_hints() {
    let block = parse("let a = \"abc\" + 1;");
    assert_eq!(block.body[0].get_memory_allocation_info().count, 11);
    match block.body[0].get_description() {
        AbstractStatementDescription::Variable(name, size, _) => {
            assert_eq!(name, "a");
            assert_eq!(size, 11);
        }
        other => panic!("{:?}", other),
    }
}

#[test]
fn types_and_operations() {
    assert!(Types::Integer.supports(BinaryOperations::Divide));
    assert!(Types::Float.supports(BinaryOperations::Multiply));
    assert!(Types::String.supports(BinaryOperations::Add));
    assert!(!Types::String.supports(BinaryOperations::Subtract));
    assert!(!Types::Boolean.supports(BinaryOperations::Add));
    assert!(!Types::Custom("P".to_string(), 4).supports(BinaryOperations::Add));
    assert!(Types::Custom("P".to_string(), 4) == Types::Custom("P".to_string(), 4));
    assert!(Types::Custom("P".to_string(), 4) != Types::Custom("Q".to_string(), 4));
    assert!(matches!(BinaryOperations::try_from(TokenKind::Star), Ok(BinaryOperations::Multiply)));
    assert!(BinaryOperations::try_from(TokenKind::Percent).is_err());
}

#[test]
fn value_conversions() {
    let v = AbstractValue::from_i64(-2);
    assert_eq!(*v.memory, (-2i64).to_be_bytes().to_vec());
    assert_eq!(v.to_i64(), -2);
    assert_eq!(AbstractValue::from_u64(258).to_u64(), 258);
    let s = AbstractValue::from_text("hé");
    assert_eq!(*s.memory, "hé".as_bytes().to_vec());
    assert!(s.same_as(&s.duplicate()));
    assert!(!s.same_as(&v));
}

#[test]
fn descriptions_compare_by_variant() {
    let a = AbstractExpressionDescription::Integer(AbstractValue::from_i64(1));
    let b = AbstractExpressionDescription::Integer(AbstractValue::from_i64(2));
    let c = AbstractExpressionDescription::Symbol("x".to_string());
    assert!(a == b);
    assert!(a != c);
}

#[test]
fn callee_that_is_not_text_is_unimplemented() {
    let mut interp = Interpreter::new();
    interp.system_function_executor = true;
    let call = AbstractStatementDescription::Expression(Box::new(
        AbstractExpressionDescription::FunctionCall(
            Box::new(AbstractExpressionDescription::Integer(AbstractValue::from_i64(-1))),
            0,
            vec![],
        ),
    ));
    let events = interp.execute_descriptions(&vec![Box::new(call)], &float_unit);
    assert_eq!(events.len(), 1);
    assert!(matches!(error(&events[0]), InterpreterErrors::Unimplemented));
}

#[test]
fn block_size_hint_sums_statements() {
    let block = Statement::Block(parse("\"ab\"; 1 + 2; x;"));
    assert_eq!(block.get_memory_allocation_info().count, 18);
}

#[test]
fn same_value_at_greater_depth_is_rejected() {
    let mut interp = Interpreter::new();
    let statements = vec![
        Box::new(AbstractStatementDescription::Variable(
            "x".to_string(),
            8,
            Box::new(AbstractExpressionDescription::Integer(AbstractValue::from_i64(1))),
        )),
        Box::new(AbstractStatementDescription::Variable(
            "x".to_string(),
            8,
            Box::new(AbstractExpressionDescription::Integer(AbstractValue::from_i64(1))),
        )),
    ];
    let block = AbstractStatementDescription::Block(statements);
    let mut events = Vec::new();
    let r = interp.execute_statement(&block, &float_unit, &mut events);
    match r {
        Err(InterpreterErrors::VariableAlreadyExists(name)) => assert_eq!(name, "x"),
        other => panic!("{:?}", other),
    }
    assert_eq!(interp.current_depth, 1);
    assert_eq!(interp.vars.len(), 1);
    assert_eq!(interp.vars[0].1.len(), 1);
    assert_eq!(interp.vars[0].1[0].depth, 0);
}

#[test]
fn failed_subtraction_then_value_in_order() {
    let events = run("\"a\" - \"b\"; 5;");
    assert_eq!(events.len(), 2);
    assert!(matches!(error(&events[0]), InterpreterErrors::Unimplemented));
    assert_eq!(integer(&events[1]), 5);
}

#[test]
fn new_interpreter_knows_debug_reply() {
    let interp = Interpreter::new();
    assert!(interp.vars.is_empty());
    assert_eq!(interp.current_depth, 0);
    assert!(!interp.system_function_executor);
    assert_eq!(interp.system_functions.len(), 1);
    let f = &interp.system_functions[0];
    assert_eq!(f.identifier, "debug_reply!");
    assert!(f.parameters.len() == 1 && f.parameters[0] == Types::String);
    assert!(f.return_value.is_none());
}

use bias::error::Error;
use bias::interpreter::{Builtin, FloatRequest, Flow, Function, Halt, Interpreter, Output, Value};
use bias::lexer::{tokenize, Token};
use bias::parser::{parse, SyntaxNode};

const FUEL: u64 = 1000;

fn id(s: &str) -> Token {
    Token::Identifier(String::from(s))
}

fn lit(t: Token) -> SyntaxNode {
    SyntaxNode::ExprLiteral(t)
}

fn var(name: &str) -> SyntaxNode {
    lit(id(name))
}

fn ty(name: &str) -> SyntaxNode {
    SyntaxNode::Type(id(name))
}

fn decl(name: &str, tname: &str, expr: SyntaxNode) -> SyntaxNode {
    SyntaxNode::VarDecl(vec![SyntaxNode::Var(id(name), Box::new(ty(tname))), expr])
}

fn op(t: Token, a: SyntaxNode, b: SyntaxNode) -> SyntaxNode {
    SyntaxNode::Expr(t, vec![a, b])
}

fn call(name: &str, args: Vec<SyntaxNode>) -> SyntaxNode {
    SyntaxNode::FuncCall(vec![SyntaxNode::FuncName(id(name)), SyntaxNode::FuncArgs(args)])
}

fn func_def(name: &str, params: Vec<(&str, &str)>, body: Vec<SyntaxNode>, ret: &str) -> SyntaxNode {
    let params = params
        .into_iter()
        .map(|(n, t)| SyntaxNode::Var(id(n), Box::new(ty(t))))
        .collect();
    SyntaxNode::FuncDef(vec![
        SyntaxNode::FuncName(id(name)),
        SyntaxNode::FuncParams(params),
        SyntaxNode::Scope(body),
        ty(ret),
    ])
}

fn ret(expr: SyntaxNode) -> SyntaxNode {
    SyntaxNode::Return(Some(Box::new(expr)))
}

fn eval(expr: SyntaxNode) -> Flow<Value> {
    let mut it = Interpreter::new();
    it.eval_expression(FUEL, &expr)
}

fn lines(it: &Interpreter) -> Vec<String> {
    it.output
        .iter()
        .filter_map(|o| match o {
            Output::Line(s) => Some(s.clone()),
            Output::Dump(_) => None,
        })
        .collect()
}

#[test]
fn println_prints_a_declared_string() {
    let mut it = Interpreter::new();
    let program = SyntaxNode::Scope(vec![
        decl("x", "string", lit(Token::StringLiteral(String::from("hello")))),
        call("println", vec![var("x")]),
    ]);
    let r = it.interprete(&program, FUEL);
    assert!(matches!(r, Flow::Done(None)));
    assert_eq!(lines(&it), vec![String::from("hello")]);
}

#[test]
fn println_converts_its_argument_to_a_string() {
    let mut it = Interpreter::new();
    let program = SyntaxNode::Scope(vec![
        decl("s", "int", lit(Token::Int(-3))),
        call("println", vec![var("s")]),
    ]);
    let r = it.interprete(&program, FUEL);
    assert!(matches!(r, Flow::Done(None)));
    assert_eq!(lines(&it), vec![String::from("-3")]);

    let mut it = Interpreter::new();
    let r = it.interprete(&call("println", vec![lit(Token::Uint(3))]), FUEL);
    assert!(matches!(r, Flow::Fail(Error::CannotCast(_, _))));
    assert!(lines(&it).is_empty());
}

#[test]
fn integer_arithmetic() {
    assert!(matches!(eval(op(Token::Plus, lit(Token::Int(-2)), lit(Token::Uint(5)))), Flow::Done(Value::Int(3))));
    assert!(matches!(eval(op(Token::Plus, lit(Token::Uint(2)), lit(Token::Uint(5)))), Flow::Done(Value::Uint(7))));
    assert!(matches!(eval(op(Token::Minus, lit(Token::Uint(2)), lit(Token::Int(5)))), Flow::Done(Value::Int(-3))));
    assert!(matches!(eval(op(Token::Times, lit(Token::Int(-4)), lit(Token::Int(5)))), Flow::Done(Value::Int(-20))));
    assert!(matches!(eval(op(Token::Div, lit(Token::Int(-7)), lit(Token::Int(2)))), Flow::Done(Value::Int(-3))));
    assert!(matches!(eval(op(Token::Div, lit(Token::Uint(7)), lit(Token::Uint(2)))), Flow::Done(Value::Uint(3))));
}

#[test]
fn integer_faults_abort() {
    assert!(matches!(eval(op(Token::Minus, lit(Token::Uint(2)), lit(Token::Uint(5)))), Flow::Halt(Halt::Abort)));
    assert!(matches!(eval(op(Token::Plus, lit(Token::Int(i64::MAX)), lit(Token::Int(1)))), Flow::Halt(Halt::Abort)));
    assert!(matches!(eval(op(Token::Div, lit(Token::Int(1)), lit(Token::Int(0)))), Flow::Halt(Halt::Abort)));
    assert!(matches!(eval(op(Token::Div, lit(Token::Int(i64::MIN)), lit(Token::Int(-1)))), Flow::Halt(Halt::Abort)));
    assert!(matches!(eval(op(Token::Div, lit(Token::Uint(1)), lit(Token::Uint(0)))), Flow::Halt(Halt::Abort)));
}

#[test]
fn comparisons() {
    assert!(matches!(eval(op(Token::EqualTo, lit(Token::Int(3)), lit(Token::Uint(3)))), Flow::Done(Value::Bool(true))));
    assert!(matches!(eval(op(Token::BiggerThan, lit(Token::Int(3)), lit(Token::Int(2)))), Flow::Done(Value::Bool(true))));
    assert!(matches!(eval(op(Token::LessThan, lit(Token::Uint(3)), lit(Token::Int(2)))), Flow::Done(Value::Bool(false))));
    assert!(matches!(eval(op(Token::BiggerOrEqualTo, lit(Token::Int(2)), lit(Token::Int(2)))), Flow::Done(Value::Bool(true))));
    assert!(matches!(eval(op(Token::LessOrEqualTo, lit(Token::Int(3)), lit(Token::Int(2)))), Flow::Done(Value::Bool(false))));
    let a = lit(Token::StringLiteral(String::from("ab")));
    let b = lit(Token::StringLiteral(String::from("ab")));
    assert!(matches!(eval(op(Token::EqualTo, a, b)), Flow::Done(Value::Bool(true))));
}

#[test]
fn string_concatenation() {
    let a = lit(Token::StringLiteral(String::from("foo")));
    let b = lit(Token::StringLiteral(String::from("bar")));
    match eval(op(Token::Plus, a, b)) {
        Flow::Done(v) => assert_eq!(v, Value::String(String::from("foobar"))),
        _ => panic!("concatenation failed"),
    }
}

#[test]
fn cannot_perform_names_the_operator() {
    let r = eval(op(Token::Plus, lit(Token::CharLiteral('a')), lit(Token::Int(1))));
    assert!(matches!(r, Flow::Fail(Error::CannotPerform(Token::Plus, Value::Char('a'), Value::Int(1)))));
    let r = eval(op(Token::BiggerOrEqualTo, lit(Token::CharLiteral('a')), lit(Token::Int(1))));
    assert!(matches!(r, Flow::Fail(Error::CannotPerform(Token::LessThan, _, _))));
    let r = eval(op(Token::Minus, lit(Token::StringLiteral(String::from("a"))), lit(Token::Int(1))));
    assert!(matches!(r, Flow::Fail(Error::CannotPerform(Token::Minus, _, _))));
}

#[test]
fn operand_counts_and_operators() {
    let r = eval(SyntaxNode::Expr(Token::Plus, vec![lit(Token::Int(1))]));
    assert!(matches!(r, Flow::Fail(Error::NotEnoughOperand(_))));
    let r = eval(SyntaxNode::Expr(Token::Plus, vec![lit(Token::Int(1)), lit(Token::Int(1)), lit(Token::Int(1))]));
    assert!(matches!(r, Flow::Fail(Error::TooMuchOperands(_))));
    let r = eval(op(Token::Mod, lit(Token::Int(1)), lit(Token::Int(1))));
    assert!(matches!(r, Flow::Fail(Error::NotAnOperator(Token::Mod))));
}

#[test]
fn casts() {
    let cast = |t: &str, e: SyntaxNode| eval(SyntaxNode::ExprCast(vec![ty(t), e]));
    match cast("string", lit(Token::Int(-42))) {
        Flow::Done(v) => assert_eq!(v, Value::String(String::from("-42"))),
        _ => panic!("cast failed"),
    }
    match cast("string", lit(Token::Int(i64::MIN))) {
        Flow::Done(v) => assert_eq!(v, Value::String(i64::MIN.to_string())),
        _ => panic!("cast failed"),
    }
    assert!(matches!(cast("uint", lit(Token::Int(-1))), Flow::Done(Value::Uint(u64::MAX))));
    assert!(matches!(cast("int", lit(Token::Uint(u64::MAX))), Flow::Done(Value::Int(-1))));
    assert!(matches!(cast("string", lit(Token::Uint(1))), Flow::Fail(Error::CannotCast(_, _))));
    assert!(matches!(cast("int", lit(Token::CharLiteral('c'))), Flow::Fail(Error::CannotCast(_, _))));
    assert!(matches!(cast("bool", lit(Token::Int(1))), Flow::Fail(Error::CannotCast(_, _))));
    assert!(matches!(eval(SyntaxNode::ExprCast(vec![ty("int")])), Flow::Halt(Halt::Abort)));
}

#[test]
fn float_operations_are_asked_for_in_order() {
    let expr = op(Token::Plus, lit(Token::Float(String::from("1.5"))), lit(Token::Float(String::from("2"))));
    let mut it = Interpreter::new();
    match it.eval_expression(FUEL, &expr) {
        Flow::Halt(Halt::NeedFloat(FloatRequest::Parse(t))) => assert_eq!(t, "1.5"),
        _ => panic!("expected a request"),
    }
    let answers = vec![1.5f64.to_bits(), 2.0f64.to_bits()];
    let mut it = Interpreter::with_float_answers(answers);
    match it.eval_expression(FUEL, &expr) {
        Flow::Halt(Halt::NeedFloat(FloatRequest::Add(a, b))) => {
            assert_eq!(f64::from_bits(a), 1.5);
            assert_eq!(f64::from_bits(b), 2.0);
        },
        _ => panic!("expected the addition"),
    }
    let answers = vec![1.5f64.to_bits(), 2.0f64.to_bits(), 3.5f64.to_bits()];
    let mut it = Interpreter::with_float_answers(answers);
    match it.eval_expression(FUEL, &expr) {
        Flow::Done(Value::Float(bits)) => assert_eq!(f64::from_bits(bits), 3.5),
        _ => panic!("expected the sum"),
    }
    assert_eq!(it.floats.used, 3);
}

#[test]
fn functions_return_values() {
    let mut it = Interpreter::new();
    let program = SyntaxNode::Scope(vec![
        func_def("inc", vec![("a", "int")], vec![ret(op(Token::Plus, var("a"), lit(Token::Int(1))))], "int"),
        decl("x", "int", call("inc", vec![lit(Token::Int(41))])),
        ret(var("x")),
    ]);
    match it.interprete(&program, FUEL) {
        Flow::Done(Some(Some(v))) => assert_eq!(v, Value::Int(42)),
        other => panic!("unexpected {:?}", other),
    }
    // the scope is left: nothing it declared is known
    assert!(!it.variables.contains_key(&String::from("x")));
    assert!(!it.functions.contains_key(&String::from("inc")));
    assert!(it.functions.contains_key(&String::from("println")));
}

#[test]
fn argument_converted_to_parameter_type() {
    let mut it = Interpreter::new();
    let program = SyntaxNode::Scope(vec![
        func_def("id", vec![("a", "uint")], vec![ret(var("a"))], "uint"),
        ret(call("id", vec![lit(Token::Int(5))])),
    ]);
    match it.interprete(&program, FUEL) {
        Flow::Done(Some(Some(v))) => assert_eq!(v, Value::Uint(5)),
        other => panic!("unexpected {:?}", other),
    }
}

#[test]
fn call_gives_back_caller_variables() {
    let mut it = Interpreter::new();
    let program = SyntaxNode::Scope(vec![
        decl("a", "int", lit(Token::Int(1))),
        func_def("f", vec![("a", "int")], vec![ret(var("a"))], "int"),
        decl("b", "int", call("f", vec![lit(Token::Int(9))])),
        ret(var("a")),
    ]);
    match it.interprete(&program, FUEL) {
        Flow::Done(Some(Some(v))) => assert_eq!(v, Value::Int(1)),
        other => panic!("unexpected {:?}", other),
    }
}

#[test]
fn missing_and_mistyped_returns() {
    let mut it = Interpreter::new();
    let program = SyntaxNode::Scope(vec![func_def("f", vec![], vec![], "int"), call("f", vec![])]);
    assert!(matches!(it.interprete(&program, FUEL), Flow::Fail(Error::MissingReturn(ref n)) if n == "f"));

    let mut it = Interpreter::new();
    let program = SyntaxNode::Scope(vec![
        func_def("f", vec![], vec![ret(lit(Token::Int(1)))], "string"),
        call("f", vec![]),
    ]);
    assert!(matches!(it.interprete(&program, FUEL), Flow::Fail(Error::ReturnIncompatibleType(Value::Int(1)))));

    let mut it = Interpreter::new();
    let program = SyntaxNode::Scope(vec![
        func_def("f", vec![], vec![SyntaxNode::Return(None)], "int"),
        call("f", vec![]),
    ]);
    assert!(matches!(it.interprete(&program, FUEL), Flow::Halt(Halt::Abort)));
}

#[test]
fn void_call_in_an_expression() {
    let r = eval(call("println", vec![lit(Token::StringLiteral(String::from("x")))]));
    assert!(matches!(r, Flow::Fail(Error::VoidInExpression(_))));
}

#[test]
fn variable_errors() {
    let mut it = Interpreter::new();
    let program = SyntaxNode::Scope(vec![
        decl("x", "int", lit(Token::Int(1))),
        decl("x", "int", lit(Token::Int(2))),
    ]);
    assert!(matches!(it.interprete(&program, FUEL), Flow::Fail(Error::VariableAlreadyExists(ref n)) if n == "x"));

    assert!(matches!(eval(var("y")), Flow::Fail(Error::UnknownVariable(ref n)) if n == "y"));

    let mut it = Interpreter::new();
    let bad = SyntaxNode::VarDecl(vec![ty("int"), lit(Token::Int(1))]);
    assert!(matches!(it.interprete(&bad, FUEL), Flow::Fail(Error::NotAVar(_))));

    let mut it = Interpreter::new();
    let modif = SyntaxNode::VarModif(id("z"), Token::Plus, Box::new(lit(Token::Int(1))));
    assert!(matches!(it.interprete(&modif, FUEL), Flow::Fail(Error::UnknownVariable(ref n)) if n == "z"));
}

#[test]
fn variable_modification() {
    let mut it = Interpreter::new();
    let program = SyntaxNode::Scope(vec![
        decl("x", "int", lit(Token::Int(5))),
        SyntaxNode::VarModif(id("x"), Token::Times, Box::new(lit(Token::Int(3)))),
        ret(var("x")),
    ]);
    match it.interprete(&program, FUEL) {
        Flow::Done(Some(Some(v))) => assert_eq!(v, Value::Int(15)),
        other => panic!("unexpected {:?}", other),
    }
}

#[test]
fn inner_scope_variables_do_not_outlive_it() {
    let mut it = Interpreter::new();
    let program = SyntaxNode::Scope(vec![
        SyntaxNode::Scope(vec![decl("x", "int", lit(Token::Int(1)))]),
        ret(var("x")),
    ]);
    assert!(matches!(it.interprete(&program, FUEL), Flow::Fail(Error::UnknownVariable(ref n)) if n == "x"));
}

#[test]
fn call_errors() {
    assert!(matches!(eval(call("nope", vec![])), Flow::Fail(Error::UnknownFunction(ref n)) if n == "nope"));
    let bad_name = SyntaxNode::FuncCall(vec![lit(Token::Int(1)), SyntaxNode::FuncArgs(vec![])]);
    assert!(matches!(eval(bad_name), Flow::Fail(Error::ExpectedFuncName(_))));
    let bad_args = SyntaxNode::FuncCall(vec![SyntaxNode::FuncName(id("println")), lit(Token::Int(1))]);
    assert!(matches!(eval(bad_args), Flow::Fail(Error::ExpectedFuncArgs(_))));
    let mut it = Interpreter::new();
    assert!(matches!(it.call_function(FUEL, &lit(Token::Int(1))), Flow::Fail(Error::NotAFunction(_))));

    let mut it = Interpreter::new();
    let def = SyntaxNode::FuncDef(vec![
        SyntaxNode::FuncName(id("f")),
        SyntaxNode::FuncParams(vec![ty("int")]),
        SyntaxNode::Scope(vec![]),
        ty("void"),
    ]);
    let program = SyntaxNode::Scope(vec![def, call("f", vec![lit(Token::Int(1))])]);
    assert!(matches!(it.interprete(&program, FUEL), Flow::Fail(Error::ExpectedFuncParam(_))));

    let mut it = Interpreter::new();
    it.functions.insert(
        String::from("ghost"),
        Function {
            name: String::from("ghost"),
            return_type: ty("void"),
            parameters: vec![],
            scope: None,
            callback: None,
        },
    );
    assert!(matches!(it.interprete(&call("ghost", vec![]), FUEL), Flow::Fail(Error::MissingFunction(_))));

    assert!(matches!(eval(call("println", vec![])), Flow::Halt(Halt::Abort)));
}

#[test]
fn function_definition_errors() {
    let mut it = Interpreter::new();
    let short = SyntaxNode::FuncDef(vec![SyntaxNode::FuncName(id("f"))]);
    assert!(matches!(it.interprete(&short, FUEL), Flow::Fail(Error::FuncRegisterFailed)));
    assert!(matches!(it.output[0], Output::Dump(ref v) if v.len() == 1));

    let mut it = Interpreter::new();
    let header_first = SyntaxNode::FuncDef(vec![
        SyntaxNode::FuncHeader(vec![id("entry_point")]),
        SyntaxNode::FuncName(id("main")),
        SyntaxNode::FuncParams(vec![]),
        SyntaxNode::Scope(vec![]),
    ]);
    assert!(matches!(it.interprete(&header_first, FUEL), Flow::Fail(Error::FuncRegisterFailed)));

    let mut it = Interpreter::new();
    let mut def = vec![
        SyntaxNode::FuncName(id("f")),
        SyntaxNode::FuncParams(vec![]),
        SyntaxNode::Scope(vec![]),
        ty("void"),
        ty("oops"),
    ];
    assert!(matches!(it.interprete(&SyntaxNode::FuncDef(def.clone()), FUEL), Flow::Fail(Error::NotAFuncHeader(_))));
    def[4] = SyntaxNode::FuncHeader(vec![id("inline")]);
    let mut it = Interpreter::new();
    assert!(matches!(it.interprete(&SyntaxNode::FuncDef(def.clone()), FUEL), Flow::Fail(Error::NotAnFuncOption(Token::Identifier(ref o))) if o == "inline"));
    def[4] = SyntaxNode::FuncHeader(vec![Token::Comma]);
    let mut it = Interpreter::new();
    assert!(matches!(it.interprete(&SyntaxNode::FuncDef(def), FUEL), Flow::Fail(Error::NotAnFuncOption(Token::Comma))));
}

#[test]
fn entry_point_runs_at_definition() {
    let mut it = Interpreter::new();
    let def = SyntaxNode::FuncDef(vec![
        SyntaxNode::FuncName(id("main")),
        SyntaxNode::FuncParams(vec![]),
        SyntaxNode::Scope(vec![call("println", vec![lit(Token::StringLiteral(String::from("hello, world !")))])]),
        ty("void"),
        SyntaxNode::FuncHeader(vec![id("entry_point")]),
    ]);
    let program = SyntaxNode::Scope(vec![def]);
    assert!(matches!(it.interprete(&program, FUEL), Flow::Done(Some(None))));
    assert_eq!(lines(&it), vec![String::from("hello, world !")]);
}

#[test]
fn if_and_else() {
    let branch = |cond: SyntaxNode, with_else: bool| {
        let mut s = vec![
            cond,
            SyntaxNode::Scope(vec![ret(lit(Token::Int(1)))]),
        ];
        if with_else {
            s.push(SyntaxNode::Else(Box::new(SyntaxNode::Scope(vec![ret(lit(Token::Int(2)))]))));
        }
        let mut it = Interpreter::new();
        it.interprete(&SyntaxNode::If(s), FUEL)
    };
    let yes = || op(Token::LessThan, lit(Token::Int(1)), lit(Token::Int(2)));
    let no = || op(Token::BiggerThan, lit(Token::Int(1)), lit(Token::Int(2)));
    assert!(matches!(branch(yes(), true), Flow::Done(Some(Some(Value::Int(1))))));
    assert!(matches!(branch(no(), true), Flow::Done(Some(Some(Value::Int(2))))));
    assert!(matches!(branch(no(), false), Flow::Done(None)));
    assert!(matches!(branch(lit(Token::Int(1)), false), Flow::Fail(Error::ExpectedBool(Value::Int(1)))));

    let mut it = Interpreter::new();
    let bad_else = SyntaxNode::If(vec![no(), SyntaxNode::Scope(vec![]), SyntaxNode::Scope(vec![])]);
    assert!(matches!(it.interprete(&bad_else, FUEL), Flow::Fail(Error::ExpectedElseBranch(_))));
}

#[test]
fn not_an_expression_or_literal() {
    assert!(matches!(eval(SyntaxNode::Scope(vec![])), Flow::Fail(Error::NotAnExpression(_))));
    assert!(matches!(eval(lit(Token::Comma)), Flow::Fail(Error::NotExpressionLiteral(Token::Comma))));
}

#[test]
fn statements_it_does_not_run_abort() {
    let mut it = Interpreter::new();
    assert!(matches!(it.interprete(&SyntaxNode::While(vec![]), FUEL), Flow::Halt(Halt::Abort)));
}

#[test]
fn fuel_runs_out() {
    let mut it = Interpreter::new();
    assert!(matches!(it.interprete(&SyntaxNode::Scope(vec![]), 0), Flow::Halt(Halt::Exhausted)));
    let mut it = Interpreter::new();
    let program = SyntaxNode::Scope(vec![
        func_def("loop", vec![], vec![call("loop", vec![])], "void"),
        call("loop", vec![]),
    ]);
    assert!(matches!(it.interprete(&program, 200), Flow::Halt(Halt::Exhausted)));
}

#[test]
fn has_type_checks_the_return_type() {
    assert!(Interpreter::has_type(&ty("int"), &Some(Value::Int(1))));
    assert!(!Interpreter::has_type(&ty("uint"), &Some(Value::Int(1))));
    assert!(Interpreter::has_type(&ty("void"), &None));
    assert!(!Interpreter::has_type(&ty("int"), &None));
    assert!(Interpreter::has_type(&ty("char"), &Some(Value::Char('a'))));
    assert!(!Interpreter::has_type(&lit(Token::Int(1)), &Some(Value::Int(1))));
}

#[test]
fn new_knows_println() {
    let it = Interpreter::new();
    match it.functions.get(&String::from("println")) {
        Some(f) => {
            assert_eq!(f.name, "println");
            assert!(matches!(f.callback, Some(Builtin::Println)));
            assert_eq!(f.parameters.len(), 1);
        },
        None => panic!("println missing"),
    }
}

#[test]
fn runs_a_parsed_program() {
    let tokens = tokenize("let int x = 1 + 2 * 3; println(x);").unwrap();
    let ast = parse(&tokens).unwrap();
    let mut it = Interpreter::new();
    assert!(matches!(it.interprete(&ast, FUEL), Flow::Done(None)));
    assert_eq!(lines(&it), vec![String::from("7")]);
    assert!(it.variables.get(&String::from("x")).is_none());
}

#[test]
fn plain_assignment_is_no_operator() {
    let tokens = tokenize("let int x = 1; x = 2;").unwrap();
    let ast = parse(&tokens).unwrap();
    let mut it = Interpreter::new();
    assert!(matches!(it.interprete(&ast, FUEL), Flow::Fail(Error::NotAnOperator(Token::Equal))));
}

fn float_answer(req: &FloatRequest) -> u64 {
    let f = |bits: &u64| f64::from_bits(*bits);
    let b = |x: bool| if x { 1 } else { 0 };
    match req {
        FloatRequest::Parse(text) => text.parse::<f64>().unwrap().to_bits(),
        FloatRequest::Add(x, y) => (f(x) + f(y)).to_bits(),
        FloatRequest::Sub(x, y) => (f(x) - f(y)).to_bits(),
        FloatRequest::Mul(x, y) => (f(x) * f(y)).to_bits(),
        FloatRequest::Div(x, y) => (f(x) / f(y)).to_bits(),
        FloatRequest::Eq(x, y) => b(f(x) == f(y)),
        FloatRequest::Gt(x, y) => b(f(x) > f(y)),
        FloatRequest::Lt(x, y) => b(f(x) < f(y)),
        FloatRequest::Ge(x, y) => b(f(x) >= f(y)),
        FloatRequest::Le(x, y) => b(f(x) <= f(y)),
        FloatRequest::FromInt(i) => (*i as f64).to_bits(),
        FloatRequest::FromUint(u) => (*u as f64).to_bits(),
        FloatRequest::ToInt(x) => (f(x) as i64) as u64,
        FloatRequest::ToUint(x) => f(x) as u64,
    }
}

fn run_answering_floats(program: &SyntaxNode) -> (Flow<Option<Option<Value>>>, Interpreter) {
    let mut answers: Vec<u64> = Vec::new();
    loop {
        let mut it = Interpreter::with_float_answers(answers.clone());
        match it.interprete(program, FUEL) {
            Flow::Halt(Halt::NeedFloat(req)) => answers.push(float_answer(&req)),
            r => return (r, it),
        }
    }
}

#[test]
fn a_run_replayed_with_float_answers() {
    let program = SyntaxNode::Scope(vec![
        decl("x", "float", lit(Token::Float(String::from("1.5")))),
        decl("y", "float", op(Token::Times, var("x"), lit(Token::Float(String::from("2.0"))))),
        SyntaxNode::If(vec![
            op(Token::BiggerThan, var("y"), var("x")),
            SyntaxNode::Scope(vec![ret(SyntaxNode::ExprCast(vec![ty("int"), var("y")]))]),
        ]),
    ]);
    let (r, it) = run_answering_floats(&program);
    assert!(matches!(r, Flow::Done(Some(Some(Value::Int(3))))));
    assert_eq!(it.floats.used, 5);
}

#[test]
fn more_float_answers_change_nothing() {
    let expr = op(Token::Plus, lit(Token::Float(String::from("1.5"))), lit(Token::Float(String::from("2"))));
    let answers = vec![1.5f64.to_bits(), 2.0f64.to_bits(), 3.5f64.to_bits(), 7.0f64.to_bits()];
    let mut it = Interpreter::with_float_answers(answers);
    match it.eval_expression(FUEL, &expr) {
        Flow::Done(Value::Float(bits)) => assert_eq!(f64::from_bits(bits), 3.5),
        _ => panic!("expected the sum"),
    }
    assert_eq!(it.floats.used, 3);
}

#[test]
fn cast_of_an_integer_to_float() {
    let program = SyntaxNode::ExprCast(vec![ty("float"), lit(Token::Int(-2))]);
    let mut it = Interpreter::new();
    assert!(matches!(it.eval_expression(FUEL, &program), Flow::Halt(Halt::NeedFloat(FloatRequest::FromInt(-2)))));
    let mut it = Interpreter::with_float_answers(vec![(-2.0f64).to_bits()]);
    match it.eval_expression(FUEL, &program) {
        Flow::Done(Value::Float(bits)) => assert_eq!(f64::from_bits(bits), -2.0),
        _ => panic!("expected -2.0"),
    }
}

#[test]
fn statements_after_a_return_have_no_effect() {
    let mut it = Interpreter::new();
    let program = SyntaxNode::Scope(vec![
        ret(lit(Token::Int(1))),
        decl("x", "int", var("undefined")),
        call("println", vec![lit(Token::StringLiteral(String::from("never")))]),
    ]);
    assert!(matches!(it.interprete(&program, FUEL), Flow::Done(Some(Some(Value::Int(1))))));
    assert!(lines(&it).is_empty());
}

#[test]
fn more_fuel_changes_nothing_of_a_finished_run() {
    let program = SyntaxNode::Scope(vec![
        func_def("inc", vec![("a", "int")], vec![ret(op(Token::Plus, var("a"), lit(Token::Int(1))))], "int"),
        ret(call("inc", vec![lit(Token::Int(1))])),
    ]);
    let mut low = 1;
    loop {
        let mut it = Interpreter::new();
        match it.interprete(&program, low) {
            Flow::Halt(Halt::Exhausted) => low += 1,
            Flow::Done(Some(Some(v))) => {
                assert_eq!(v, Value::Int(2));
                break;
            },
            other => panic!("unexpected {:?}", other),
        }
    }
    let mut it = Interpreter::new();
    assert!(matches!(it.interprete(&program, low + 100), Flow::Done(Some(Some(Value::Int(2))))));
}

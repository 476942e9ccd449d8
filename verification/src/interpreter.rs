//! Runs a syntax tree.
//!
//! Floating-point arithmetic is work the library leaves to its caller: a
//! run reads the results of the float operations it needs, in order, from
//! the answers it was given, and stops with the request for the next one
//! when they run out (see [`FloatRequest`]). The caller computes it, adds
//! the answer and runs again from a fresh interpreter: a run given more
//! answers than it used ends as it did (`law_more_answers_same_run`), so
//! each one replays the previous one and goes further. What a run prints is
//! gathered in its output.
//!
//! Every function here is proved to compute its counterpart in
//! [`crate::semantics`]. Where the program would make a Rust interpreter
//! panic (an index out of range, an overflow as a debug build checks it, a
//! division by zero, a statement it does not run), the run stops with
//! [`Halt::Abort`]; a run stops with [`Halt::Exhausted`] where its fuel, a
//! bound on its depth, runs out.
use vstd::prelude::*;
use crate::error::{Error, SpecError};
use crate::lexer::{SpecToken, Token};
use crate::parser::{clone_nodes, nodes_view, SpecNode, SyntaxNode};
use crate::parser::lemma_nodes_view;
use crate::semantics::{
    apply_operator, bind_args, call, cast, cast_value, enter_function, eval, eval_literal,
    finish_call, float_answer, float_test, float_value, int_quotient, int_result, is_void,
    operation, partial_operation, println_builtin, run, run_block, run_func_def, run_if,
    run_return, run_var_decl, run_var_modif, spec_has_type, uint_result, value_add, value_be,
    value_bigger, value_div, value_eq, value_le, value_less, value_mul, value_sub, SFlow,
    SpecFloatRequest, SpecFloats, SpecHalt, SpecOutput, SpecState,
};
use crate::table::{Duplicate, Table};
use crate::text::{int_to_text, is_word};

verus! {

/// A value of the language. A float is held by the bits of its IEEE 754
/// double representation.
#[derive(Debug, PartialEq)]
pub enum Value {
    Bool(bool),
    Int(i64),
    Uint(u64),
    Float(u64),
    String(String),
    Char(char),
}

pub enum SpecValue {
    Bool(bool),
    Int(i64),
    Uint(u64),
    Float(u64),
    String(Seq<char>),
    Char(char),
}

impl View for Value {
    type V = SpecValue;

    open spec fn view(&self) -> SpecValue {
        match self {
            Value::Bool(b) => SpecValue::Bool(*b),
            Value::Int(v) => SpecValue::Int(*v),
            Value::Uint(v) => SpecValue::Uint(*v),
            Value::Float(v) => SpecValue::Float(*v),
            Value::String(s) => SpecValue::String(s@),
            Value::Char(c) => SpecValue::Char(*c),
        }
    }
}

impl Clone for Value {
    fn clone(&self) -> (r: Value)
        ensures
            r@ == self@,
    {
        match self {
            Value::Bool(b) => Value::Bool(*b),
            Value::Int(v) => Value::Int(*v),
            Value::Uint(v) => Value::Uint(*v),
            Value::Float(v) => Value::Float(*v),
            Value::String(s) => Value::String(s.clone()),
            Value::Char(c) => Value::Char(*c),
        }
    }
}

/// A function known to the interpreter: defined in the program, or built in.
#[derive(Debug)]
pub enum Builtin {
    Println,
}

/// A function: its name, return type, parameters, and either its body or
/// the built-in that runs it.
#[derive(Debug)]
pub struct Function {
    pub name: String,
    pub return_type: SyntaxNode,
    pub parameters: Vec<SyntaxNode>,
    pub scope: Option<SyntaxNode>,
    pub callback: Option<Builtin>,
}

pub struct SpecFunction {
    pub name: Seq<char>,
    pub return_type: SpecNode,
    pub parameters: Seq<SpecNode>,
    pub scope: Option<SpecNode>,
    pub callback: Option<Builtin>,
}

impl View for Function {
    type V = SpecFunction;

    open spec fn view(&self) -> SpecFunction {
        SpecFunction {
            name: self.name@,
            return_type: self.return_type@,
            parameters: nodes_view(self.parameters@),
            scope: match self.scope {
                Some(s) => Some(s@),
                None => None,
            },
            callback: self.callback,
        }
    }
}

impl Clone for Function {
    fn clone(&self) -> (r: Function)
        ensures
            r@ == self@,
    {
        let name = self.name.clone();
        let return_type = self.return_type.clone();
        let parameters = clone_nodes(&self.parameters);
        let scope = match &self.scope {
            Some(s) => Some(s.clone()),
            None => None,
        };
        let callback = match &self.callback {
            Some(Builtin::Println) => Some(Builtin::Println),
            None => None,
        };
        let r = Function { name, return_type, parameters, scope, callback };
        assert(r@.name == self@.name);
        assert(r@.return_type == self@.return_type);
        assert(r@.parameters == self@.parameters);
        assert(r@.scope == self@.scope);
        assert(r@.callback == self@.callback);
        r
    }
}

impl DeepView for Value {
    type V = SpecValue;

    open spec fn deep_view(&self) -> SpecValue {
        self@
    }
}

impl Duplicate for Value {
    fn duplicate(&self) -> (r: Value) {
        self.clone()
    }
}

impl Duplicate for Function {
    fn duplicate(&self) -> (r: Function) {
        self.clone()
    }
}

/// A floating-point operation that a run needs done (see
/// [`SpecFloatRequest`]); operands are the bits of doubles.
#[derive(Debug)]
pub enum FloatRequest {
    Parse(String),
    Add(u64, u64),
    Sub(u64, u64),
    Mul(u64, u64),
    Div(u64, u64),
    Eq(u64, u64),
    Gt(u64, u64),
    Lt(u64, u64),
    Ge(u64, u64),
    Le(u64, u64),
    FromInt(i64),
    FromUint(u64),
    ToInt(u64),
    ToUint(u64),
}

impl View for FloatRequest {
    type V = SpecFloatRequest;

    open spec fn view(&self) -> SpecFloatRequest {
        match self {
            FloatRequest::Parse(s) => SpecFloatRequest::Parse(s@),
            FloatRequest::Add(a, b) => SpecFloatRequest::Add(*a, *b),
            FloatRequest::Sub(a, b) => SpecFloatRequest::Sub(*a, *b),
            FloatRequest::Mul(a, b) => SpecFloatRequest::Mul(*a, *b),
            FloatRequest::Div(a, b) => SpecFloatRequest::Div(*a, *b),
            FloatRequest::Eq(a, b) => SpecFloatRequest::Eq(*a, *b),
            FloatRequest::Gt(a, b) => SpecFloatRequest::Gt(*a, *b),
            FloatRequest::Lt(a, b) => SpecFloatRequest::Lt(*a, *b),
            FloatRequest::Ge(a, b) => SpecFloatRequest::Ge(*a, *b),
            FloatRequest::Le(a, b) => SpecFloatRequest::Le(*a, *b),
            FloatRequest::FromInt(a) => SpecFloatRequest::FromInt(*a),
            FloatRequest::FromUint(a) => SpecFloatRequest::FromUint(*a),
            FloatRequest::ToInt(a) => SpecFloatRequest::ToInt(*a),
            FloatRequest::ToUint(a) => SpecFloatRequest::ToUint(*a),
        }
    }
}

/// Why a run stopped without a result of the program (see [`SpecHalt`]).
#[derive(Debug)]
pub enum Halt {
    Abort,
    Exhausted,
    NeedFloat(FloatRequest),
}

impl View for Halt {
    type V = SpecHalt;

    open spec fn view(&self) -> SpecHalt {
        match self {
            Halt::Abort => SpecHalt::Abort,
            Halt::Exhausted => SpecHalt::Exhausted,
            Halt::NeedFloat(r) => SpecHalt::NeedFloat(r@),
        }
    }
}

/// The outcome of a step: its result, the error of the program, or a halt.
#[derive(Debug)]
pub enum Flow<T> {
    Done(T),
    Fail(Error),
    Halt(Halt),
}

impl<T: DeepView> View for Flow<T> {
    type V = SFlow<T::V>;

    open spec fn view(&self) -> SFlow<T::V> {
        match self {
            Flow::Done(t) => SFlow::Done(t.deep_view()),
            Flow::Fail(e) => SFlow::Fail(e@),
            Flow::Halt(h) => SFlow::Halt(h@),
        }
    }
}

/// What a run prints (see [`SpecOutput`]).
#[derive(Debug)]
pub enum Output {
    Line(String),
    Dump(Vec<SyntaxNode>),
}

impl View for Output {
    type V = SpecOutput;

    open spec fn view(&self) -> SpecOutput {
        match self {
            Output::Line(s) => SpecOutput::Line(s@),
            Output::Dump(v) => SpecOutput::Dump(nodes_view(v@)),
        }
    }
}

pub open spec fn outputs_view(s: Seq<Output>) -> Seq<SpecOutput> {
    s.map_values(|o: Output| o@)
}

pub proof fn lemma_outputs_push(s: Seq<Output>, o: Output)
    ensures
        outputs_view(s.push(o)) == outputs_view(s).push(o@),
{
    assert(outputs_view(s.push(o)) =~= outputs_view(s).push(o@));
}

/// The answers to float operations that a run may use, and how many it has
/// used.
pub struct Floats {
    pub answers: Vec<u64>,
    pub used: usize,
}

impl View for Floats {
    type V = SpecFloats;

    open spec fn view(&self) -> SpecFloats {
        SpecFloats { answers: self.answers@, used: self.used as nat }
    }
}

impl Floats {
    /// None used yet.
    pub fn new(answers: Vec<u64>) -> (f: Floats)
        ensures
            f@ == (SpecFloats { answers: answers@, used: 0 }),
    {
        Floats { answers, used: 0 }
    }

    fn next(&mut self, req: FloatRequest) -> (r: Flow<u64>)
        ensures
            (r@, final(self)@) == float_answer(old(self)@, req@),
    {
        if self.used < self.answers.len() {
            let a = self.answers[self.used];
            self.used = self.used + 1;
            Flow::Done(a)
        } else {
            Flow::Halt(Halt::NeedFloat(req))
        }
    }

    fn value(&mut self, req: FloatRequest) -> (r: Flow<Value>)
        ensures
            (r@, final(self)@) == float_value(old(self)@, req@),
    {
        match self.next(req) {
            Flow::Done(bits) => Flow::Done(Value::Float(bits)),
            Flow::Fail(e) => Flow::Fail(e),
            Flow::Halt(h) => Flow::Halt(h),
        }
    }

    fn test(&mut self, req: FloatRequest) -> (r: Flow<Value>)
        ensures
            (r@, final(self)@) == float_test(old(self)@, req@),
    {
        match self.next(req) {
            Flow::Done(bits) => Flow::Done(Value::Bool(bits != 0)),
            Flow::Fail(e) => Flow::Fail(e),
            Flow::Halt(h) => Flow::Halt(h),
        }
    }
}

fn int_flow(o: Option<i64>, Ghost(x): Ghost<int>) -> (r: Flow<Value>)
    requires
        o == (if i64::MIN <= x <= i64::MAX { Some(x as i64) } else { None::<i64> }),
    ensures
        r@ == int_result(x),
{
    match o {
        Some(v) => Flow::Done(Value::Int(v)),
        None => Flow::Halt(Halt::Abort),
    }
}

fn uint_flow(o: Option<u64>, Ghost(x): Ghost<int>) -> (r: Flow<Value>)
    requires
        o == (if 0 <= x <= u64::MAX { Some(x as u64) } else { None::<u64> }),
    ensures
        r@ == uint_result(x),
{
    match o {
        Some(v) => Flow::Done(Value::Uint(v)),
        None => Flow::Halt(Halt::Abort),
    }
}

fn int_div_flow(a: i64, b: i64) -> (r: Flow<Value>)
    ensures
        r@ == int_quotient(a as int, b as int),
{
    match a.checked_div(b) {
        Some(v) => Flow::Done(Value::Int(v)),
        None => Flow::Halt(Halt::Abort),
    }
}

impl Value {
    /// `self + rhs` (see [`value_add`]).
    pub fn add(self, rhs: Value, fl: &mut Floats) -> (r: Flow<Value>)
        ensures
            (r@, final(fl)@) == value_add(old(fl)@, self@, rhs@),
    {
        match (self, rhs) {
            (Value::Int(a), Value::Int(b)) => int_flow(a.checked_add(b), Ghost(a + b)),
            (Value::Int(a), Value::Uint(b)) => int_flow(a.checked_add(b as i64), Ghost(a + (b as i64))),
            (Value::Uint(a), Value::Int(b)) => int_flow((a as i64).checked_add(b), Ghost((a as i64) + b)),
            (Value::Uint(a), Value::Uint(b)) => uint_flow(a.checked_add(b), Ghost(a + b)),
            (Value::Float(a), Value::Float(b)) => fl.value(FloatRequest::Add(a, b)),
            (Value::String(x), Value::String(y)) => {
                let mut s = x;
                s.append(y.as_str());
                Flow::Done(Value::String(s))
            },
            (lhs, rhs) => Flow::Fail(Error::CannotPerform(Token::Plus, lhs, rhs)),
        }
    }

    /// `self - rhs` (see [`value_sub`]).
    pub fn sub(self, rhs: Value, fl: &mut Floats) -> (r: Flow<Value>)
        ensures
            (r@, final(fl)@) == value_sub(old(fl)@, self@, rhs@),
    {
        match (self, rhs) {
            (Value::Int(a), Value::Int(b)) => int_flow(a.checked_sub(b), Ghost(a - b)),
            (Value::Int(a), Value::Uint(b)) => int_flow(a.checked_sub(b as i64), Ghost(a - (b as i64))),
            (Value::Uint(a), Value::Int(b)) => int_flow((a as i64).checked_sub(b), Ghost((a as i64) - b)),
            (Value::Uint(a), Value::Uint(b)) => uint_flow(a.checked_sub(b), Ghost(a - b)),
            (Value::Float(a), Value::Float(b)) => fl.value(FloatRequest::Sub(a, b)),
            (lhs, rhs) => Flow::Fail(Error::CannotPerform(Token::Minus, lhs, rhs)),
        }
    }

    /// `self * rhs` (see [`value_mul`]).
    pub fn mul(self, rhs: Value, fl: &mut Floats) -> (r: Flow<Value>)
        ensures
            (r@, final(fl)@) == value_mul(old(fl)@, self@, rhs@),
    {
        match (self, rhs) {
            (Value::Int(a), Value::Int(b)) => int_flow(a.checked_mul(b), Ghost(a * b)),
            (Value::Int(a), Value::Uint(b)) => int_flow(a.checked_mul(b as i64), Ghost(a * (b as i64))),
            (Value::Uint(a), Value::Int(b)) => int_flow((a as i64).checked_mul(b), Ghost((a as i64) * b)),
            (Value::Uint(a), Value::Uint(b)) => uint_flow(a.checked_mul(b), Ghost(a * b)),
            (Value::Float(a), Value::Float(b)) => fl.value(FloatRequest::Mul(a, b)),
            (lhs, rhs) => Flow::Fail(Error::CannotPerform(Token::Times, lhs, rhs)),
        }
    }

    /// `self / rhs` (see [`value_div`]).
    pub fn div(self, rhs: Value, fl: &mut Floats) -> (r: Flow<Value>)
        ensures
            (r@, final(fl)@) == value_div(old(fl)@, self@, rhs@),
    {
        match (self, rhs) {
            (Value::Int(a), Value::Int(b)) => int_div_flow(a, b),
            (Value::Int(a), Value::Uint(b)) => int_div_flow(a, b as i64),
            (Value::Uint(a), Value::Int(b)) => int_div_flow(a as i64, b),
            (Value::Uint(a), Value::Uint(b)) => {
                if b == 0 {
                    Flow::Halt(Halt::Abort)
                } else {
                    Flow::Done(Value::Uint(a / b))
                }
            },
            (Value::Float(a), Value::Float(b)) => fl.value(FloatRequest::Div(a, b)),
            (lhs, rhs) => Flow::Fail(Error::CannotPerform(Token::Div, lhs, rhs)),
        }
    }

    /// `self == rhs` (see [`value_eq`]).
    pub fn eq(self, rhs: Value, fl: &mut Floats) -> (r: Flow<Value>)
        ensures
            (r@, final(fl)@) == value_eq(old(fl)@, self@, rhs@),
    {
        match (self, rhs) {
            (Value::Int(a), Value::Int(b)) => Flow::Done(Value::Bool(a == b)),
            (Value::Int(a), Value::Uint(b)) => Flow::Done(Value::Bool(a == b as i64)),
            (Value::Uint(a), Value::Int(b)) => Flow::Done(Value::Bool(a as i64 == b)),
            (Value::Uint(a), Value::Uint(b)) => Flow::Done(Value::Bool(a == b)),
            (Value::Float(a), Value::Float(b)) => fl.test(FloatRequest::Eq(a, b)),
            (Value::String(x), Value::String(y)) => Flow::Done(Value::Bool(x == y)),
            (lhs, rhs) => Flow::Fail(Error::CannotPerform(Token::EqualTo, lhs, rhs)),
        }
    }

    /// `self > rhs` (see [`value_bigger`]).
    pub fn bigger(self, rhs: Value, fl: &mut Floats) -> (r: Flow<Value>)
        ensures
            (r@, final(fl)@) == value_bigger(old(fl)@, self@, rhs@),
    {
        match (self, rhs) {
            (Value::Int(a), Value::Int(b)) => Flow::Done(Value::Bool(a > b)),
            (Value::Int(a), Value::Uint(b)) => Flow::Done(Value::Bool(a > b as i64)),
            (Value::Uint(a), Value::Int(b)) => Flow::Done(Value::Bool(a as i64 > b)),
            (Value::Uint(a), Value::Uint(b)) => Flow::Done(Value::Bool(a > b)),
            (Value::Float(a), Value::Float(b)) => fl.test(FloatRequest::Gt(a, b)),
            (lhs, rhs) => Flow::Fail(Error::CannotPerform(Token::BiggerThan, lhs, rhs)),
        }
    }

    /// `self < rhs` (see [`value_less`]).
    pub fn less(self, rhs: Value, fl: &mut Floats) -> (r: Flow<Value>)
        ensures
            (r@, final(fl)@) == value_less(old(fl)@, self@, rhs@),
    {
        match (self, rhs) {
            (Value::Int(a), Value::Int(b)) => Flow::Done(Value::Bool(a < b)),
            (Value::Int(a), Value::Uint(b)) => Flow::Done(Value::Bool(a < b as i64)),
            (Value::Uint(a), Value::Int(b)) => Flow::Done(Value::Bool((a as i64) < b)),
            (Value::Uint(a), Value::Uint(b)) => Flow::Done(Value::Bool(a < b)),
            (Value::Float(a), Value::Float(b)) => fl.test(FloatRequest::Lt(a, b)),
            (lhs, rhs) => Flow::Fail(Error::CannotPerform(Token::LessThan, lhs, rhs)),
        }
    }

    /// `self >= rhs` (see [`value_be`]).
    pub fn be(self, rhs: Value, fl: &mut Floats) -> (r: Flow<Value>)
        ensures
            (r@, final(fl)@) == value_be(old(fl)@, self@, rhs@),
    {
        match (self, rhs) {
            (Value::Int(a), Value::Int(b)) => Flow::Done(Value::Bool(a >= b)),
            (Value::Int(a), Value::Uint(b)) => Flow::Done(Value::Bool(a >= b as i64)),
            (Value::Uint(a), Value::Int(b)) => Flow::Done(Value::Bool((a as i64) >= b)),
            (Value::Uint(a), Value::Uint(b)) => Flow::Done(Value::Bool(a >= b)),
            (Value::Float(a), Value::Float(b)) => fl.test(FloatRequest::Ge(a, b)),
            (lhs, rhs) => Flow::Fail(Error::CannotPerform(Token::LessThan, lhs, rhs)),
        }
    }

    /// `self <= rhs` (see [`value_le`]).
    pub fn le(self, rhs: Value, fl: &mut Floats) -> (r: Flow<Value>)
        ensures
            (r@, final(fl)@) == value_le(old(fl)@, self@, rhs@),
    {
        match (self, rhs) {
            (Value::Int(a), Value::Int(b)) => Flow::Done(Value::Bool(a <= b)),
            (Value::Int(a), Value::Uint(b)) => Flow::Done(Value::Bool(a <= b as i64)),
            (Value::Uint(a), Value::Int(b)) => Flow::Done(Value::Bool((a as i64) <= b)),
            (Value::Uint(a), Value::Uint(b)) => Flow::Done(Value::Bool(a <= b)),
            (Value::Float(a), Value::Float(b)) => fl.test(FloatRequest::Le(a, b)),
            (lhs, rhs) => Flow::Fail(Error::CannotPerform(Token::LessThan, lhs, rhs)),
        }
    }
}

/// `op` applied to two values.
fn apply_op(op: &Token, lhs: Value, rhs: Value, fl: &mut Floats) -> (r: Flow<Value>)
    ensures
        (r@, final(fl)@) == apply_operator(old(fl)@, op@, lhs@, rhs@),
{
    match op {
        Token::Plus => lhs.add(rhs, fl),
        Token::Minus => lhs.sub(rhs, fl),
        Token::Times => lhs.mul(rhs, fl),
        Token::Div => lhs.div(rhs, fl),
        Token::EqualTo => lhs.eq(rhs, fl),
        Token::BiggerThan => lhs.bigger(rhs, fl),
        Token::LessThan => lhs.less(rhs, fl),
        Token::BiggerOrEqualTo => lhs.be(rhs, fl),
        Token::LessOrEqualTo => lhs.le(rhs, fl),
        _ => Flow::Fail(Error::NotAnOperator(op.clone())),
    }
}

/// `value` converted to the type `ty`; `expr` is the expression that gave it.
fn convert(ty: &SyntaxNode, expr: &SyntaxNode, value: Value, fl: &mut Floats) -> (r: Flow<Value>)
    ensures
        (r@, final(fl)@) == cast_value(old(fl)@, ty@, expr@, value@),
{
    let t = match ty {
        SyntaxNode::Type(Token::Identifier(t)) => t,
        _ => return Flow::Fail(Error::CannotCast(expr.clone(), ty.clone())),
    };
    match value {
        Value::Int(a) => {
            if is_word(t, "string") {
                Flow::Done(Value::String(int_to_text(a)))
            } else if is_word(t, "int") {
                Flow::Done(Value::Int(a))
            } else if is_word(t, "uint") {
                Flow::Done(Value::Uint(a as u64))
            } else if is_word(t, "float") {
                fl.value(FloatRequest::FromInt(a))
            } else {
                Flow::Fail(Error::CannotCast(expr.clone(), ty.clone()))
            }
        },
        Value::Uint(a) => {
            if is_word(t, "int") {
                Flow::Done(Value::Int(a as i64))
            } else if is_word(t, "uint") {
                Flow::Done(Value::Uint(a))
            } else if is_word(t, "float") {
                fl.value(FloatRequest::FromUint(a))
            } else {
                Flow::Fail(Error::CannotCast(expr.clone(), ty.clone()))
            }
        },
        Value::Float(a) => {
            if is_word(t, "int") {
                match fl.next(FloatRequest::ToInt(a)) {
                    Flow::Done(bits) => Flow::Done(Value::Int(bits as i64)),
                    Flow::Fail(e) => Flow::Fail(e),
                    Flow::Halt(h) => Flow::Halt(h),
                }
            } else if is_word(t, "uint") {
                match fl.next(FloatRequest::ToUint(a)) {
                    Flow::Done(bits) => Flow::Done(Value::Uint(bits)),
                    Flow::Fail(e) => Flow::Fail(e),
                    Flow::Halt(h) => Flow::Halt(h),
                }
            } else if is_word(t, "float") {
                Flow::Done(Value::Float(a))
            } else {
                Flow::Fail(Error::CannotCast(expr.clone(), ty.clone()))
            }
        },
        Value::String(s) => {
            if is_word(t, "string") {
                Flow::Done(Value::String(s))
            } else {
                Flow::Fail(Error::CannotCast(expr.clone(), ty.clone()))
            }
        },
        _ => Flow::Fail(Error::CannotCast(expr.clone(), ty.clone())),
    }
}

/// Whether `ty` is the type `void`.
fn void_type(ty: &SyntaxNode) -> (r: bool)
    ensures
        r == is_void(ty@),
{
    match ty {
        SyntaxNode::Type(Token::Identifier(t)) => is_word(t, "void"),
        _ => false,
    }
}

/// The built-in function `println(string str)`.
pub open spec fn println_function() -> SpecFunction {
    SpecFunction {
        name: "println"@,
        return_type: SpecNode::Type(SpecToken::Identifier("void"@)),
        parameters: seq![
            SpecNode::Var(SpecToken::Identifier("str"@), Box::new(SpecNode::Type(SpecToken::Identifier("string"@)))),
        ],
        scope: None,
        callback: Some(Builtin::Println),
    }
}

/// Runs syntax trees: its variables, its functions, the answers to the
/// float operations it may use, and what it has printed.
pub struct Interpreter {
    pub variables: Table<Value>,
    pub functions: Table<Function>,
    pub floats: Floats,
    pub output: Vec<Output>,
}

impl View for Interpreter {
    type V = SpecState;

    open spec fn view(&self) -> SpecState {
        SpecState {
            vars: self.variables@,
            funcs: self.functions@,
            floats: self.floats@,
            output: outputs_view(self.output@),
        }
    }
}

impl Interpreter {
    /// An interpreter that knows the built-in `println` and no variable,
    /// and may use the float answers `answers`.
    pub fn with_float_answers(answers: Vec<u64>) -> (r: Interpreter)
        ensures
            r@.vars == Map::<Seq<char>, SpecValue>::empty(),
            r@.funcs == map![println_function().name => println_function()],
            r@.floats == (SpecFloats { answers: answers@, used: 0 }),
            r@.output == Seq::<SpecOutput>::empty(),
    {
        let name = "println".to_owned();
        let string_type = SyntaxNode::Type(Token::Identifier("string".to_owned()));
        assert(string_type@ == SpecNode::Type(SpecToken::Identifier("string"@)));
        let param = SyntaxNode::Var(Token::Identifier("str".to_owned()), Box::new(string_type));
        let mut parameters = Vec::new();
        parameters.push(param);
        let println = Function {
            name: "println".to_owned(),
            return_type: SyntaxNode::Type(Token::Identifier("void".to_owned())),
            parameters,
            scope: None,
            callback: Some(Builtin::Println),
        };
        proof {
            lemma_nodes_view(println.parameters@);
            assert(println@.parameters =~= println_function().parameters);
        }
        let mut functions = Table::new();
        functions.insert(name, println);
        let r = Interpreter {
            variables: Table::new(),
            functions,
            floats: Floats::new(answers),
            output: Vec::new(),
        };
        assert(r@.funcs =~= map![println_function().name => println_function()]);
        assert(r@.output =~= Seq::<SpecOutput>::empty());
        r
    }

    /// An interpreter that knows the built-in `println` and no variable,
    /// with no float answer.
    pub fn new() -> (r: Interpreter)
        ensures
            r@.vars == Map::<Seq<char>, SpecValue>::empty(),
            r@.funcs == map![println_function().name => println_function()],
            r@.floats == (SpecFloats { answers: Seq::<u64>::empty(), used: 0 }),
            r@.output == Seq::<SpecOutput>::empty(),
    {
        Self::with_float_answers(Vec::new())
    }

    /// Runs a statement (see [`run`]): `Done(None)` where it ends normally,
    /// `Done(Some(r))` where it returns `r`.
    pub fn interprete(&mut self, syntax: &SyntaxNode, fuel: u64) -> (r: Flow<Option<Option<Value>>>)
        ensures
            (r@, final(self)@) == run(fuel as nat, old(self)@, syntax@),
        decreases fuel, 0int,
    {
        if fuel == 0 {
            return Flow::Halt(Halt::Exhausted);
        }
        let f = fuel - 1;
        match syntax {
            SyntaxNode::Scope(instrs) => {
                let outside_vars = self.variables.duplicate_table();
                let outside_funcs = self.functions.duplicate_table();
                self.run_block(f, instrs, 0, &outside_vars, &outside_funcs)
            },
            SyntaxNode::VarDecl(decl) => self.run_var_decl(f, decl),
            SyntaxNode::VarModif(Token::Identifier(name), op, expr) => self.run_var_modif(f, name, op, expr),
            SyntaxNode::FuncDef(def) => self.run_func_def(f, def),
            SyntaxNode::FuncCall(_) => match self.call_function(f, syntax) {
                Flow::Done(_) => Flow::Done(None),
                Flow::Fail(e) => Flow::Fail(e),
                Flow::Halt(h) => Flow::Halt(h),
            },
            SyntaxNode::If(if_stmt) => self.run_if(f, if_stmt),
            SyntaxNode::Return(ret) => self.run_return(f, ret),
            _ => Flow::Halt(Halt::Abort),
        }
    }

    fn run_block(
        &mut self,
        fuel: u64,
        instrs: &Vec<SyntaxNode>,
        i: usize,
        outside_vars: &Table<Value>,
        outside_funcs: &Table<Function>,
    ) -> (r: Flow<Option<Option<Value>>>)
        requires
            i <= instrs.len(),
        ensures
            (r@, final(self)@) == run_block(
                fuel as nat,
                old(self)@,
                nodes_view(instrs@),
                i as int,
                outside_vars@.dom(),
                outside_funcs@.dom(),
            ),
        decreases fuel, instrs.len() + 2 - i,
    {
        proof {
            lemma_nodes_view(instrs@);
        }
        if i >= instrs.len() {
            self.variables.retain_keys_of(outside_vars);
            self.functions.retain_keys_of(outside_funcs);
            return Flow::Done(None);
        }
        match self.interprete(&instrs[i], fuel) {
            Flow::Done(None) => self.run_block(fuel, instrs, i + 1, outside_vars, outside_funcs),
            Flow::Done(Some(v)) => {
                self.variables.retain_keys_of(outside_vars);
                self.functions.retain_keys_of(outside_funcs);
                Flow::Done(Some(v))
            },
            Flow::Fail(e) => Flow::Fail(e),
            Flow::Halt(h) => Flow::Halt(h),
        }
    }

    fn run_var_decl(&mut self, fuel: u64, decl: &Vec<SyntaxNode>) -> (r: Flow<Option<Option<Value>>>)
        ensures
            (r@, final(self)@) == run_var_decl(fuel as nat, old(self)@, nodes_view(decl@)),
        decreases fuel, 2int,
    {
        proof {
            lemma_nodes_view(decl@);
        }
        if decl.len() == 0 {
            return Flow::Halt(Halt::Abort);
        }
        match &decl[0] {
            SyntaxNode::Var(Token::Identifier(name), ty) => {
                if self.variables.contains_key(name) {
                    return Flow::Fail(Error::VariableAlreadyExists(name.clone()));
                }
                if decl.len() < 2 {
                    return Flow::Halt(Halt::Abort);
                }
                match self.cast_expression(fuel, ty, &decl[1]) {
                    Flow::Done(v) => {
                        self.variables.insert(name.clone(), v);
                        Flow::Done(None)
                    },
                    Flow::Fail(e) => Flow::Fail(e),
                    Flow::Halt(h) => Flow::Halt(h),
                }
            },
            var => Flow::Fail(Error::NotAVar(var.clone())),
        }
    }

    fn run_var_modif(&mut self, fuel: u64, name: &String, op: &Token, expr: &SyntaxNode) -> (r: Flow<Option<Option<Value>>>)
        ensures
            (r@, final(self)@) == run_var_modif(fuel as nat, old(self)@, name@, op@, expr@),
        decreases fuel, 2int,
    {
        let value = match self.variables.get(name) {
            Some(v) => v,
            None => return Flow::Fail(Error::UnknownVariable(name.clone())),
        };
        match self.eval_partial_operation(fuel, op, value, expr) {
            Flow::Done(v) => {
                self.variables.insert(name.clone(), v);
                Flow::Done(None)
            },
            Flow::Fail(e) => Flow::Fail(e),
            Flow::Halt(h) => Flow::Halt(h),
        }
    }

    fn run_func_def(&mut self, fuel: u64, def: &Vec<SyntaxNode>) -> (r: Flow<Option<Option<Value>>>)
        ensures
            (r@, final(self)@) == run_func_def(fuel as nat, old(self)@, nodes_view(def@)),
        decreases fuel, 2int,
    {
        proof {
            lemma_nodes_view(def@);
        }
        if def.len() != 4 && def.len() != 5 {
            let ghost before = self.output@;
            self.output.push(Output::Dump(clone_nodes(def)));
            proof {
                lemma_outputs_push(before, self.output@.last());
                assert(self.output@ =~= before.push(self.output@.last()));
            }
            return Flow::Fail(Error::FuncRegisterFailed);
        }
        let name = match &def[0] {
            SyntaxNode::FuncName(Token::Identifier(name)) => name.clone(),
            _ => return Flow::Fail(Error::FuncRegisterFailed),
        };
        let parameters = match &def[1] {
            SyntaxNode::FuncParams(params) => clone_nodes(params),
            _ => return Flow::Fail(Error::FuncRegisterFailed),
        };
        let function = Function {
            name: name.clone(),
            return_type: def[3].clone(),
            parameters,
            scope: Some(def[2].clone()),
            callback: None,
        };
        self.functions.insert(name, function);
        if def.len() == 5 {
            match &def[4] {
                SyntaxNode::FuncHeader(options) => {
                    if options.len() == 0 {
                        return Flow::Done(None);
                    }
                    match &options[0] {
                        Token::Identifier(option) => {
                            if is_word(option, "entry_point") {
                                let no_args = SyntaxNode::FuncArgs(Vec::new());
                                proof {
                                    let empty = Seq::<SyntaxNode>::empty();
                                    assert(nodes_view(empty) =~= Seq::<SpecNode>::empty());
                                    assert(no_args@ == SpecNode::FuncArgs(Seq::empty()));
                                }
                                let mut call_args = Vec::new();
                                call_args.push(def[0].clone());
                                call_args.push(no_args);
                                proof {
                                    lemma_nodes_view(call_args@);
                                    assert(nodes_view(call_args@) =~= seq![
                                        nodes_view(def@)[0],
                                        SpecNode::FuncArgs(Seq::empty()),
                                    ]);
                                }
                                let call = SyntaxNode::FuncCall(call_args);
                                match self.call_function(fuel, &call) {
                                    Flow::Done(v) => Flow::Done(Some(v)),
                                    Flow::Fail(e) => Flow::Fail(e),
                                    Flow::Halt(h) => Flow::Halt(h),
                                }
                            } else {
                                Flow::Fail(Error::NotAnFuncOption(Token::Identifier(option.clone())))
                            }
                        },
                        option => Flow::Fail(Error::NotAnFuncOption(option.clone())),
                    }
                },
                header => Flow::Fail(Error::NotAFuncHeader(header.clone())),
            }
        } else {
            Flow::Done(None)
        }
    }

    fn run_if(&mut self, fuel: u64, if_stmt: &Vec<SyntaxNode>) -> (r: Flow<Option<Option<Value>>>)
        ensures
            (r@, final(self)@) == run_if(fuel as nat, old(self)@, nodes_view(if_stmt@)),
        decreases fuel, 2int,
    {
        proof {
            lemma_nodes_view(if_stmt@);
        }
        if if_stmt.len() == 0 {
            return Flow::Halt(Halt::Abort);
        }
        match self.eval_expression(fuel, &if_stmt[0]) {
            Flow::Done(Value::Bool(true)) => {
                if if_stmt.len() < 2 {
                    Flow::Halt(Halt::Abort)
                } else {
                    self.interprete(&if_stmt[1], fuel)
                }
            },
            Flow::Done(Value::Bool(false)) => {
                if if_stmt.len() <= 2 {
                    Flow::Done(None)
                } else {
                    match &if_stmt[2] {
                        SyntaxNode::Else(body) => self.interprete(body, fuel),
                        other => Flow::Fail(Error::ExpectedElseBranch(other.clone())),
                    }
                }
            },
            Flow::Done(got) => Flow::Fail(Error::ExpectedBool(got)),
            Flow::Fail(e) => Flow::Fail(e),
            Flow::Halt(h) => Flow::Halt(h),
        }
    }

    fn run_return(&mut self, fuel: u64, ret: &Option<Box<SyntaxNode>>) -> (r: Flow<Option<Option<Value>>>)
        ensures
            (r@, final(self)@) == run_return(
                fuel as nat,
                old(self)@,
                match ret {
                    Some(b) => Some(Box::new((**b)@)),
                    None => None,
                },
            ),
        decreases fuel, 2int,
    {
        match ret {
            Some(e) => match self.eval_expression(fuel, e) {
                Flow::Done(v) => Flow::Done(Some(Some(v))),
                Flow::Fail(e) => Flow::Fail(e),
                Flow::Halt(h) => Flow::Halt(h),
            },
            None => Flow::Done(Some(None)),
        }
    }

    /// Calls a function (see [`call`]): the value it returns, if any.
    pub fn call_function(&mut self, fuel: u64, function: &SyntaxNode) -> (r: Flow<Option<Value>>)
        ensures
            (r@, final(self)@) == call(fuel as nat, old(self)@, function@),
        decreases fuel, 0int,
    {
        if fuel == 0 {
            return Flow::Halt(Halt::Exhausted);
        }
        let f = fuel - 1;
        match function {
            SyntaxNode::FuncCall(call_args) => {
                proof {
                    lemma_nodes_view(call_args@);
                }
                if call_args.len() == 0 {
                    return Flow::Halt(Halt::Abort);
                }
                match &call_args[0] {
                    SyntaxNode::FuncName(Token::Identifier(name)) => {
                        if !self.functions.contains_key(name) {
                            return Flow::Fail(Error::UnknownFunction(name.clone()));
                        }
                        if call_args.len() < 2 {
                            return Flow::Halt(Halt::Abort);
                        }
                        let callee = match self.functions.get(name) {
                            Some(c) => c,
                            None => return Flow::Halt(Halt::Abort),
                        };
                        match &call_args[1] {
                            SyntaxNode::FuncArgs(args) => {
                                match self.bind_args(f, args, &callee.parameters, 0, Table::new()) {
                                    Flow::Done(arguments) => self.enter_function(f, name, callee, arguments),
                                    Flow::Fail(e) => Flow::Fail(e),
                                    Flow::Halt(h) => Flow::Halt(h),
                                }
                            },
                            got => Flow::Fail(Error::ExpectedFuncArgs(got.clone())),
                        }
                    },
                    got => Flow::Fail(Error::ExpectedFuncName(got.clone())),
                }
            },
            other => Flow::Fail(Error::NotAFunction(other.clone())),
        }
    }

    fn bind_args(
        &mut self,
        fuel: u64,
        args: &Vec<SyntaxNode>,
        params: &Vec<SyntaxNode>,
        i: usize,
        acc: Table<Value>,
    ) -> (r: Flow<Table<Value>>)
        requires
            i <= args.len(),
        ensures
            (r@, final(self)@) == bind_args(
                fuel as nat,
                old(self)@,
                nodes_view(args@),
                nodes_view(params@),
                i as int,
                acc@,
            ),
        decreases fuel, args.len() + 2 - i,
    {
        proof {
            lemma_nodes_view(args@);
            lemma_nodes_view(params@);
        }
        if i >= args.len() || i >= params.len() {
            return Flow::Done(acc);
        }
        match &params[i] {
            SyntaxNode::Var(Token::Identifier(pname), ptype) => {
                match self.cast_expression(fuel, ptype, &args[i]) {
                    Flow::Done(v) => {
                        let mut acc = acc;
                        acc.insert(pname.clone(), v);
                        self.bind_args(fuel, args, params, i + 1, acc)
                    },
                    Flow::Fail(e) => Flow::Fail(e),
                    Flow::Halt(h) => Flow::Halt(h),
                }
            },
            other => Flow::Fail(Error::ExpectedFuncParam(other.clone())),
        }
    }

    /// The built-in `println`: prints the variable `str` where it is a
    /// string; halts where there is no such variable.
    fn println_callback(&mut self) -> (r: bool)
        ensures
            r == old(self)@.vars.dom().contains("str"@),
            r ==> final(self)@ == println_builtin(old(self)@),
            !r ==> final(self)@ == old(self)@,
    {
        let key = "str".to_owned();
        match self.variables.get(&key) {
            None => false,
            Some(Value::String(s)) => {
                let ghost before = self.output@;
                self.output.push(Output::Line(s));
                proof {
                    lemma_outputs_push(before, self.output@.last());
                }
                true
            },
            Some(_) => true,
        }
    }

    fn enter_function(&mut self, fuel: u64, name: &String, function: Function, arguments: Table<Value>) -> (r: Flow<Option<Value>>)
        ensures
            (r@, final(self)@) == enter_function(fuel as nat, old(self)@, name@, function@, arguments@),
        decreases fuel, 2int,
    {
        let mut outside = arguments;
        std::mem::swap(&mut outside, &mut self.variables);
        match &function.scope {
            None => {
                if function.callback.is_none() {
                    return Flow::Fail(Error::MissingFunction(function));
                }
                if !self.println_callback() {
                    return Flow::Halt(Halt::Abort);
                }
                self.variables.extend(outside);
                finish(name, &function.return_type, Some(None))
            },
            Some(body) => match self.interprete(body, fuel) {
                Flow::Done(ret) => {
                    self.variables.extend(outside);
                    finish(name, &function.return_type, ret)
                },
                Flow::Fail(e) => Flow::Fail(e),
                Flow::Halt(h) => Flow::Halt(h),
            },
        }
    }

    /// Evaluates an expression (see [`eval`]).
    pub fn eval_expression(&mut self, fuel: u64, expression: &SyntaxNode) -> (r: Flow<Value>)
        ensures
            (r@, final(self)@) == eval(fuel as nat, old(self)@, expression@),
        decreases fuel, 0int,
    {
        if fuel == 0 {
            return Flow::Halt(Halt::Exhausted);
        }
        let f = fuel - 1;
        match expression {
            SyntaxNode::ExprLiteral(token) => self.eval_expression_literal(token),
            SyntaxNode::Expr(op, operands) => self.eval_operation(f, op, operands),
            SyntaxNode::ExprCast(c) => {
                proof {
                    lemma_nodes_view(c@);
                }
                if c.len() < 2 {
                    return Flow::Halt(Halt::Abort);
                }
                self.cast_expression(f, &c[0], &c[1])
            },
            SyntaxNode::FuncCall(_) => match self.call_function(f, expression) {
                Flow::Done(Some(v)) => Flow::Done(v),
                Flow::Done(None) => Flow::Fail(Error::VoidInExpression(expression.clone())),
                Flow::Fail(e) => Flow::Fail(e),
                Flow::Halt(h) => Flow::Halt(h),
            },
            other => Flow::Fail(Error::NotAnExpression(other.clone())),
        }
    }

    /// `op` applied to two operands (see [`operation`]).
    pub fn eval_operation(&mut self, fuel: u64, op: &Token, operands: &Vec<SyntaxNode>) -> (r: Flow<Value>)
        ensures
            (r@, final(self)@) == operation(fuel as nat, old(self)@, op@, nodes_view(operands@)),
        decreases fuel, 1int,
    {
        proof {
            lemma_nodes_view(operands@);
        }
        if operands.len() > 2 {
            return Flow::Fail(Error::TooMuchOperands(clone_nodes(operands)));
        }
        if operands.len() < 2 {
            return Flow::Fail(Error::NotEnoughOperand(clone_nodes(operands)));
        }
        let lhs = match self.eval_expression(fuel, &operands[0]) {
            Flow::Done(v) => v,
            Flow::Fail(e) => return Flow::Fail(e),
            Flow::Halt(h) => return Flow::Halt(h),
        };
        let rhs = match self.eval_expression(fuel, &operands[1]) {
            Flow::Done(v) => v,
            Flow::Fail(e) => return Flow::Fail(e),
            Flow::Halt(h) => return Flow::Halt(h),
        };
        apply_op(op, lhs, rhs, &mut self.floats)
    }

    /// `op` applied to a value and an expression (see [`partial_operation`]).
    pub fn eval_partial_operation(&mut self, fuel: u64, op: &Token, lhs: Value, rhs_expr: &SyntaxNode) -> (r: Flow<Value>)
        ensures
            (r@, final(self)@) == partial_operation(fuel as nat, old(self)@, op@, lhs@, rhs_expr@),
        decreases fuel, 1int,
    {
        let rhs = match self.eval_expression(fuel, rhs_expr) {
            Flow::Done(v) => v,
            Flow::Fail(e) => return Flow::Fail(e),
            Flow::Halt(h) => return Flow::Halt(h),
        };
        apply_op(op, lhs, rhs, &mut self.floats)
    }

    /// The value of a literal token (see [`eval_literal`]).
    pub fn eval_expression_literal(&mut self, token: &Token) -> (r: Flow<Value>)
        ensures
            (r@, final(self)@) == eval_literal(old(self)@, token@),
    {
        match token {
            Token::Identifier(name) => match self.variables.get(name) {
                Some(v) => Flow::Done(v),
                None => Flow::Fail(Error::UnknownVariable(name.clone())),
            },
            Token::StringLiteral(s) => Flow::Done(Value::String(s.clone())),
            Token::CharLiteral(c) => Flow::Done(Value::Char(*c)),
            Token::Int(v) => Flow::Done(Value::Int(*v)),
            Token::Uint(v) => Flow::Done(Value::Uint(*v)),
            Token::Float(text) => self.floats.value(FloatRequest::Parse(text.clone())),
            _ => Flow::Fail(Error::NotExpressionLiteral(token.clone())),
        }
    }

    /// The value of `expression` converted to the type `ty` (see [`cast`]).
    pub fn cast_expression(&mut self, fuel: u64, ty: &SyntaxNode, expression: &SyntaxNode) -> (r: Flow<Value>)
        ensures
            (r@, final(self)@) == cast(fuel as nat, old(self)@, ty@, expression@),
        decreases fuel, 1int,
    {
        let value = match self.eval_expression(fuel, expression) {
            Flow::Done(v) => v,
            Flow::Fail(e) => return Flow::Fail(e),
            Flow::Halt(h) => return Flow::Halt(h),
        };
        convert(ty, expression, value, &mut self.floats)
    }

    /// Whether a returned value (`None` for none) has the type `ty`.
    pub fn has_type(ty: &SyntaxNode, value: &Option<Value>) -> (r: bool)
        ensures
            r == spec_has_type(ty@, value.deep_view()),
    {
        match value {
            None => void_type(ty),
            Some(v) => match ty {
                SyntaxNode::Type(Token::Identifier(t)) => match v {
                    Value::Bool(_) => is_word(t, "bool"),
                    Value::Uint(_) => is_word(t, "uint"),
                    Value::Int(_) => is_word(t, "int"),
                    Value::Float(_) => is_word(t, "float"),
                    Value::Char(_) => is_word(t, "char"),
                    Value::String(_) => is_word(t, "string"),
                },
                _ => false,
            },
        }
    }
}

/// The end of a call (see [`finish_call`]).
fn finish(name: &String, return_type: &SyntaxNode, ret: Option<Option<Value>>) -> (r: Flow<Option<Value>>)
    ensures
        r@ == finish_call(name@, return_type@, ret.deep_view()),
{
    match ret {
        None => {
            if !void_type(return_type) {
                Flow::Fail(Error::MissingReturn(name.clone()))
            } else {
                Flow::Done(None)
            }
        },
        Some(inner) => {
            if !Interpreter::has_type(return_type, &inner) {
                match inner {
                    None => Flow::Halt(Halt::Abort),
                    Some(v) => Flow::Fail(Error::ReturnIncompatibleType(v)),
                }
            } else {
                Flow::Done(inner)
            }
        },
    }
}

} // verus!

//! What running a syntax tree does, stated over mathematical values.
//!
//! Each function here is the meaning of one function of the interpreter:
//! it takes the interpreter's state before the step and gives the outcome
//! with the state after it. `fuel` bounds the depth of the run: every
//! statement, expression and call spends one unit, and a run that has none
//! left stops with [`SpecHalt::Exhausted`].
use vstd::prelude::*;
use crate::error::SpecError;
use crate::interpreter::{Builtin, SpecFunction, SpecValue};
use crate::lexer::SpecToken;
use crate::parser::SpecNode;

verus! {

/// A floating-point operation that the run needs done, on the bits of its
/// IEEE 754 double operands.
pub enum SpecFloatRequest {
    /// The double that a float literal spells.
    Parse(Seq<char>),
    Add(u64, u64),
    Sub(u64, u64),
    Mul(u64, u64),
    Div(u64, u64),
    /// Comparisons: the answer is nonzero when the comparison holds.
    Eq(u64, u64),
    Gt(u64, u64),
    Lt(u64, u64),
    Ge(u64, u64),
    Le(u64, u64),
    /// `as f64` of an integer.
    FromInt(i64),
    FromUint(u64),
    /// `as i64` and `as u64` of a double; the answer to `ToInt` is the bits
    /// of the `i64`.
    ToInt(u64),
    ToUint(u64),
}

/// Why a run stopped without a result of the program.
pub enum SpecHalt {
    /// The program makes the interpreter panic: an index out of range, an
    /// overflow, a division by zero, or a statement it does not run.
    Abort,
    /// The fuel ran out.
    Exhausted,
    /// The answers to the float operations ran out; this is the next one.
    NeedFloat(SpecFloatRequest),
}

/// The outcome of a step.
pub enum SFlow<T> {
    Done(T),
    Fail(SpecError),
    Halt(SpecHalt),
}

/// What a run prints: a line of the program, or the nodes of a function
/// definition that could not be registered.
pub enum SpecOutput {
    Line(Seq<char>),
    Dump(Seq<SpecNode>),
}

/// The answers to float operations, and how many have been used.
pub struct SpecFloats {
    pub answers: Seq<u64>,
    pub used: nat,
}

/// The interpreter's state.
pub struct SpecState {
    pub vars: Map<Seq<char>, SpecValue>,
    pub funcs: Map<Seq<char>, SpecFunction>,
    pub floats: SpecFloats,
    pub output: Seq<SpecOutput>,
}

/// The next answer, or a stop that asks for it.
pub open spec fn float_answer(fl: SpecFloats, req: SpecFloatRequest) -> (SFlow<u64>, SpecFloats) {
    if fl.used < fl.answers.len() {
        (SFlow::Done(fl.answers[fl.used as int]), SpecFloats { answers: fl.answers, used: fl.used + 1 })
    } else {
        (SFlow::Halt(SpecHalt::NeedFloat(req)), fl)
    }
}

/// A float operation whose answer is a double.
pub open spec fn float_value(fl: SpecFloats, req: SpecFloatRequest) -> (SFlow<SpecValue>, SpecFloats) {
    let (r, fl1) = float_answer(fl, req);
    (
        match r {
            SFlow::Done(bits) => SFlow::Done(SpecValue::Float(bits)),
            SFlow::Fail(e) => SFlow::Fail(e),
            SFlow::Halt(h) => SFlow::Halt(h),
        },
        fl1,
    )
}

/// A float comparison.
pub open spec fn float_test(fl: SpecFloats, req: SpecFloatRequest) -> (SFlow<SpecValue>, SpecFloats) {
    let (r, fl1) = float_answer(fl, req);
    (
        match r {
            SFlow::Done(bits) => SFlow::Done(SpecValue::Bool(bits != 0)),
            SFlow::Fail(e) => SFlow::Fail(e),
            SFlow::Halt(h) => SFlow::Halt(h),
        },
        fl1,
    )
}

/// An `i64` result, which aborts where it does not fit.
pub open spec fn int_result(x: int) -> SFlow<SpecValue> {
    if i64::MIN <= x <= i64::MAX {
        SFlow::Done(SpecValue::Int(x as i64))
    } else {
        SFlow::Halt(SpecHalt::Abort)
    }
}

/// A `u64` result, which aborts where it does not fit.
pub open spec fn uint_result(x: int) -> SFlow<SpecValue> {
    if 0 <= x <= u64::MAX {
        SFlow::Done(SpecValue::Uint(x as u64))
    } else {
        SFlow::Halt(SpecHalt::Abort)
    }
}

/// Division that rounds toward zero, as Rust's `/` on integers.
pub open spec fn trunc_div(x: int, d: int) -> int {
    if x == 0 {
        0
    } else if x > 0 && d > 0 {
        x / d
    } else if x < 0 && d < 0 {
        (x * -1) / (d * -1)
    } else if x < 0 {
        ((x * -1) / d) * -1
    } else {
        (x / (d * -1)) * -1
    }
}

/// An `i64` quotient: aborts on a zero divisor and where it does not fit.
pub open spec fn int_quotient(x: int, d: int) -> SFlow<SpecValue> {
    if d == 0 {
        SFlow::Halt(SpecHalt::Abort)
    } else {
        int_result(trunc_div(x, d))
    }
}

/// `lhs + rhs`.
pub open spec fn value_add(fl: SpecFloats, lhs: SpecValue, rhs: SpecValue) -> (SFlow<SpecValue>, SpecFloats) {
    match (lhs, rhs) {
        (SpecValue::Int(a), SpecValue::Int(b)) => (int_result(a + b), fl),
        (SpecValue::Int(a), SpecValue::Uint(b)) => (int_result(a + (b as i64)), fl),
        (SpecValue::Uint(a), SpecValue::Int(b)) => (int_result((a as i64) + b), fl),
        (SpecValue::Uint(a), SpecValue::Uint(b)) => (uint_result(a + b), fl),
        (SpecValue::Float(a), SpecValue::Float(b)) => float_value(fl, SpecFloatRequest::Add(a, b)),
        (SpecValue::String(x), SpecValue::String(y)) => (SFlow::Done(SpecValue::String(x + y)), fl),
        (l, r) => (SFlow::Fail(SpecError::CannotPerform(SpecToken::Plus, l, r)), fl),
    }
}

/// `lhs - rhs`.
pub open spec fn value_sub(fl: SpecFloats, lhs: SpecValue, rhs: SpecValue) -> (SFlow<SpecValue>, SpecFloats) {
    match (lhs, rhs) {
        (SpecValue::Int(a), SpecValue::Int(b)) => (int_result(a - b), fl),
        (SpecValue::Int(a), SpecValue::Uint(b)) => (int_result(a - (b as i64)), fl),
        (SpecValue::Uint(a), SpecValue::Int(b)) => (int_result((a as i64) - b), fl),
        (SpecValue::Uint(a), SpecValue::Uint(b)) => (uint_result(a - b), fl),
        (SpecValue::Float(a), SpecValue::Float(b)) => float_value(fl, SpecFloatRequest::Sub(a, b)),
        (l, r) => (SFlow::Fail(SpecError::CannotPerform(SpecToken::Minus, l, r)), fl),
    }
}

/// `lhs * rhs`.
pub open spec fn value_mul(fl: SpecFloats, lhs: SpecValue, rhs: SpecValue) -> (SFlow<SpecValue>, SpecFloats) {
    match (lhs, rhs) {
        (SpecValue::Int(a), SpecValue::Int(b)) => (int_result(a * b), fl),
        (SpecValue::Int(a), SpecValue::Uint(b)) => (int_result(a * (b as i64)), fl),
        (SpecValue::Uint(a), SpecValue::Int(b)) => (int_result((a as i64) * b), fl),
        (SpecValue::Uint(a), SpecValue::Uint(b)) => (uint_result(a * b), fl),
        (SpecValue::Float(a), SpecValue::Float(b)) => float_value(fl, SpecFloatRequest::Mul(a, b)),
        (l, r) => (SFlow::Fail(SpecError::CannotPerform(SpecToken::Times, l, r)), fl),
    }
}

/// `lhs / rhs`.
pub open spec fn value_div(fl: SpecFloats, lhs: SpecValue, rhs: SpecValue) -> (SFlow<SpecValue>, SpecFloats) {
    match (lhs, rhs) {
        (SpecValue::Int(a), SpecValue::Int(b)) => (int_quotient(a as int, b as int), fl),
        (SpecValue::Int(a), SpecValue::Uint(b)) => (int_quotient(a as int, (b as i64) as int), fl),
        (SpecValue::Uint(a), SpecValue::Int(b)) => (int_quotient((a as i64) as int, b as int), fl),
        (SpecValue::Uint(a), SpecValue::Uint(b)) => (
            if b == 0 {
                SFlow::Halt(SpecHalt::Abort)
            } else {
                SFlow::Done(SpecValue::Uint(a / b))
            },
            fl,
        ),
        (SpecValue::Float(a), SpecValue::Float(b)) => float_value(fl, SpecFloatRequest::Div(a, b)),
        (l, r) => (SFlow::Fail(SpecError::CannotPerform(SpecToken::Div, l, r)), fl),
    }
}

/// `lhs == rhs`.
pub open spec fn value_eq(fl: SpecFloats, lhs: SpecValue, rhs: SpecValue) -> (SFlow<SpecValue>, SpecFloats) {
    match (lhs, rhs) {
        (SpecValue::Int(a), SpecValue::Int(b)) => (SFlow::Done(SpecValue::Bool(a == b)), fl),
        (SpecValue::Int(a), SpecValue::Uint(b)) => (SFlow::Done(SpecValue::Bool(a == (b as i64))), fl),
        (SpecValue::Uint(a), SpecValue::Int(b)) => (SFlow::Done(SpecValue::Bool((a as i64) == b)), fl),
        (SpecValue::Uint(a), SpecValue::Uint(b)) => (SFlow::Done(SpecValue::Bool(a == b)), fl),
        (SpecValue::Float(a), SpecValue::Float(b)) => float_test(fl, SpecFloatRequest::Eq(a, b)),
        (SpecValue::String(x), SpecValue::String(y)) => (SFlow::Done(SpecValue::Bool(x == y)), fl),
        (l, r) => (SFlow::Fail(SpecError::CannotPerform(SpecToken::EqualTo, l, r)), fl),
    }
}

/// `lhs > rhs`.
pub open spec fn value_bigger(fl: SpecFloats, lhs: SpecValue, rhs: SpecValue) -> (SFlow<SpecValue>, SpecFloats) {
    match (lhs, rhs) {
        (SpecValue::Int(a), SpecValue::Int(b)) => (SFlow::Done(SpecValue::Bool(a > b)), fl),
        (SpecValue::Int(a), SpecValue::Uint(b)) => (SFlow::Done(SpecValue::Bool(a > (b as i64))), fl),
        (SpecValue::Uint(a), SpecValue::Int(b)) => (SFlow::Done(SpecValue::Bool((a as i64) > b)), fl),
        (SpecValue::Uint(a), SpecValue::Uint(b)) => (SFlow::Done(SpecValue::Bool(a > b)), fl),
        (SpecValue::Float(a), SpecValue::Float(b)) => float_test(fl, SpecFloatRequest::Gt(a, b)),
        (l, r) => (SFlow::Fail(SpecError::CannotPerform(SpecToken::BiggerThan, l, r)), fl),
    }
}

/// `lhs < rhs`.
pub open spec fn value_less(fl: SpecFloats, lhs: SpecValue, rhs: SpecValue) -> (SFlow<SpecValue>, SpecFloats) {
    match (lhs, rhs) {
        (SpecValue::Int(a), SpecValue::Int(b)) => (SFlow::Done(SpecValue::Bool(a < b)), fl),
        (SpecValue::Int(a), SpecValue::Uint(b)) => (SFlow::Done(SpecValue::Bool(a < (b as i64))), fl),
        (SpecValue::Uint(a), SpecValue::Int(b)) => (SFlow::Done(SpecValue::Bool((a as i64) < b)), fl),
        (SpecValue::Uint(a), SpecValue::Uint(b)) => (SFlow::Done(SpecValue::Bool(a < b)), fl),
        (SpecValue::Float(a), SpecValue::Float(b)) => float_test(fl, SpecFloatRequest::Lt(a, b)),
        (l, r) => (SFlow::Fail(SpecError::CannotPerform(SpecToken::LessThan, l, r)), fl),
    }
}

/// `lhs >= rhs`; a refusal names `<`.
pub open spec fn value_be(fl: SpecFloats, lhs: SpecValue, rhs: SpecValue) -> (SFlow<SpecValue>, SpecFloats) {
    match (lhs, rhs) {
        (SpecValue::Int(a), SpecValue::Int(b)) => (SFlow::Done(SpecValue::Bool(a >= b)), fl),
        (SpecValue::Int(a), SpecValue::Uint(b)) => (SFlow::Done(SpecValue::Bool(a >= (b as i64))), fl),
        (SpecValue::Uint(a), SpecValue::Int(b)) => (SFlow::Done(SpecValue::Bool((a as i64) >= b)), fl),
        (SpecValue::Uint(a), SpecValue::Uint(b)) => (SFlow::Done(SpecValue::Bool(a >= b)), fl),
        (SpecValue::Float(a), SpecValue::Float(b)) => float_test(fl, SpecFloatRequest::Ge(a, b)),
        (l, r) => (SFlow::Fail(SpecError::CannotPerform(SpecToken::LessThan, l, r)), fl),
    }
}

/// `lhs <= rhs`; a refusal names `<`.
pub open spec fn value_le(fl: SpecFloats, lhs: SpecValue, rhs: SpecValue) -> (SFlow<SpecValue>, SpecFloats) {
    match (lhs, rhs) {
        (SpecValue::Int(a), SpecValue::Int(b)) => (SFlow::Done(SpecValue::Bool(a <= b)), fl),
        (SpecValue::Int(a), SpecValue::Uint(b)) => (SFlow::Done(SpecValue::Bool(a <= (b as i64))), fl),
        (SpecValue::Uint(a), SpecValue::Int(b)) => (SFlow::Done(SpecValue::Bool((a as i64) <= b)), fl),
        (SpecValue::Uint(a), SpecValue::Uint(b)) => (SFlow::Done(SpecValue::Bool(a <= b)), fl),
        (SpecValue::Float(a), SpecValue::Float(b)) => float_test(fl, SpecFloatRequest::Le(a, b)),
        (l, r) => (SFlow::Fail(SpecError::CannotPerform(SpecToken::LessThan, l, r)), fl),
    }
}

/// The operator `op` applied to two values.
pub open spec fn apply_operator(fl: SpecFloats, op: SpecToken, lhs: SpecValue, rhs: SpecValue) -> (SFlow<SpecValue>, SpecFloats) {
    match op {
        SpecToken::Plus => value_add(fl, lhs, rhs),
        SpecToken::Minus => value_sub(fl, lhs, rhs),
        SpecToken::Times => value_mul(fl, lhs, rhs),
        SpecToken::Div => value_div(fl, lhs, rhs),
        SpecToken::EqualTo => value_eq(fl, lhs, rhs),
        SpecToken::BiggerThan => value_bigger(fl, lhs, rhs),
        SpecToken::LessThan => value_less(fl, lhs, rhs),
        SpecToken::BiggerOrEqualTo => value_be(fl, lhs, rhs),
        SpecToken::LessOrEqualTo => value_le(fl, lhs, rhs),
        _ => (SFlow::Fail(SpecError::NotAnOperator(op)), fl),
    }
}

/// `value` converted to the type `ty`; `expr` is the expression that gave it.
pub open spec fn cast_value(fl: SpecFloats, ty: SpecNode, expr: SpecNode, value: SpecValue) -> (SFlow<SpecValue>, SpecFloats) {
    let refused = SFlow::Fail(SpecError::CannotCast(expr, ty));
    match (value, ty) {
        (SpecValue::Int(a), SpecNode::Type(SpecToken::Identifier(t))) => {
            if t == "string"@ {
                (SFlow::Done(SpecValue::String(crate::text::int_text(a as int))), fl)
            } else if t == "int"@ {
                (SFlow::Done(value), fl)
            } else if t == "uint"@ {
                (SFlow::Done(SpecValue::Uint(a as u64)), fl)
            } else if t == "float"@ {
                float_value(fl, SpecFloatRequest::FromInt(a))
            } else {
                (refused, fl)
            }
        },
        (SpecValue::Uint(a), SpecNode::Type(SpecToken::Identifier(t))) => {
            if t == "int"@ {
                (SFlow::Done(SpecValue::Int(a as i64)), fl)
            } else if t == "uint"@ {
                (SFlow::Done(value), fl)
            } else if t == "float"@ {
                float_value(fl, SpecFloatRequest::FromUint(a))
            } else {
                (refused, fl)
            }
        },
        (SpecValue::Float(a), SpecNode::Type(SpecToken::Identifier(t))) => {
            if t == "int"@ {
                let (r, fl1) = float_answer(fl, SpecFloatRequest::ToInt(a));
                (
                    match r {
                        SFlow::Done(bits) => SFlow::Done(SpecValue::Int(bits as i64)),
                        SFlow::Fail(e) => SFlow::Fail(e),
                        SFlow::Halt(h) => SFlow::Halt(h),
                    },
                    fl1,
                )
            } else if t == "uint"@ {
                let (r, fl1) = float_answer(fl, SpecFloatRequest::ToUint(a));
                (
                    match r {
                        SFlow::Done(bits) => SFlow::Done(SpecValue::Uint(bits)),
                        SFlow::Fail(e) => SFlow::Fail(e),
                        SFlow::Halt(h) => SFlow::Halt(h),
                    },
                    fl1,
                )
            } else if t == "float"@ {
                (SFlow::Done(value), fl)
            } else {
                (refused, fl)
            }
        },
        (SpecValue::String(s), SpecNode::Type(SpecToken::Identifier(t))) => {
            if t == "string"@ {
                (SFlow::Done(SpecValue::String(s)), fl)
            } else {
                (refused, fl)
            }
        },
        _ => (refused, fl),
    }
}

/// Whether `ty` is the type `void`.
pub open spec fn is_void(ty: SpecNode) -> bool {
    ty == SpecNode::Type(SpecToken::Identifier("void"@))
}

/// Whether a returned value (`None` for none) has the type `ty`.
pub open spec fn spec_has_type(ty: SpecNode, value: Option<SpecValue>) -> bool {
    match value {
        None => is_void(ty),
        Some(v) => match ty {
            SpecNode::Type(SpecToken::Identifier(t)) => match v {
                SpecValue::Bool(_) => t == "bool"@,
                SpecValue::Uint(_) => t == "uint"@,
                SpecValue::Int(_) => t == "int"@,
                SpecValue::Float(_) => t == "float"@,
                SpecValue::Char(_) => t == "char"@,
                SpecValue::String(_) => t == "string"@,
            },
            _ => false,
        },
    }
}

/// `st` with the floats `fl`.
pub open spec fn with_floats(st: SpecState, fl: SpecFloats) -> SpecState {
    SpecState { vars: st.vars, funcs: st.funcs, floats: fl, output: st.output }
}

/// `st` with the variables `vars`.
pub open spec fn with_vars(st: SpecState, vars: Map<Seq<char>, SpecValue>) -> SpecState {
    SpecState { vars, funcs: st.funcs, floats: st.floats, output: st.output }
}

/// The value of a literal token.
pub open spec fn eval_literal(st: SpecState, token: SpecToken) -> (SFlow<SpecValue>, SpecState) {
    match token {
        SpecToken::Identifier(name) => {
            if st.vars.dom().contains(name) {
                (SFlow::Done(st.vars[name]), st)
            } else {
                (SFlow::Fail(SpecError::UnknownVariable(name)), st)
            }
        },
        SpecToken::StringLiteral(s) => (SFlow::Done(SpecValue::String(s)), st),
        SpecToken::CharLiteral(c) => (SFlow::Done(SpecValue::Char(c)), st),
        SpecToken::Int(v) => (SFlow::Done(SpecValue::Int(v)), st),
        SpecToken::Uint(v) => (SFlow::Done(SpecValue::Uint(v)), st),
        SpecToken::Float(text) => {
            let (r, fl) = float_value(st.floats, SpecFloatRequest::Parse(text));
            (r, with_floats(st, fl))
        },
        _ => (SFlow::Fail(SpecError::NotExpressionLiteral(token)), st),
    }
}

/// Leaving a scope: only the names that were there on entry stay.
pub open spec fn leave_scope(st: SpecState, vars: Set<Seq<char>>, funcs: Set<Seq<char>>) -> SpecState {
    SpecState { vars: st.vars.restrict(vars), funcs: st.funcs.restrict(funcs), floats: st.floats, output: st.output }
}

/// The built-in `println`: prints the variable `str` where it is a string.
pub open spec fn println_builtin(st: SpecState) -> SpecState {
    match st.vars["str"@] {
        SpecValue::String(s) => SpecState {
            vars: st.vars,
            funcs: st.funcs,
            floats: st.floats,
            output: st.output.push(SpecOutput::Line(s)),
        },
        _ => st,
    }
}

/// The end of a call: the returned value checked against the return type.
/// `ret` is `None` where the body ended without a `return`.
pub open spec fn finish_call(name: Seq<char>, return_type: SpecNode, ret: Option<Option<SpecValue>>) -> SFlow<Option<SpecValue>> {
    match ret {
        None => {
            if !is_void(return_type) {
                SFlow::Fail(SpecError::MissingReturn(name))
            } else {
                SFlow::Done(None)
            }
        },
        Some(inner) => {
            if !spec_has_type(return_type, inner) {
                match inner {
                    None => SFlow::Halt(SpecHalt::Abort),
                    Some(v) => SFlow::Fail(SpecError::ReturnIncompatibleType(v)),
                }
            } else {
                SFlow::Done(inner)
            }
        },
    }
}

/// Runs a statement: `Done(None)` where it ends normally, `Done(Some(r))`
/// where it returns `r` (`None` for a `return` without a value).
pub open spec fn run(fuel: nat, st: SpecState, node: SpecNode) -> (SFlow<Option<Option<SpecValue>>>, SpecState)
    decreases fuel, 0int,
{
    if fuel == 0 {
        (SFlow::Halt(SpecHalt::Exhausted), st)
    } else {
        let f = (fuel - 1) as nat;
        match node {
            SpecNode::Scope(instrs) => run_block(f, st, instrs, 0, st.vars.dom(), st.funcs.dom()),
            SpecNode::VarDecl(decl) => run_var_decl(f, st, decl),
            SpecNode::VarModif(SpecToken::Identifier(name), op, expr) => run_var_modif(f, st, name, op, *expr),
            SpecNode::FuncDef(def) => run_func_def(f, st, def),
            SpecNode::FuncCall(_) => {
                let (r, st1) = call(f, st, node);
                (
                    match r {
                        SFlow::Done(_) => SFlow::Done(None),
                        SFlow::Fail(e) => SFlow::Fail(e),
                        SFlow::Halt(h) => SFlow::Halt(h),
                    },
                    st1,
                )
            },
            SpecNode::If(if_stmt) => run_if(f, st, if_stmt),
            SpecNode::Return(ret) => run_return(f, st, ret),
            _ => (SFlow::Halt(SpecHalt::Abort), st),
        }
    }
}

/// Runs the statements of a scope from the `i`-th on; `vars` and `funcs`
/// are the names known on entry.
pub open spec fn run_block(fuel: nat, st: SpecState, instrs: Seq<SpecNode>, i: int, vars: Set<Seq<char>>, funcs: Set<Seq<char>>) -> (SFlow<Option<Option<SpecValue>>>, SpecState)
    decreases fuel, instrs.len() + 2 - i,
{
    if i < 0 || i >= instrs.len() {
        (SFlow::Done(None), leave_scope(st, vars, funcs))
    } else {
        let (r, st1) = run(fuel, st, instrs[i]);
        match r {
            SFlow::Done(None) => run_block(fuel, st1, instrs, i + 1, vars, funcs),
            SFlow::Done(Some(v)) => (SFlow::Done(Some(v)), leave_scope(st1, vars, funcs)),
            SFlow::Fail(e) => (SFlow::Fail(e), st1),
            SFlow::Halt(h) => (SFlow::Halt(h), st1),
        }
    }
}

/// A variable declaration `[Var(name, type), expr]`.
pub open spec fn run_var_decl(fuel: nat, st: SpecState, decl: Seq<SpecNode>) -> (SFlow<Option<Option<SpecValue>>>, SpecState)
    decreases fuel, 2int,
{
    if decl.len() == 0 {
        (SFlow::Halt(SpecHalt::Abort), st)
    } else {
        match decl[0] {
            SpecNode::Var(SpecToken::Identifier(name), ty) => {
                if st.vars.dom().contains(name) {
                    (SFlow::Fail(SpecError::VariableAlreadyExists(name)), st)
                } else if decl.len() < 2 {
                    (SFlow::Halt(SpecHalt::Abort), st)
                } else {
                    let (r, st1) = cast(fuel, st, *ty, decl[1]);
                    match r {
                        SFlow::Done(v) => (SFlow::Done(None), with_vars(st1, st1.vars.insert(name, v))),
                        SFlow::Fail(e) => (SFlow::Fail(e), st1),
                        SFlow::Halt(h) => (SFlow::Halt(h), st1),
                    }
                }
            },
            var => (SFlow::Fail(SpecError::NotAVar(var)), st),
        }
    }
}

/// `name op= expr`.
pub open spec fn run_var_modif(fuel: nat, st: SpecState, name: Seq<char>, op: SpecToken, expr: SpecNode) -> (SFlow<Option<Option<SpecValue>>>, SpecState)
    decreases fuel, 2int,
{
    if !st.vars.dom().contains(name) {
        (SFlow::Fail(SpecError::UnknownVariable(name)), st)
    } else {
        let (r, st1) = partial_operation(fuel, st, op, st.vars[name], expr);
        match r {
            SFlow::Done(v) => (SFlow::Done(None), with_vars(st1, st1.vars.insert(name, v))),
            SFlow::Fail(e) => (SFlow::Fail(e), st1),
            SFlow::Halt(h) => (SFlow::Halt(h), st1),
        }
    }
}

/// A function definition `[FuncName, FuncParams, body, return type]`, with
/// a fifth node, its header, where it has one.
pub open spec fn run_func_def(fuel: nat, st: SpecState, def: Seq<SpecNode>) -> (SFlow<Option<Option<SpecValue>>>, SpecState)
    decreases fuel, 2int,
{
    if def.len() != 4 && def.len() != 5 {
        (
            SFlow::Fail(SpecError::FuncRegisterFailed),
            SpecState { vars: st.vars, funcs: st.funcs, floats: st.floats, output: st.output.push(SpecOutput::Dump(def)) },
        )
    } else {
        match def[0] {
            SpecNode::FuncName(SpecToken::Identifier(name)) => match def[1] {
                SpecNode::FuncParams(params) => {
                    let function = SpecFunction {
                        name,
                        return_type: def[3],
                        parameters: params,
                        scope: Some(def[2]),
                        callback: None,
                    };
                    let st1 = SpecState { vars: st.vars, funcs: st.funcs.insert(name, function), floats: st.floats, output: st.output };
                    if def.len() == 5 {
                        match def[4] {
                            SpecNode::FuncHeader(options) => {
                                if options.len() == 0 {
                                    (SFlow::Done(None), st1)
                                } else {
                                    match options[0] {
                                        SpecToken::Identifier(o) => {
                                            if o == "entry_point"@ {
                                                let (r, st2) = call(fuel, st1, SpecNode::FuncCall(seq![def[0], SpecNode::FuncArgs(Seq::empty())]));
                                                (
                                                    match r {
                                                        SFlow::Done(v) => SFlow::Done(Some(v)),
                                                        SFlow::Fail(e) => SFlow::Fail(e),
                                                        SFlow::Halt(h) => SFlow::Halt(h),
                                                    },
                                                    st2,
                                                )
                                            } else {
                                                (SFlow::Fail(SpecError::NotAnFuncOption(SpecToken::Identifier(o))), st1)
                                            }
                                        },
                                        option => (SFlow::Fail(SpecError::NotAnFuncOption(option)), st1),
                                    }
                                }
                            },
                            header => (SFlow::Fail(SpecError::NotAFuncHeader(header)), st1),
                        }
                    } else {
                        (SFlow::Done(None), st1)
                    }
                },
                _ => (SFlow::Fail(SpecError::FuncRegisterFailed), st),
            },
            _ => (SFlow::Fail(SpecError::FuncRegisterFailed), st),
        }
    }
}

/// `[condition, then-scope]`, with an `Else` third where there is one.
pub open spec fn run_if(fuel: nat, st: SpecState, if_stmt: Seq<SpecNode>) -> (SFlow<Option<Option<SpecValue>>>, SpecState)
    decreases fuel, 2int,
{
    if if_stmt.len() == 0 {
        (SFlow::Halt(SpecHalt::Abort), st)
    } else {
        let (c, st1) = eval(fuel, st, if_stmt[0]);
        match c {
            SFlow::Done(SpecValue::Bool(true)) => {
                if if_stmt.len() < 2 {
                    (SFlow::Halt(SpecHalt::Abort), st1)
                } else {
                    run(fuel, st1, if_stmt[1])
                }
            },
            SFlow::Done(SpecValue::Bool(false)) => {
                if if_stmt.len() <= 2 {
                    (SFlow::Done(None), st1)
                } else {
                    match if_stmt[2] {
                        SpecNode::Else(body) => run(fuel, st1, *body),
                        other => (SFlow::Fail(SpecError::ExpectedElseBranch(other)), st1),
                    }
                }
            },
            SFlow::Done(got) => (SFlow::Fail(SpecError::ExpectedBool(got)), st1),
            SFlow::Fail(e) => (SFlow::Fail(e), st1),
            SFlow::Halt(h) => (SFlow::Halt(h), st1),
        }
    }
}

/// `return` with or without a value.
pub open spec fn run_return(fuel: nat, st: SpecState, ret: Option<Box<SpecNode>>) -> (SFlow<Option<Option<SpecValue>>>, SpecState)
    decreases fuel, 2int,
{
    match ret {
        Some(e) => {
            let (r, st1) = eval(fuel, st, *e);
            (
                match r {
                    SFlow::Done(v) => SFlow::Done(Some(Some(v))),
                    SFlow::Fail(e) => SFlow::Fail(e),
                    SFlow::Halt(h) => SFlow::Halt(h),
                },
                st1,
            )
        },
        None => (SFlow::Done(Some(None)), st),
    }
}

/// Calls a function: `[FuncName, FuncArgs]`.
pub open spec fn call(fuel: nat, st: SpecState, node: SpecNode) -> (SFlow<Option<SpecValue>>, SpecState)
    decreases fuel, 0int,
{
    if fuel == 0 {
        (SFlow::Halt(SpecHalt::Exhausted), st)
    } else {
        let f = (fuel - 1) as nat;
        match node {
            SpecNode::FuncCall(call_args) => {
                if call_args.len() == 0 {
                    (SFlow::Halt(SpecHalt::Abort), st)
                } else {
                    match call_args[0] {
                        SpecNode::FuncName(SpecToken::Identifier(name)) => {
                            if !st.funcs.dom().contains(name) {
                                (SFlow::Fail(SpecError::UnknownFunction(name)), st)
                            } else if call_args.len() < 2 {
                                (SFlow::Halt(SpecHalt::Abort), st)
                            } else {
                                let function = st.funcs[name];
                                match call_args[1] {
                                    SpecNode::FuncArgs(args) => {
                                        let (r, st1) = bind_args(f, st, args, function.parameters, 0, Map::empty());
                                        match r {
                                            SFlow::Done(arguments) => enter_function(f, st1, name, function, arguments),
                                            SFlow::Fail(e) => (SFlow::Fail(e), st1),
                                            SFlow::Halt(h) => (SFlow::Halt(h), st1),
                                        }
                                    },
                                    got => (SFlow::Fail(SpecError::ExpectedFuncArgs(got)), st),
                                }
                            }
                        },
                        got => (SFlow::Fail(SpecError::ExpectedFuncName(got)), st),
                    }
                }
            },
            other => (SFlow::Fail(SpecError::NotAFunction(other)), st),
        }
    }
}

/// Evaluates the arguments from the `i`-th on, each converted to the type
/// of its parameter, into `acc`; extra arguments or parameters are ignored.
pub open spec fn bind_args(fuel: nat, st: SpecState, args: Seq<SpecNode>, params: Seq<SpecNode>, i: int, acc: Map<Seq<char>, SpecValue>) -> (SFlow<Map<Seq<char>, SpecValue>>, SpecState)
    decreases fuel, args.len() + 2 - i,
{
    if i < 0 || i >= args.len() || i >= params.len() {
        (SFlow::Done(acc), st)
    } else {
        match params[i] {
            SpecNode::Var(SpecToken::Identifier(pname), ptype) => {
                let (r, st1) = cast(fuel, st, *ptype, args[i]);
                match r {
                    SFlow::Done(v) => bind_args(fuel, st1, args, params, i + 1, acc.insert(pname, v)),
                    SFlow::Fail(e) => (SFlow::Fail(e), st1),
                    SFlow::Halt(h) => (SFlow::Halt(h), st1),
                }
            },
            other => (SFlow::Fail(SpecError::ExpectedFuncParam(other)), st),
        }
    }
}

/// Runs the body of `function` with the variables `arguments`, then gives
/// the caller's variables back (the arguments stay where the caller has no
/// variable of their name).
pub open spec fn enter_function(fuel: nat, st: SpecState, name: Seq<char>, function: SpecFunction, arguments: Map<Seq<char>, SpecValue>) -> (SFlow<Option<SpecValue>>, SpecState)
    decreases fuel, 2int,
{
    let outside = st.vars;
    let st1 = with_vars(st, arguments);
    match function.scope {
        None => match function.callback {
            None => (SFlow::Fail(SpecError::MissingFunction(function)), st1),
            Some(Builtin::Println) => {
                if !st1.vars.dom().contains("str"@) {
                    (SFlow::Halt(SpecHalt::Abort), st1)
                } else {
                    let st2 = println_builtin(st1);
                    (finish_call(name, function.return_type, Some(None)), with_vars(st2, st2.vars.union_prefer_right(outside)))
                }
            },
        },
        Some(body) => {
            let (r, st2) = run(fuel, st1, body);
            match r {
                SFlow::Done(ret) => (finish_call(name, function.return_type, ret), with_vars(st2, st2.vars.union_prefer_right(outside))),
                SFlow::Fail(e) => (SFlow::Fail(e), st2),
                SFlow::Halt(h) => (SFlow::Halt(h), st2),
            }
        },
    }
}

/// Evaluates an expression.
pub open spec fn eval(fuel: nat, st: SpecState, expr: SpecNode) -> (SFlow<SpecValue>, SpecState)
    decreases fuel, 0int,
{
    if fuel == 0 {
        (SFlow::Halt(SpecHalt::Exhausted), st)
    } else {
        let f = (fuel - 1) as nat;
        match expr {
            SpecNode::ExprLiteral(t) => eval_literal(st, t),
            SpecNode::Expr(op, operands) => operation(f, st, op, operands),
            SpecNode::ExprCast(c) => {
                if c.len() < 2 {
                    (SFlow::Halt(SpecHalt::Abort), st)
                } else {
                    cast(f, st, c[0], c[1])
                }
            },
            SpecNode::FuncCall(_) => {
                let (r, st1) = call(f, st, expr);
                (
                    match r {
                        SFlow::Done(Some(v)) => SFlow::Done(v),
                        SFlow::Done(None) => SFlow::Fail(SpecError::VoidInExpression(expr)),
                        SFlow::Fail(e) => SFlow::Fail(e),
                        SFlow::Halt(h) => SFlow::Halt(h),
                    },
                    st1,
                )
            },
            other => (SFlow::Fail(SpecError::NotAnExpression(other)), st),
        }
    }
}

/// `op` applied to two operands.
pub open spec fn operation(fuel: nat, st: SpecState, op: SpecToken, operands: Seq<SpecNode>) -> (SFlow<SpecValue>, SpecState)
    decreases fuel, 1int,
{
    if operands.len() > 2 {
        (SFlow::Fail(SpecError::TooMuchOperands(operands)), st)
    } else if operands.len() < 2 {
        (SFlow::Fail(SpecError::NotEnoughOperand(operands)), st)
    } else {
        let (l, st1) = eval(fuel, st, operands[0]);
        match l {
            SFlow::Done(lhs) => {
                let (r, st2) = eval(fuel, st1, operands[1]);
                match r {
                    SFlow::Done(rhs) => {
                        let (o, fl) = apply_operator(st2.floats, op, lhs, rhs);
                        (o, with_floats(st2, fl))
                    },
                    SFlow::Fail(e) => (SFlow::Fail(e), st2),
                    SFlow::Halt(h) => (SFlow::Halt(h), st2),
                }
            },
            SFlow::Fail(e) => (SFlow::Fail(e), st1),
            SFlow::Halt(h) => (SFlow::Halt(h), st1),
        }
    }
}

/// `op` applied to a value and an expression.
pub open spec fn partial_operation(fuel: nat, st: SpecState, op: SpecToken, lhs: SpecValue, rhs_expr: SpecNode) -> (SFlow<SpecValue>, SpecState)
    decreases fuel, 1int,
{
    let (r, st1) = eval(fuel, st, rhs_expr);
    match r {
        SFlow::Done(rhs) => {
            let (o, fl) = apply_operator(st1.floats, op, lhs, rhs);
            (o, with_floats(st1, fl))
        },
        SFlow::Fail(e) => (SFlow::Fail(e), st1),
        SFlow::Halt(h) => (SFlow::Halt(h), st1),
    }
}

/// The value of `expr` converted to the type `ty`.
pub open spec fn cast(fuel: nat, st: SpecState, ty: SpecNode, expr: SpecNode) -> (SFlow<SpecValue>, SpecState)
    decreases fuel, 1int,
{
    let (r, st1) = eval(fuel, st, expr);
    match r {
        SFlow::Done(v) => {
            let (o, fl) = cast_value(st1.floats, ty, expr, v);
            (o, with_floats(st1, fl))
        },
        SFlow::Fail(e) => (SFlow::Fail(e), st1),
        SFlow::Halt(h) => (SFlow::Halt(h), st1),
    }
}

} // verus!

verus! {

/// Whether a step that ended with `r` asked for a float answer.
pub open spec fn asks_float<T>(r: SFlow<T>) -> bool {
    r matches SFlow::Halt(SpecHalt::NeedFloat(_))
}

/// No more float answers used than given.
pub open spec fn floats_valid(st: SpecState) -> bool {
    st.floats.used <= st.floats.answers.len()
}

/// From `st` to `st1`, the float answers are the same and are used in
/// order, and a step asks for one (`asked`) only when all are used.
pub open spec fn floats_in_order(st: SpecState, asked: bool, st1: SpecState) -> bool {
    &&& st1.floats.answers == st.floats.answers
    &&& st.floats.used <= st1.floats.used <= st1.floats.answers.len()
    &&& asked ==> st1.floats.used == st1.floats.answers.len()
}

/// Every variable and function known in `st` is still known in `st1`.
pub open spec fn names_kept(st: SpecState, st1: SpecState) -> bool {
    st.vars.dom().subset_of(st1.vars.dom()) && st.funcs.dom().subset_of(st1.funcs.dom())
}

/// Every variable of `st` has the same value in `st1`, and every function
/// is still known.
pub open spec fn values_kept(st: SpecState, st1: SpecState) -> bool {
    st.vars.submap_of(st1.vars) && st.funcs.dom().subset_of(st1.funcs.dom())
}

proof fn lemma_floats_answer(fl: SpecFloats, req: SpecFloatRequest)
    ensures
        fl.used <= fl.answers.len() ==> {
            &&& float_answer(fl, req).1.answers == fl.answers
            &&& fl.used <= float_answer(fl, req).1.used <= fl.answers.len()
            &&& asks_float(float_answer(fl, req).0) ==> float_answer(fl, req).1.used == fl.answers.len()
        },
{
}

proof fn lemma_values_kept_trans(a: SpecState, b: SpecState, c: SpecState)
    requires
        values_kept(a, b),
        values_kept(b, c),
    ensures
        values_kept(a, c),
{
    assert(a.vars.submap_of(b.vars));
    assert(b.vars.submap_of(c.vars));
    assert forall|k: Seq<char>| #[trigger] a.vars.dom().contains(k) implies c.vars.dom().contains(k)
        && a.vars[k] == c.vars[k] by {
        assert(b.vars.dom().contains(k));
        assert(c.vars.dom().contains(k));
        assert(a.vars[k] == b.vars[k]);
        assert(b.vars[k] == c.vars[k]);
    }
}

proof fn lemma_apply_operator(fl: SpecFloats, op: SpecToken, lhs: SpecValue, rhs: SpecValue)
    ensures
        fl.used <= fl.answers.len() ==> {
            &&& apply_operator(fl, op, lhs, rhs).1.answers == fl.answers
            &&& fl.used <= apply_operator(fl, op, lhs, rhs).1.used <= fl.answers.len()
            &&& asks_float(apply_operator(fl, op, lhs, rhs).0) ==> apply_operator(fl, op, lhs, rhs).1.used
            == fl.answers.len()
        },
{
    match op {
        SpecToken::Plus => assert(apply_operator(fl, op, lhs, rhs) == value_add(fl, lhs, rhs)),
        SpecToken::Minus => assert(apply_operator(fl, op, lhs, rhs) == value_sub(fl, lhs, rhs)),
        SpecToken::Times => assert(apply_operator(fl, op, lhs, rhs) == value_mul(fl, lhs, rhs)),
        SpecToken::Div => assert(apply_operator(fl, op, lhs, rhs) == value_div(fl, lhs, rhs)),
        SpecToken::EqualTo => assert(apply_operator(fl, op, lhs, rhs) == value_eq(fl, lhs, rhs)),
        SpecToken::BiggerThan => assert(apply_operator(fl, op, lhs, rhs) == value_bigger(fl, lhs, rhs)),
        SpecToken::LessThan => assert(apply_operator(fl, op, lhs, rhs) == value_less(fl, lhs, rhs)),
        SpecToken::BiggerOrEqualTo => assert(apply_operator(fl, op, lhs, rhs) == value_be(fl, lhs, rhs)),
        SpecToken::LessOrEqualTo => assert(apply_operator(fl, op, lhs, rhs) == value_le(fl, lhs, rhs)),
        _ => {},
    }
}

proof fn lemma_cast_value(fl: SpecFloats, ty: SpecNode, expr: SpecNode, value: SpecValue)
    ensures
        fl.used <= fl.answers.len() ==> {
            &&& cast_value(fl, ty, expr, value).1.answers == fl.answers
            &&& fl.used <= cast_value(fl, ty, expr, value).1.used <= fl.answers.len()
            &&& asks_float(cast_value(fl, ty, expr, value).0) ==> cast_value(fl, ty, expr, value).1.used
            == fl.answers.len()
        },
{
}

proof fn lemma_run(fuel: nat, st: SpecState, node: SpecNode)
    ensures
        floats_valid(st) ==> floats_in_order(st, asks_float(run(fuel, st, node).0), run(fuel, st, node).1),
        run(fuel, st, node).0 is Done ==> names_kept(st, run(fuel, st, node).1),
    decreases fuel, 0int,
{
    if fuel > 0 {
        let f = (fuel - 1) as nat;
        match node {
            SpecNode::Scope(instrs) => lemma_run_block(f, st, instrs, 0, st.vars.dom(), st.funcs.dom()),
            SpecNode::VarDecl(decl) => lemma_run_var_decl(f, st, decl),
            SpecNode::VarModif(SpecToken::Identifier(name), op, expr) => lemma_run_var_modif(f, st, name, op, *expr),
            SpecNode::FuncDef(def) => lemma_run_func_def(f, st, def),
            SpecNode::FuncCall(_) => lemma_call(f, st, node),
            SpecNode::If(if_stmt) => lemma_run_if(f, st, if_stmt),
            SpecNode::Return(ret) => lemma_run_return(f, st, ret),
            _ => {},
        }
    }
}

proof fn lemma_run_block(fuel: nat, st: SpecState, instrs: Seq<SpecNode>, i: int, vars: Set<Seq<char>>, funcs: Set<Seq<char>>)
    requires
        vars.subset_of(st.vars.dom()),
        funcs.subset_of(st.funcs.dom()),
    ensures
        floats_valid(st) ==> floats_in_order(st, asks_float(run_block(fuel, st, instrs, i, vars, funcs).0), run_block(fuel, st, instrs, i, vars, funcs).1),
        run_block(fuel, st, instrs, i, vars, funcs).0 is Done ==> {
            &&& run_block(fuel, st, instrs, i, vars, funcs).1.vars.dom() == vars
            &&& run_block(fuel, st, instrs, i, vars, funcs).1.funcs.dom() == funcs
        },
    decreases fuel, instrs.len() + 2 - i,
{
    if i < 0 || i >= instrs.len() {
        assert(st.vars.restrict(vars).dom() =~= vars);
        assert(st.funcs.restrict(funcs).dom() =~= funcs);
    } else {
        lemma_run(fuel, st, instrs[i]);
        let (r, st1) = run(fuel, st, instrs[i]);
        match r {
            SFlow::Done(None) => lemma_run_block(fuel, st1, instrs, i + 1, vars, funcs),
            SFlow::Done(Some(_)) => {
                assert(st1.vars.restrict(vars).dom() =~= vars);
                assert(st1.funcs.restrict(funcs).dom() =~= funcs);
            },
            _ => {},
        }
    }
}

proof fn lemma_run_var_decl(fuel: nat, st: SpecState, decl: Seq<SpecNode>)
    ensures
        floats_valid(st) ==> floats_in_order(st, asks_float(run_var_decl(fuel, st, decl).0), run_var_decl(fuel, st, decl).1),
        run_var_decl(fuel, st, decl).0 is Done ==> names_kept(st, run_var_decl(fuel, st, decl).1),
    decreases fuel, 2int,
{
    if decl.len() > 0 {
        match decl[0] {
            SpecNode::Var(SpecToken::Identifier(name), ty) => {
                if !st.vars.dom().contains(name) && decl.len() >= 2 {
                    lemma_cast(fuel, st, *ty, decl[1]);
                }
            },
            _ => {},
        }
    }
}

proof fn lemma_run_var_modif(fuel: nat, st: SpecState, name: Seq<char>, op: SpecToken, expr: SpecNode)
    ensures
        floats_valid(st) ==> floats_in_order(st, asks_float(run_var_modif(fuel, st, name, op, expr).0), run_var_modif(fuel, st, name, op, expr).1),
        run_var_modif(fuel, st, name, op, expr).0 is Done ==> names_kept(st, run_var_modif(fuel, st, name, op, expr).1),
    decreases fuel, 2int,
{
    if st.vars.dom().contains(name) {
        lemma_partial_operation(fuel, st, op, st.vars[name], expr);
    }
}

proof fn lemma_run_func_def(fuel: nat, st: SpecState, def: Seq<SpecNode>)
    ensures
        floats_valid(st) ==> floats_in_order(st, asks_float(run_func_def(fuel, st, def).0), run_func_def(fuel, st, def).1),
        run_func_def(fuel, st, def).0 is Done ==> names_kept(st, run_func_def(fuel, st, def).1),
    decreases fuel, 2int,
{
    if def.len() == 4 || def.len() == 5 {
        match def[0] {
            SpecNode::FuncName(SpecToken::Identifier(name)) => match def[1] {
                SpecNode::FuncParams(params) => {
                    let function = SpecFunction {
                        name,
                        return_type: def[3],
                        parameters: params,
                        scope: Some(def[2]),
                        callback: None,
                    };
                    let st1 = SpecState { vars: st.vars, funcs: st.funcs.insert(name, function), floats: st.floats, output: st.output };
                    if def.len() == 5 {
                        match def[4] {
                            SpecNode::FuncHeader(options) => {
                                if options.len() > 0 {
                                    match options[0] {
                                        SpecToken::Identifier(o) => {
                                            if o == "entry_point"@ {
                                                lemma_call(fuel, st1, SpecNode::FuncCall(seq![def[0], SpecNode::FuncArgs(Seq::empty())]));
                                            }
                                        },
                                        _ => {},
                                    }
                                }
                            },
                            _ => {},
                        }
                    }
                },
                _ => {},
            },
            _ => {},
        }
    }
}

proof fn lemma_run_if(fuel: nat, st: SpecState, if_stmt: Seq<SpecNode>)
    ensures
        floats_valid(st) ==> floats_in_order(st, asks_float(run_if(fuel, st, if_stmt).0), run_if(fuel, st, if_stmt).1),
        run_if(fuel, st, if_stmt).0 is Done ==> names_kept(st, run_if(fuel, st, if_stmt).1),
    decreases fuel, 2int,
{
    if if_stmt.len() > 0 {
        lemma_eval(fuel, st, if_stmt[0]);
        let (c, st1) = eval(fuel, st, if_stmt[0]);
        match c {
            SFlow::Done(SpecValue::Bool(true)) => {
                if if_stmt.len() >= 2 {
                    lemma_run(fuel, st1, if_stmt[1]);
                }
            },
            SFlow::Done(SpecValue::Bool(false)) => {
                if if_stmt.len() > 2 {
                    match if_stmt[2] {
                        SpecNode::Else(body) => lemma_run(fuel, st1, *body),
                        _ => {},
                    }
                }
            },
            _ => {},
        }
    }
}

proof fn lemma_run_return(fuel: nat, st: SpecState, ret: Option<Box<SpecNode>>)
    ensures
        floats_valid(st) ==> floats_in_order(st, asks_float(run_return(fuel, st, ret).0), run_return(fuel, st, ret).1),
        run_return(fuel, st, ret).0 is Done ==> names_kept(st, run_return(fuel, st, ret).1),
    decreases fuel, 2int,
{
    match ret {
        Some(e) => lemma_eval(fuel, st, *e),
        None => {},
    }
}

proof fn lemma_call(fuel: nat, st: SpecState, node: SpecNode)
    ensures
        floats_valid(st) ==> floats_in_order(st, asks_float(call(fuel, st, node).0), call(fuel, st, node).1),
        call(fuel, st, node).0 is Done ==> values_kept(st, call(fuel, st, node).1),
    decreases fuel, 0int,
{
    if fuel > 0 {
        let f = (fuel - 1) as nat;
        match node {
            SpecNode::FuncCall(call_args) => {
                if call_args.len() >= 2 {
                    match call_args[0] {
                        SpecNode::FuncName(SpecToken::Identifier(name)) => {
                            if st.funcs.dom().contains(name) {
                                let function = st.funcs[name];
                                match call_args[1] {
                                    SpecNode::FuncArgs(args) => {
                                        lemma_bind_args(f, st, args, function.parameters, 0, Map::empty());
                                        let (r, st1) = bind_args(f, st, args, function.parameters, 0, Map::empty());
                                        match r {
                                            SFlow::Done(arguments) => lemma_enter_function(f, st1, name, function, arguments),
                                            _ => {},
                                        }
                                    },
                                    _ => {},
                                }
                            }
                        },
                        _ => {},
                    }
                }
            },
            _ => {},
        }
    }
}

proof fn lemma_bind_args(fuel: nat, st: SpecState, args: Seq<SpecNode>, params: Seq<SpecNode>, i: int, acc: Map<Seq<char>, SpecValue>)
    ensures
        floats_valid(st) ==> floats_in_order(st, asks_float(bind_args(fuel, st, args, params, i, acc).0), bind_args(fuel, st, args, params, i, acc).1),
        bind_args(fuel, st, args, params, i, acc).0 is Done ==> values_kept(st, bind_args(fuel, st, args, params, i, acc).1),
    decreases fuel, args.len() + 2 - i,
{
    if !(i < 0 || i >= args.len() || i >= params.len()) {
        match params[i] {
            SpecNode::Var(SpecToken::Identifier(pname), ptype) => {
                lemma_cast(fuel, st, *ptype, args[i]);
                let (r, st1) = cast(fuel, st, *ptype, args[i]);
                match r {
                    SFlow::Done(v) => {
                        lemma_bind_args(fuel, st1, args, params, i + 1, acc.insert(pname, v));
                        let st2 = bind_args(fuel, st1, args, params, i + 1, acc.insert(pname, v)).1;
                        if bind_args(fuel, st1, args, params, i + 1, acc.insert(pname, v)).0 is Done {
                            lemma_values_kept_trans(st, st1, st2);
                        }
                    },
                    _ => {},
                }
            },
            _ => {},
        }
    }
}

proof fn lemma_enter_function(fuel: nat, st: SpecState, name: Seq<char>, function: SpecFunction, arguments: Map<Seq<char>, SpecValue>)
    ensures
        floats_valid(st) ==> floats_in_order(st, asks_float(enter_function(fuel, st, name, function, arguments).0), enter_function(fuel, st, name, function, arguments).1),
        enter_function(fuel, st, name, function, arguments).0 is Done ==> values_kept(st, enter_function(fuel, st, name, function, arguments).1),
    decreases fuel, 2int,
{
    let st1 = with_vars(st, arguments);
    match function.scope {
        None => {},
        Some(body) => lemma_run(fuel, st1, body),
    }
}

proof fn lemma_eval(fuel: nat, st: SpecState, expr: SpecNode)
    ensures
        floats_valid(st) ==> floats_in_order(st, asks_float(eval(fuel, st, expr).0), eval(fuel, st, expr).1),
        eval(fuel, st, expr).0 is Done ==> values_kept(st, eval(fuel, st, expr).1),
    decreases fuel, 0int,
{
    if fuel > 0 {
        let f = (fuel - 1) as nat;
        match expr {
            SpecNode::ExprLiteral(t) => {
                match t {
                    SpecToken::Float(text) => lemma_floats_answer(st.floats, SpecFloatRequest::Parse(text)),
                    _ => {},
                }
            },
            SpecNode::Expr(op, operands) => lemma_operation(f, st, op, operands),
            SpecNode::ExprCast(c) => {
                if c.len() >= 2 {
                    lemma_cast(f, st, c[0], c[1]);
                }
            },
            SpecNode::FuncCall(_) => lemma_call(f, st, expr),
            _ => {},
        }
    }
}

proof fn lemma_operation(fuel: nat, st: SpecState, op: SpecToken, operands: Seq<SpecNode>)
    ensures
        floats_valid(st) ==> floats_in_order(st, asks_float(operation(fuel, st, op, operands).0), operation(fuel, st, op, operands).1),
        operation(fuel, st, op, operands).0 is Done ==> values_kept(st, operation(fuel, st, op, operands).1),
    decreases fuel, 1int,
{
    if operands.len() == 2 {
        lemma_eval(fuel, st, operands[0]);
        let (l, st1) = eval(fuel, st, operands[0]);
        match l {
            SFlow::Done(lhs) => {
                lemma_eval(fuel, st1, operands[1]);
                let (r, st2) = eval(fuel, st1, operands[1]);
                match r {
                    SFlow::Done(rhs) => {
                        lemma_apply_operator(st2.floats, op, lhs, rhs);
                        lemma_values_kept_trans(st, st1, st2);
                    },
                    _ => {},
                }
            },
            _ => {},
        }
    }
}

proof fn lemma_partial_operation(fuel: nat, st: SpecState, op: SpecToken, lhs: SpecValue, rhs_expr: SpecNode)
    ensures
        floats_valid(st) ==> floats_in_order(st, asks_float(partial_operation(fuel, st, op, lhs, rhs_expr).0), partial_operation(fuel, st, op, lhs, rhs_expr).1),
        partial_operation(fuel, st, op, lhs, rhs_expr).0 is Done ==> values_kept(st, partial_operation(fuel, st, op, lhs, rhs_expr).1),
    decreases fuel, 1int,
{
    lemma_eval(fuel, st, rhs_expr);
    let (r, st1) = eval(fuel, st, rhs_expr);
    match r {
        SFlow::Done(rhs) => lemma_apply_operator(st1.floats, op, lhs, rhs),
        _ => {},
    }
}

proof fn lemma_cast(fuel: nat, st: SpecState, ty: SpecNode, expr: SpecNode)
    ensures
        floats_valid(st) ==> floats_in_order(st, asks_float(cast(fuel, st, ty, expr).0), cast(fuel, st, ty, expr).1),
        cast(fuel, st, ty, expr).0 is Done ==> values_kept(st, cast(fuel, st, ty, expr).1),
    decreases fuel, 1int,
{
    lemma_eval(fuel, st, expr);
    let (r, st1) = eval(fuel, st, expr);
    match r {
        SFlow::Done(v) => lemma_cast_value(st1.floats, ty, expr, v),
        _ => {},
    }
}

} // verus!

verus! {

/// A scope that completes leaves the variables and functions known as it
/// found them: what it declares does not outlive it.
pub proof fn law_scope_restores_names(fuel: nat, st: SpecState, instrs: Seq<SpecNode>)
    ensures
        run(fuel, st, SpecNode::Scope(instrs)).0 is Done ==> {
            &&& run(fuel, st, SpecNode::Scope(instrs)).1.vars.dom() == st.vars.dom()
            &&& run(fuel, st, SpecNode::Scope(instrs)).1.funcs.dom() == st.funcs.dom()
        },
{
    if fuel > 0 {
        lemma_run_block((fuel - 1) as nat, st, instrs, 0, st.vars.dom(), st.funcs.dom());
    }
}

/// A statement that completes forgets no variable or function.
pub proof fn law_statement_keeps_names(fuel: nat, st: SpecState, node: SpecNode)
    ensures
        run(fuel, st, node).0 is Done ==> names_kept(st, run(fuel, st, node).1),
{
    lemma_run(fuel, st, node);
}

/// Evaluating an expression changes the value of no variable: a call in it
/// runs on its own variables and gives the caller's back.
pub proof fn law_expression_keeps_values(fuel: nat, st: SpecState, expr: SpecNode)
    ensures
        eval(fuel, st, expr).0 is Done ==> values_kept(st, eval(fuel, st, expr).1),
{
    lemma_eval(fuel, st, expr);
}

/// A call that completes gives the caller its variables back with their
/// values.
pub proof fn law_call_restores_caller(fuel: nat, st: SpecState, node: SpecNode)
    ensures
        call(fuel, st, node).0 is Done ==> values_kept(st, call(fuel, st, node).1),
{
    lemma_call(fuel, st, node);
}

/// A run uses the float answers it was given in order and never changes
/// them, and it asks for another only when it has used them all.
pub proof fn law_floats_in_order(fuel: nat, st: SpecState, node: SpecNode)
    requires
        floats_valid(st),
    ensures
        floats_in_order(st, asks_float(run(fuel, st, node).0), run(fuel, st, node).1),
{
    lemma_run(fuel, st, node);
}

/// A conversion that succeeds gives a value of the type converted to.
pub proof fn law_cast_has_type(fl: SpecFloats, ty: SpecNode, expr: SpecNode, value: SpecValue)
    ensures
        cast_value(fl, ty, expr, value).0 matches SFlow::Done(w) ==> spec_has_type(ty, Some(w)),
{
}

/// After a declaration `[Var(name, type), expr]` that completes, `name`
/// reads back a value of its declared type.
pub proof fn law_declaration_reads_back(fuel: nat, st: SpecState, decl: Seq<SpecNode>)
    ensures
        run_var_decl(fuel, st, decl).0 is Done ==> (decl[0] matches SpecNode::Var(
            SpecToken::Identifier(name),
            ty,
        ) && {
            let st1 = run_var_decl(fuel, st, decl).1;
            &&& st1.vars.dom().contains(name)
            &&& eval_literal(st1, SpecToken::Identifier(name)).0 == SFlow::Done(st1.vars[name])
            &&& spec_has_type(*ty, Some(st1.vars[name]))
        }),
{
    if decl.len() > 0 {
        match decl[0] {
            SpecNode::Var(SpecToken::Identifier(name), ty) => {
                if !st.vars.dom().contains(name) && decl.len() >= 2 {
                    let (r, st1) = eval(fuel, st, decl[1]);
                    match r {
                        SFlow::Done(v) => law_cast_has_type(st1.floats, *ty, decl[1], v),
                        _ => {},
                    }
                }
            },
            _ => {},
        }
    }
}

} // verus!

verus! {

/// `st` with the float answers `answers` in place of its own.
pub open spec fn with_answers(st: SpecState, answers: Seq<u64>) -> SpecState {
    SpecState {
        vars: st.vars,
        funcs: st.funcs,
        floats: SpecFloats { answers, used: st.floats.used },
        output: st.output,
    }
}

/// `answers` begins with the float answers of `st`.
pub open spec fn answers_extend(st: SpecState, answers: Seq<u64>) -> bool {
    &&& st.floats.answers.len() <= answers.len()
    &&& forall|i: int| 0 <= i < st.floats.answers.len() ==> #[trigger] answers[i] == st.floats.answers[i]
}

proof fn lemma_float_answer_more(fl: SpecFloats, req: SpecFloatRequest, answers: Seq<u64>)
    requires
        fl.used <= fl.answers.len() <= answers.len(),
        forall|i: int| 0 <= i < fl.answers.len() ==> #[trigger] answers[i] == fl.answers[i],
    ensures
        !asks_float(float_answer(fl, req).0) ==> float_answer(SpecFloats { answers, used: fl.used }, req) == (
            float_answer(fl, req).0,
            SpecFloats { answers, used: float_answer(fl, req).1.used },
        ),
{
    if fl.used < fl.answers.len() {
        assert(answers[fl.used as int] == fl.answers[fl.used as int]);
    }
}

proof fn lemma_apply_operator_more(fl: SpecFloats, op: SpecToken, lhs: SpecValue, rhs: SpecValue, answers: Seq<u64>)
    requires
        fl.used <= fl.answers.len() <= answers.len(),
        forall|i: int| 0 <= i < fl.answers.len() ==> #[trigger] answers[i] == fl.answers[i],
    ensures
        !asks_float(apply_operator(fl, op, lhs, rhs).0) ==> apply_operator(SpecFloats { answers, used: fl.used }, op, lhs, rhs) == (
            apply_operator(fl, op, lhs, rhs).0,
            SpecFloats { answers, used: apply_operator(fl, op, lhs, rhs).1.used },
        ),
{
    let fl2 = SpecFloats { answers, used: fl.used };
    match (lhs, rhs) {
        (SpecValue::Float(a), SpecValue::Float(b)) => {
            match op {
                SpecToken::Plus => lemma_float_answer_more(fl, SpecFloatRequest::Add(a, b), answers),
                SpecToken::Minus => lemma_float_answer_more(fl, SpecFloatRequest::Sub(a, b), answers),
                SpecToken::Times => lemma_float_answer_more(fl, SpecFloatRequest::Mul(a, b), answers),
                SpecToken::Div => lemma_float_answer_more(fl, SpecFloatRequest::Div(a, b), answers),
                SpecToken::EqualTo => lemma_float_answer_more(fl, SpecFloatRequest::Eq(a, b), answers),
                SpecToken::BiggerThan => lemma_float_answer_more(fl, SpecFloatRequest::Gt(a, b), answers),
                SpecToken::LessThan => lemma_float_answer_more(fl, SpecFloatRequest::Lt(a, b), answers),
                SpecToken::BiggerOrEqualTo => lemma_float_answer_more(fl, SpecFloatRequest::Ge(a, b), answers),
                SpecToken::LessOrEqualTo => lemma_float_answer_more(fl, SpecFloatRequest::Le(a, b), answers),
                _ => {},
            }
        },
        _ => {
            match op {
                SpecToken::Plus => assert(apply_operator(fl2, op, lhs, rhs) == value_add(fl2, lhs, rhs)),
                SpecToken::Minus => assert(apply_operator(fl2, op, lhs, rhs) == value_sub(fl2, lhs, rhs)),
                SpecToken::Times => assert(apply_operator(fl2, op, lhs, rhs) == value_mul(fl2, lhs, rhs)),
                SpecToken::Div => assert(apply_operator(fl2, op, lhs, rhs) == value_div(fl2, lhs, rhs)),
                SpecToken::EqualTo => assert(apply_operator(fl2, op, lhs, rhs) == value_eq(fl2, lhs, rhs)),
                SpecToken::BiggerThan => assert(apply_operator(fl2, op, lhs, rhs) == value_bigger(fl2, lhs, rhs)),
                SpecToken::LessThan => assert(apply_operator(fl2, op, lhs, rhs) == value_less(fl2, lhs, rhs)),
                SpecToken::BiggerOrEqualTo => assert(apply_operator(fl2, op, lhs, rhs) == value_be(fl2, lhs, rhs)),
                SpecToken::LessOrEqualTo => assert(apply_operator(fl2, op, lhs, rhs) == value_le(fl2, lhs, rhs)),
                _ => {},
            }
        },
    }
}

proof fn lemma_cast_value_more(fl: SpecFloats, ty: SpecNode, expr: SpecNode, value: SpecValue, answers: Seq<u64>)
    requires
        fl.used <= fl.answers.len() <= answers.len(),
        forall|i: int| 0 <= i < fl.answers.len() ==> #[trigger] answers[i] == fl.answers[i],
    ensures
        !asks_float(cast_value(fl, ty, expr, value).0) ==> cast_value(SpecFloats { answers, used: fl.used }, ty, expr, value) == (
            cast_value(fl, ty, expr, value).0,
            SpecFloats { answers, used: cast_value(fl, ty, expr, value).1.used },
        ),
{
    match value {
        SpecValue::Int(a) => lemma_float_answer_more(fl, SpecFloatRequest::FromInt(a), answers),
        SpecValue::Uint(a) => lemma_float_answer_more(fl, SpecFloatRequest::FromUint(a), answers),
        SpecValue::Float(a) => {
            lemma_float_answer_more(fl, SpecFloatRequest::ToInt(a), answers);
            lemma_float_answer_more(fl, SpecFloatRequest::ToUint(a), answers);
        },
        _ => {},
    }
}

proof fn lemma_run_more(fuel: nat, st: SpecState, node: SpecNode, answers: Seq<u64>)
    requires
        floats_valid(st),
        answers_extend(st, answers),
    ensures
        !asks_float(run(fuel, st, node).0) ==> run(fuel, with_answers(st, answers), node) == (
            run(fuel, st, node).0,
            with_answers(run(fuel, st, node).1, answers),
        ),
    decreases fuel, 0int,
{
    if fuel > 0 {
        let f = (fuel - 1) as nat;
        match node {
            SpecNode::Scope(instrs) => lemma_run_block_more(f, st, instrs, 0, st.vars.dom(), st.funcs.dom(), answers),
            SpecNode::VarDecl(decl) => lemma_run_var_decl_more(f, st, decl, answers),
            SpecNode::VarModif(SpecToken::Identifier(name), op, expr) => lemma_run_var_modif_more(f, st, name, op, *expr, answers),
            SpecNode::FuncDef(def) => lemma_run_func_def_more(f, st, def, answers),
            SpecNode::FuncCall(_) => lemma_call_more(f, st, node, answers),
            SpecNode::If(if_stmt) => lemma_run_if_more(f, st, if_stmt, answers),
            SpecNode::Return(ret) => lemma_run_return_more(f, st, ret, answers),
            _ => {},
        }
    }
}

proof fn lemma_run_block_more(fuel: nat, st: SpecState, instrs: Seq<SpecNode>, i: int, vars: Set<Seq<char>>, funcs: Set<Seq<char>>, answers: Seq<u64>)
    requires
        floats_valid(st),
        answers_extend(st, answers),
    ensures
        !asks_float(run_block(fuel, st, instrs, i, vars, funcs).0) ==> run_block(fuel, with_answers(st, answers), instrs, i, vars, funcs) == (
            run_block(fuel, st, instrs, i, vars, funcs).0,
            with_answers(run_block(fuel, st, instrs, i, vars, funcs).1, answers),
        ),
    decreases fuel, instrs.len() + 2 - i,
{
    if !(i < 0 || i >= instrs.len()) {
        lemma_run(fuel, st, instrs[i]);
        lemma_run_more(fuel, st, instrs[i], answers);
        let (r, st1) = run(fuel, st, instrs[i]);
        match r {
            SFlow::Done(None) => lemma_run_block_more(fuel, st1, instrs, i + 1, vars, funcs, answers),
            _ => {},
        }
    }
}

proof fn lemma_run_var_decl_more(fuel: nat, st: SpecState, decl: Seq<SpecNode>, answers: Seq<u64>)
    requires
        floats_valid(st),
        answers_extend(st, answers),
    ensures
        !asks_float(run_var_decl(fuel, st, decl).0) ==> run_var_decl(fuel, with_answers(st, answers), decl) == (
            run_var_decl(fuel, st, decl).0,
            with_answers(run_var_decl(fuel, st, decl).1, answers),
        ),
    decreases fuel, 2int,
{
    if decl.len() > 0 {
        match decl[0] {
            SpecNode::Var(SpecToken::Identifier(name), ty) => {
                if !st.vars.dom().contains(name) && decl.len() >= 2 {
                    lemma_cast_more(fuel, st, *ty, decl[1], answers);
                }
            },
            _ => {},
        }
    }
}

proof fn lemma_run_var_modif_more(fuel: nat, st: SpecState, name: Seq<char>, op: SpecToken, expr: SpecNode, answers: Seq<u64>)
    requires
        floats_valid(st),
        answers_extend(st, answers),
    ensures
        !asks_float(run_var_modif(fuel, st, name, op, expr).0) ==> run_var_modif(fuel, with_answers(st, answers), name, op, expr) == (
            run_var_modif(fuel, st, name, op, expr).0,
            with_answers(run_var_modif(fuel, st, name, op, expr).1, answers),
        ),
    decreases fuel, 2int,
{
    if st.vars.dom().contains(name) {
        lemma_partial_operation_more(fuel, st, op, st.vars[name], expr, answers);
    }
}

proof fn lemma_run_func_def_more(fuel: nat, st: SpecState, def: Seq<SpecNode>, answers: Seq<u64>)
    requires
        floats_valid(st),
        answers_extend(st, answers),
    ensures
        !asks_float(run_func_def(fuel, st, def).0) ==> run_func_def(fuel, with_answers(st, answers), def) == (
            run_func_def(fuel, st, def).0,
            with_answers(run_func_def(fuel, st, def).1, answers),
        ),
    decreases fuel, 2int,
{
    if def.len() == 4 || def.len() == 5 {
        match def[0] {
            SpecNode::FuncName(SpecToken::Identifier(name)) => match def[1] {
                SpecNode::FuncParams(params) => {
                    let function = SpecFunction {
                        name,
                        return_type: def[3],
                        parameters: params,
                        scope: Some(def[2]),
                        callback: None,
                    };
                    let st1 = SpecState { vars: st.vars, funcs: st.funcs.insert(name, function), floats: st.floats, output: st.output };
                    if def.len() == 5 {
                        match def[4] {
                            SpecNode::FuncHeader(options) => {
                                if options.len() > 0 {
                                    match options[0] {
                                        SpecToken::Identifier(o) => {
                                            if o == "entry_point"@ {
                                                let node = SpecNode::FuncCall(seq![def[0], SpecNode::FuncArgs(Seq::empty())]);
                                                lemma_call_more(fuel, st1, node, answers);
                                                assert(with_answers(st1, answers) == SpecState {
                                                    vars: st.vars,
                                                    funcs: st.funcs.insert(name, function),
                                                    floats: with_answers(st, answers).floats,
                                                    output: st.output,
                                                });
                                            }
                                        },
                                        _ => {},
                                    }
                                }
                            },
                            _ => {},
                        }
                    }
                },
                _ => {},
            },
            _ => {},
        }
    }
}

proof fn lemma_run_if_more(fuel: nat, st: SpecState, if_stmt: Seq<SpecNode>, answers: Seq<u64>)
    requires
        floats_valid(st),
        answers_extend(st, answers),
    ensures
        !asks_float(run_if(fuel, st, if_stmt).0) ==> run_if(fuel, with_answers(st, answers), if_stmt) == (
            run_if(fuel, st, if_stmt).0,
            with_answers(run_if(fuel, st, if_stmt).1, answers),
        ),
    decreases fuel, 2int,
{
    if if_stmt.len() > 0 {
        lemma_eval(fuel, st, if_stmt[0]);
        lemma_eval_more(fuel, st, if_stmt[0], answers);
        let (c, st1) = eval(fuel, st, if_stmt[0]);
        match c {
            SFlow::Done(SpecValue::Bool(true)) => {
                if if_stmt.len() >= 2 {
                    lemma_run_more(fuel, st1, if_stmt[1], answers);
                }
            },
            SFlow::Done(SpecValue::Bool(false)) => {
                if if_stmt.len() > 2 {
                    match if_stmt[2] {
                        SpecNode::Else(body) => lemma_run_more(fuel, st1, *body, answers),
                        _ => {},
                    }
                }
            },
            _ => {},
        }
    }
}

proof fn lemma_run_return_more(fuel: nat, st: SpecState, ret: Option<Box<SpecNode>>, answers: Seq<u64>)
    requires
        floats_valid(st),
        answers_extend(st, answers),
    ensures
        !asks_float(run_return(fuel, st, ret).0) ==> run_return(fuel, with_answers(st, answers), ret) == (
            run_return(fuel, st, ret).0,
            with_answers(run_return(fuel, st, ret).1, answers),
        ),
    decreases fuel, 2int,
{
    match ret {
        Some(e) => lemma_eval_more(fuel, st, *e, answers),
        None => {},
    }
}

proof fn lemma_call_more(fuel: nat, st: SpecState, node: SpecNode, answers: Seq<u64>)
    requires
        floats_valid(st),
        answers_extend(st, answers),
    ensures
        !asks_float(call(fuel, st, node).0) ==> call(fuel, with_answers(st, answers), node) == (
            call(fuel, st, node).0,
            with_answers(call(fuel, st, node).1, answers),
        ),
    decreases fuel, 0int,
{
    if fuel > 0 {
        let f = (fuel - 1) as nat;
        match node {
            SpecNode::FuncCall(call_args) => {
                if call_args.len() >= 2 {
                    match call_args[0] {
                        SpecNode::FuncName(SpecToken::Identifier(name)) => {
                            if st.funcs.dom().contains(name) {
                                let function = st.funcs[name];
                                match call_args[1] {
                                    SpecNode::FuncArgs(args) => {
                                        lemma_bind_args(f, st, args, function.parameters, 0, Map::empty());
                                        lemma_bind_args_more(f, st, args, function.parameters, 0, Map::empty(), answers);
                                        let (r, st1) = bind_args(f, st, args, function.parameters, 0, Map::empty());
                                        match r {
                                            SFlow::Done(arguments) => lemma_enter_function_more(f, st1, name, function, arguments, answers),
                                            _ => {},
                                        }
                                    },
                                    _ => {},
                                }
                            }
                        },
                        _ => {},
                    }
                }
            },
            _ => {},
        }
    }
}

proof fn lemma_bind_args_more(fuel: nat, st: SpecState, args: Seq<SpecNode>, params: Seq<SpecNode>, i: int, acc: Map<Seq<char>, SpecValue>, answers: Seq<u64>)
    requires
        floats_valid(st),
        answers_extend(st, answers),
    ensures
        !asks_float(bind_args(fuel, st, args, params, i, acc).0) ==> bind_args(fuel, with_answers(st, answers), args, params, i, acc) == (
            bind_args(fuel, st, args, params, i, acc).0,
            with_answers(bind_args(fuel, st, args, params, i, acc).1, answers),
        ),
    decreases fuel, args.len() + 2 - i,
{
    if !(i < 0 || i >= args.len() || i >= params.len()) {
        match params[i] {
            SpecNode::Var(SpecToken::Identifier(pname), ptype) => {
                lemma_cast(fuel, st, *ptype, args[i]);
                lemma_cast_more(fuel, st, *ptype, args[i], answers);
                let (r, st1) = cast(fuel, st, *ptype, args[i]);
                match r {
                    SFlow::Done(v) => lemma_bind_args_more(fuel, st1, args, params, i + 1, acc.insert(pname, v), answers),
                    _ => {},
                }
            },
            _ => {},
        }
    }
}

proof fn lemma_enter_function_more(fuel: nat, st: SpecState, name: Seq<char>, function: SpecFunction, arguments: Map<Seq<char>, SpecValue>, answers: Seq<u64>)
    requires
        floats_valid(st),
        answers_extend(st, answers),
    ensures
        !asks_float(enter_function(fuel, st, name, function, arguments).0) ==> enter_function(fuel, with_answers(st, answers), name, function, arguments) == (
            enter_function(fuel, st, name, function, arguments).0,
            with_answers(enter_function(fuel, st, name, function, arguments).1, answers),
        ),
    decreases fuel, 2int,
{
    let st1 = with_vars(st, arguments);
    assert(with_vars(with_answers(st, answers), arguments) == with_answers(st1, answers));
    match function.scope {
        None => {},
        Some(body) => lemma_run_more(fuel, st1, body, answers),
    }
}

proof fn lemma_eval_more(fuel: nat, st: SpecState, expr: SpecNode, answers: Seq<u64>)
    requires
        floats_valid(st),
        answers_extend(st, answers),
    ensures
        !asks_float(eval(fuel, st, expr).0) ==> eval(fuel, with_answers(st, answers), expr) == (
            eval(fuel, st, expr).0,
            with_answers(eval(fuel, st, expr).1, answers),
        ),
    decreases fuel, 0int,
{
    if fuel > 0 {
        let f = (fuel - 1) as nat;
        match expr {
            SpecNode::ExprLiteral(t) => {
                match t {
                    SpecToken::Float(text) => lemma_float_answer_more(st.floats, SpecFloatRequest::Parse(text), answers),
                    _ => {},
                }
            },
            SpecNode::Expr(op, operands) => lemma_operation_more(f, st, op, operands, answers),
            SpecNode::ExprCast(c) => {
                if c.len() >= 2 {
                    lemma_cast_more(f, st, c[0], c[1], answers);
                }
            },
            SpecNode::FuncCall(_) => lemma_call_more(f, st, expr, answers),
            _ => {},
        }
    }
}

proof fn lemma_operation_more(fuel: nat, st: SpecState, op: SpecToken, operands: Seq<SpecNode>, answers: Seq<u64>)
    requires
        floats_valid(st),
        answers_extend(st, answers),
    ensures
        !asks_float(operation(fuel, st, op, operands).0) ==> operation(fuel, with_answers(st, answers), op, operands) == (
            operation(fuel, st, op, operands).0,
            with_answers(operation(fuel, st, op, operands).1, answers),
        ),
    decreases fuel, 1int,
{
    if operands.len() == 2 {
        lemma_eval(fuel, st, operands[0]);
        lemma_eval_more(fuel, st, operands[0], answers);
        let (l, st1) = eval(fuel, st, operands[0]);
        match l {
            SFlow::Done(lhs) => {
                lemma_eval(fuel, st1, operands[1]);
                lemma_eval_more(fuel, st1, operands[1], answers);
                let (r, st2) = eval(fuel, st1, operands[1]);
                match r {
                    SFlow::Done(rhs) => lemma_apply_operator_more(st2.floats, op, lhs, rhs, answers),
                    _ => {},
                }
            },
            _ => {},
        }
    }
}

proof fn lemma_partial_operation_more(fuel: nat, st: SpecState, op: SpecToken, lhs: SpecValue, rhs_expr: SpecNode, answers: Seq<u64>)
    requires
        floats_valid(st),
        answers_extend(st, answers),
    ensures
        !asks_float(partial_operation(fuel, st, op, lhs, rhs_expr).0) ==> partial_operation(fuel, with_answers(st, answers), op, lhs, rhs_expr) == (
            partial_operation(fuel, st, op, lhs, rhs_expr).0,
            with_answers(partial_operation(fuel, st, op, lhs, rhs_expr).1, answers),
        ),
    decreases fuel, 1int,
{
    lemma_eval(fuel, st, rhs_expr);
    lemma_eval_more(fuel, st, rhs_expr, answers);
    let (r, st1) = eval(fuel, st, rhs_expr);
    match r {
        SFlow::Done(rhs) => lemma_apply_operator_more(st1.floats, op, lhs, rhs, answers),
        _ => {},
    }
}

proof fn lemma_cast_more(fuel: nat, st: SpecState, ty: SpecNode, expr: SpecNode, answers: Seq<u64>)
    requires
        floats_valid(st),
        answers_extend(st, answers),
    ensures
        !asks_float(cast(fuel, st, ty, expr).0) ==> cast(fuel, with_answers(st, answers), ty, expr) == (
            cast(fuel, st, ty, expr).0,
            with_answers(cast(fuel, st, ty, expr).1, answers),
        ),
    decreases fuel, 1int,
{
    lemma_eval(fuel, st, expr);
    lemma_eval_more(fuel, st, expr, answers);
    let (r, st1) = eval(fuel, st, expr);
    match r {
        SFlow::Done(v) => lemma_cast_value_more(st1.floats, ty, expr, v, answers),
        _ => {},
    }
}

/// A run that did not ask for a float answer ends the same way, in the same
/// state, when it is given more answers after those it had: so a caller
/// that answers each request and runs again only extends the run.
pub proof fn law_more_answers_same_run(fuel: nat, st: SpecState, node: SpecNode, answers: Seq<u64>)
    requires
        floats_valid(st),
        answers_extend(st, answers),
    ensures
        !asks_float(run(fuel, st, node).0) ==> run(fuel, with_answers(st, answers), node) == (
            run(fuel, st, node).0,
            with_answers(run(fuel, st, node).1, answers),
        ),
{
    lemma_run_more(fuel, st, node, answers);
}

} // verus!

verus! {

proof fn lemma_block_append(fuel: nat, st: SpecState, instrs: Seq<SpecNode>, rest: Seq<SpecNode>, i: int, vars: Set<Seq<char>>, funcs: Set<Seq<char>>)
    ensures
        run_block(fuel, st, instrs, i, vars, funcs).0 matches SFlow::Done(Some(_)) ==> run_block(
            fuel,
            st,
            instrs + rest,
            i,
            vars,
            funcs,
        ) == run_block(fuel, st, instrs, i, vars, funcs),
    decreases instrs.len() - i,
{
    if 0 <= i < instrs.len() {
        assert((instrs + rest)[i] == instrs[i]);
        let (r, st1) = run(fuel, st, instrs[i]);
        match r {
            SFlow::Done(None) => lemma_block_append(fuel, st1, instrs, rest, i + 1, vars, funcs),
            _ => {},
        }
    }
}

/// A `return` ends its scope: statements after it have no effect, so a
/// scope that returns runs the same with any statements added at its end.
pub proof fn law_return_ends_scope(fuel: nat, st: SpecState, instrs: Seq<SpecNode>, rest: Seq<SpecNode>)
    ensures
        run(fuel, st, SpecNode::Scope(instrs)).0 matches SFlow::Done(Some(_)) ==> run(
            fuel,
            st,
            SpecNode::Scope(instrs + rest),
        ) == run(fuel, st, SpecNode::Scope(instrs)),
{
    if fuel > 0 {
        lemma_block_append((fuel - 1) as nat, st, instrs, rest, 0, st.vars.dom(), st.funcs.dom());
    }
}

/// An operation whose operand count is not two is refused before either
/// operand is evaluated: the state is unchanged.
pub proof fn law_operand_count(fuel: nat, st: SpecState, op: SpecToken, operands: Seq<SpecNode>)
    ensures
        operands.len() > 2 ==> operation(fuel, st, op, operands) == (
            SFlow::<SpecValue>::Fail(SpecError::TooMuchOperands(operands)),
            st,
        ),
        operands.len() < 2 ==> operation(fuel, st, op, operands) == (
            SFlow::<SpecValue>::Fail(SpecError::NotEnoughOperand(operands)),
            st,
        ),
{
}

/// A literal other than a float reads its value without changing the
/// state; a float literal only uses up one float answer.
pub proof fn law_literal_state(st: SpecState, token: SpecToken)
    ensures
        !(token is Float) ==> eval_literal(st, token).1 == st,
        token is Float ==> eval_literal(st, token).1.vars == st.vars && eval_literal(st, token).1.funcs
            == st.funcs && eval_literal(st, token).1.output == st.output,
{
}

} // verus!

verus! {

/// Whether a step stopped for want of fuel.
pub open spec fn exhausted<T>(r: SFlow<T>) -> bool {
    r matches SFlow::Halt(SpecHalt::Exhausted)
}

proof fn lemma_run_fuel(f: nat, g: nat, st: SpecState, node: SpecNode)
    requires
        f <= g,
    ensures
        !exhausted(run(f, st, node).0) ==> run(g, st, node) == run(f, st, node),
    decreases f, 0int,
{
    if f > 0 {
        let f1 = (f - 1) as nat;
        let g1 = (g - 1) as nat;
        match node {
            SpecNode::Scope(instrs) => lemma_run_block_fuel(f1, g1, st, instrs, 0, st.vars.dom(), st.funcs.dom()),
            SpecNode::VarDecl(decl) => lemma_run_var_decl_fuel(f1, g1, st, decl),
            SpecNode::VarModif(SpecToken::Identifier(name), op, expr) => lemma_run_var_modif_fuel(f1, g1, st, name, op, *expr),
            SpecNode::FuncDef(def) => lemma_run_func_def_fuel(f1, g1, st, def),
            SpecNode::FuncCall(_) => lemma_call_fuel(f1, g1, st, node),
            SpecNode::If(if_stmt) => lemma_run_if_fuel(f1, g1, st, if_stmt),
            SpecNode::Return(ret) => lemma_run_return_fuel(f1, g1, st, ret),
            _ => {},
        }
    }
}

proof fn lemma_run_block_fuel(f: nat, g: nat, st: SpecState, instrs: Seq<SpecNode>, i: int, vars: Set<Seq<char>>, funcs: Set<Seq<char>>)
    requires
        f <= g,
    ensures
        !exhausted(run_block(f, st, instrs, i, vars, funcs).0) ==> run_block(g, st, instrs, i, vars, funcs)
            == run_block(f, st, instrs, i, vars, funcs),
    decreases f, instrs.len() + 2 - i,
{
    if !(i < 0 || i >= instrs.len()) {
        lemma_run_fuel(f, g, st, instrs[i]);
        let (r, st1) = run(f, st, instrs[i]);
        match r {
            SFlow::Done(None) => lemma_run_block_fuel(f, g, st1, instrs, i + 1, vars, funcs),
            _ => {},
        }
    }
}

proof fn lemma_run_var_decl_fuel(f: nat, g: nat, st: SpecState, decl: Seq<SpecNode>)
    requires
        f <= g,
    ensures
        !exhausted(run_var_decl(f, st, decl).0) ==> run_var_decl(g, st, decl) == run_var_decl(f, st, decl),
    decreases f, 2int,
{
    if decl.len() > 0 {
        match decl[0] {
            SpecNode::Var(SpecToken::Identifier(name), ty) => {
                if !st.vars.dom().contains(name) && decl.len() >= 2 {
                    lemma_cast_fuel(f, g, st, *ty, decl[1]);
                }
            },
            _ => {},
        }
    }
}

proof fn lemma_run_var_modif_fuel(f: nat, g: nat, st: SpecState, name: Seq<char>, op: SpecToken, expr: SpecNode)
    requires
        f <= g,
    ensures
        !exhausted(run_var_modif(f, st, name, op, expr).0) ==> run_var_modif(g, st, name, op, expr)
            == run_var_modif(f, st, name, op, expr),
    decreases f, 2int,
{
    if st.vars.dom().contains(name) {
        lemma_partial_operation_fuel(f, g, st, op, st.vars[name], expr);
    }
}

proof fn lemma_run_func_def_fuel(f: nat, g: nat, st: SpecState, def: Seq<SpecNode>)
    requires
        f <= g,
    ensures
        !exhausted(run_func_def(f, st, def).0) ==> run_func_def(g, st, def) == run_func_def(f, st, def),
    decreases f, 2int,
{
    if def.len() == 4 || def.len() == 5 {
        match def[0] {
            SpecNode::FuncName(SpecToken::Identifier(name)) => match def[1] {
                SpecNode::FuncParams(params) => {
                    let function = SpecFunction {
                        name,
                        return_type: def[3],
                        parameters: params,
                        scope: Some(def[2]),
                        callback: None,
                    };
                    let st1 = SpecState { vars: st.vars, funcs: st.funcs.insert(name, function), floats: st.floats, output: st.output };
                    if def.len() == 5 {
                        match def[4] {
                            SpecNode::FuncHeader(options) => {
                                if options.len() > 0 {
                                    match options[0] {
                                        SpecToken::Identifier(o) => {
                                            if o == "entry_point"@ {
                                                lemma_call_fuel(f, g, st1, SpecNode::FuncCall(seq![def[0], SpecNode::FuncArgs(Seq::empty())]));
                                            }
                                        },
                                        _ => {},
                                    }
                                }
                            },
                            _ => {},
                        }
                    }
                },
                _ => {},
            },
            _ => {},
        }
    }
}

proof fn lemma_run_if_fuel(f: nat, g: nat, st: SpecState, if_stmt: Seq<SpecNode>)
    requires
        f <= g,
    ensures
        !exhausted(run_if(f, st, if_stmt).0) ==> run_if(g, st, if_stmt) == run_if(f, st, if_stmt),
    decreases f, 2int,
{
    if if_stmt.len() > 0 {
        lemma_eval_fuel(f, g, st, if_stmt[0]);
        let (c, st1) = eval(f, st, if_stmt[0]);
        match c {
            SFlow::Done(SpecValue::Bool(true)) => {
                if if_stmt.len() >= 2 {
                    lemma_run_fuel(f, g, st1, if_stmt[1]);
                }
            },
            SFlow::Done(SpecValue::Bool(false)) => {
                if if_stmt.len() > 2 {
                    match if_stmt[2] {
                        SpecNode::Else(body) => lemma_run_fuel(f, g, st1, *body),
                        _ => {},
                    }
                }
            },
            _ => {},
        }
    }
}

proof fn lemma_run_return_fuel(f: nat, g: nat, st: SpecState, ret: Option<Box<SpecNode>>)
    requires
        f <= g,
    ensures
        !exhausted(run_return(f, st, ret).0) ==> run_return(g, st, ret) == run_return(f, st, ret),
    decreases f, 2int,
{
    match ret {
        Some(e) => lemma_eval_fuel(f, g, st, *e),
        None => {},
    }
}

proof fn lemma_call_fuel(f: nat, g: nat, st: SpecState, node: SpecNode)
    requires
        f <= g,
    ensures
        !exhausted(call(f, st, node).0) ==> call(g, st, node) == call(f, st, node),
    decreases f, 0int,
{
    if f > 0 {
        let f1 = (f - 1) as nat;
        let g1 = (g - 1) as nat;
        match node {
            SpecNode::FuncCall(call_args) => {
                if call_args.len() >= 2 {
                    match call_args[0] {
                        SpecNode::FuncName(SpecToken::Identifier(name)) => {
                            if st.funcs.dom().contains(name) {
                                let function = st.funcs[name];
                                match call_args[1] {
                                    SpecNode::FuncArgs(args) => {
                                        lemma_bind_args_fuel(f1, g1, st, args, function.parameters, 0, Map::empty());
                                        let (r, st1) = bind_args(f1, st, args, function.parameters, 0, Map::empty());
                                        match r {
                                            SFlow::Done(arguments) => lemma_enter_function_fuel(f1, g1, st1, name, function, arguments),
                                            _ => {},
                                        }
                                    },
                                    _ => {},
                                }
                            }
                        },
                        _ => {},
                    }
                }
            },
            _ => {},
        }
    }
}

proof fn lemma_bind_args_fuel(f: nat, g: nat, st: SpecState, args: Seq<SpecNode>, params: Seq<SpecNode>, i: int, acc: Map<Seq<char>, SpecValue>)
    requires
        f <= g,
    ensures
        !exhausted(bind_args(f, st, args, params, i, acc).0) ==> bind_args(g, st, args, params, i, acc)
            == bind_args(f, st, args, params, i, acc),
    decreases f, args.len() + 2 - i,
{
    if !(i < 0 || i >= args.len() || i >= params.len()) {
        match params[i] {
            SpecNode::Var(SpecToken::Identifier(pname), ptype) => {
                lemma_cast_fuel(f, g, st, *ptype, args[i]);
                let (r, st1) = cast(f, st, *ptype, args[i]);
                match r {
                    SFlow::Done(v) => lemma_bind_args_fuel(f, g, st1, args, params, i + 1, acc.insert(pname, v)),
                    _ => {},
                }
            },
            _ => {},
        }
    }
}

proof fn lemma_enter_function_fuel(f: nat, g: nat, st: SpecState, name: Seq<char>, function: SpecFunction, arguments: Map<Seq<char>, SpecValue>)
    requires
        f <= g,
    ensures
        !exhausted(enter_function(f, st, name, function, arguments).0) ==> enter_function(g, st, name, function, arguments)
            == enter_function(f, st, name, function, arguments),
    decreases f, 2int,
{
    match function.scope {
        None => {},
        Some(body) => lemma_run_fuel(f, g, with_vars(st, arguments), body),
    }
}

proof fn lemma_eval_fuel(f: nat, g: nat, st: SpecState, expr: SpecNode)
    requires
        f <= g,
    ensures
        !exhausted(eval(f, st, expr).0) ==> eval(g, st, expr) == eval(f, st, expr),
    decreases f, 0int,
{
    if f > 0 {
        let f1 = (f - 1) as nat;
        let g1 = (g - 1) as nat;
        match expr {
            SpecNode::Expr(op, operands) => lemma_operation_fuel(f1, g1, st, op, operands),
            SpecNode::ExprCast(c) => {
                if c.len() >= 2 {
                    lemma_cast_fuel(f1, g1, st, c[0], c[1]);
                }
            },
            SpecNode::FuncCall(_) => lemma_call_fuel(f1, g1, st, expr),
            _ => {},
        }
    }
}

proof fn lemma_operation_fuel(f: nat, g: nat, st: SpecState, op: SpecToken, operands: Seq<SpecNode>)
    requires
        f <= g,
    ensures
        !exhausted(operation(f, st, op, operands).0) ==> operation(g, st, op, operands) == operation(f, st, op, operands),
    decreases f, 1int,
{
    if operands.len() == 2 {
        lemma_eval_fuel(f, g, st, operands[0]);
        let (l, st1) = eval(f, st, operands[0]);
        match l {
            SFlow::Done(lhs) => lemma_eval_fuel(f, g, st1, operands[1]),
            _ => {},
        }
    }
}

proof fn lemma_partial_operation_fuel(f: nat, g: nat, st: SpecState, op: SpecToken, lhs: SpecValue, rhs_expr: SpecNode)
    requires
        f <= g,
    ensures
        !exhausted(partial_operation(f, st, op, lhs, rhs_expr).0) ==> partial_operation(g, st, op, lhs, rhs_expr)
            == partial_operation(f, st, op, lhs, rhs_expr),
    decreases f, 1int,
{
    lemma_eval_fuel(f, g, st, rhs_expr);
}

proof fn lemma_cast_fuel(f: nat, g: nat, st: SpecState, ty: SpecNode, expr: SpecNode)
    requires
        f <= g,
    ensures
        !exhausted(cast(f, st, ty, expr).0) ==> cast(g, st, ty, expr) == cast(f, st, ty, expr),
    decreases f, 1int,
{
    lemma_eval_fuel(f, g, st, expr);
}

/// More fuel changes nothing of a run that did not run out of it: it ends
/// the same way, in the same state.
pub proof fn law_more_fuel_same_run(f: nat, fuel: nat, st: SpecState, node: SpecNode)
    requires
        f <= fuel,
    ensures
        !exhausted(run(f, st, node).0) ==> run(fuel, st, node) == run(f, st, node),
{
    lemma_run_fuel(f, fuel, st, node);
}

/// More fuel changes nothing of a call that did not run out of it.
pub proof fn law_more_fuel_same_call(f: nat, fuel: nat, st: SpecState, node: SpecNode)
    requires
        f <= fuel,
    ensures
        !exhausted(call(f, st, node).0) ==> call(fuel, st, node) == call(f, st, node),
{
    lemma_call_fuel(f, fuel, st, node);
}

/// More fuel changes nothing of an evaluation that did not run out of it.
pub proof fn law_more_fuel_same_eval(f: nat, fuel: nat, st: SpecState, expr: SpecNode)
    requires
        f <= fuel,
    ensures
        !exhausted(eval(f, st, expr).0) ==> eval(fuel, st, expr) == eval(f, st, expr),
{
    lemma_eval_fuel(f, fuel, st, expr);
}

} // verus!

verus! {

/// `v` is an `int` or a `uint`.
pub open spec fn is_integer(v: SpecValue) -> bool {
    v is Int || v is Uint
}

/// The number an integer value stands for.
pub open spec fn integer_of(v: SpecValue) -> int {
    match v {
        SpecValue::Int(a) => a as int,
        SpecValue::Uint(a) => a as int,
        _ => 0,
    }
}

/// Integer arithmetic gives the mathematical sum, difference and product
/// of its operands where that fits the result's type, and aborts where it
/// does not.
pub proof fn law_integer_arithmetic(fl: SpecFloats, a: i64, b: i64, c: u64, d: u64)
    ensures
        value_add(fl, SpecValue::Int(a), SpecValue::Int(b)) == (
            if i64::MIN <= a + b <= i64::MAX { SFlow::Done(SpecValue::Int((a + b) as i64)) } else { SFlow::Halt(SpecHalt::Abort) },
            fl,
        ),
        value_sub(fl, SpecValue::Int(a), SpecValue::Int(b)) == (
            if i64::MIN <= a - b <= i64::MAX { SFlow::Done(SpecValue::Int((a - b) as i64)) } else { SFlow::Halt(SpecHalt::Abort) },
            fl,
        ),
        value_mul(fl, SpecValue::Int(a), SpecValue::Int(b)) == (
            if i64::MIN <= a * b <= i64::MAX { SFlow::Done(SpecValue::Int((a * b) as i64)) } else { SFlow::Halt(SpecHalt::Abort) },
            fl,
        ),
        value_add(fl, SpecValue::Uint(c), SpecValue::Uint(d)) == (
            if c + d <= u64::MAX { SFlow::Done(SpecValue::Uint((c + d) as u64)) } else { SFlow::Halt(SpecHalt::Abort) },
            fl,
        ),
        value_sub(fl, SpecValue::Uint(c), SpecValue::Uint(d)) == (
            if c >= d { SFlow::Done(SpecValue::Uint((c - d) as u64)) } else { SFlow::Halt(SpecHalt::Abort) },
            fl,
        ),
        value_mul(fl, SpecValue::Uint(c), SpecValue::Uint(d)) == (
            if c * d <= u64::MAX { SFlow::Done(SpecValue::Uint((c * d) as u64)) } else { SFlow::Halt(SpecHalt::Abort) },
            fl,
        ),
{
}

/// Addition and multiplication of integers do not depend on the order of
/// their operands, and subtraction undoes addition: `(x - y) + y` is `x`
/// where the difference is defined.
pub proof fn law_integer_algebra(fl: SpecFloats, x: SpecValue, y: SpecValue)
    requires
        is_integer(x),
        is_integer(y),
    ensures
        value_add(fl, x, y).0 == value_add(fl, y, x).0,
        value_mul(fl, x, y).0 == value_mul(fl, y, x).0,
        !(x is Uint && y is Int) ==> (value_sub(fl, x, y).0 matches SFlow::Done(diff) ==> value_add(
            fl,
            diff,
            y,
        ).0 == SFlow::<SpecValue>::Done(x)),
        x is Int && y is Int ==> (value_sub(fl, x, y).0 matches SFlow::Done(diff) ==> integer_of(diff)
            == integer_of(x) - integer_of(y)),
{
    match (x, y) {
        (SpecValue::Int(a), SpecValue::Int(b)) => {
            assert(a * b == b * a) by (nonlinear_arith);
        },
        (SpecValue::Int(a), SpecValue::Uint(b)) => {
            let c = b as i64;
            assert(a * c == c * a) by (nonlinear_arith);
        },
        (SpecValue::Uint(a), SpecValue::Int(b)) => {
            let c = a as i64;
            assert(b * c == c * b) by (nonlinear_arith);
        },
        (SpecValue::Uint(a), SpecValue::Uint(b)) => {
            assert(a * b == b * a) by (nonlinear_arith);
        },
        _ => {},
    }
}

/// Division of unsigned integers is Euclidean: `q * b <= a < q * b + b`;
/// division by zero aborts.
pub proof fn law_uint_division(fl: SpecFloats, a: u64, b: u64)
    ensures
        b == 0 ==> value_div(fl, SpecValue::Uint(a), SpecValue::Uint(b)).0 == SFlow::<SpecValue>::Halt(SpecHalt::Abort),
        value_div(fl, SpecValue::Uint(a), SpecValue::Uint(b)).0 matches SFlow::Done(SpecValue::Uint(q)) ==> q
            * b <= a < q * b + b,
{
    if b != 0 {
        let q = (a / b) as int;
        assert(q * b <= a < q * b + b) by (nonlinear_arith)
            requires
                b > 0,
                q == a / b,
        ;
    }
}

/// Division of signed integers rounds toward zero: the quotient `q` of `a`
/// by `b` leaves a remainder `a - q * b` smaller than `b` in size and of
/// the sign of `a`; division by zero, and the one quotient that does not
/// fit, abort.
pub proof fn law_int_division(fl: SpecFloats, a: i64, b: i64)
    ensures
        b == 0 ==> value_div(fl, SpecValue::Int(a), SpecValue::Int(b)).0 == SFlow::<SpecValue>::Halt(SpecHalt::Abort),
        value_div(fl, SpecValue::Int(a), SpecValue::Int(b)).0 matches SFlow::Done(SpecValue::Int(q)) ==> {
            let r = a - q * b;
            &&& (if r >= 0 { r } else { -r }) < (if b >= 0 { b as int } else { -b })
            &&& (r == 0 || (r > 0) == (a > 0))
        },
{
    if b != 0 {
        let x = a as int;
        let d = b as int;
        let q = trunc_div(x, d);
        let r = x - q * d;
        if x == 0 {
        } else if x > 0 && d > 0 {
            assert(0 <= r < d) by (nonlinear_arith)
                requires
                    x > 0,
                    d > 0,
                    q == x / d,
                    r == x - q * d,
            ;
        } else if x < 0 && d < 0 {
            assert(d < r <= 0) by (nonlinear_arith)
                requires
                    x < 0,
                    d < 0,
                    q == (x * -1) / (d * -1),
                    r == x - q * d,
            ;
        } else if x < 0 {
            assert(-d < r <= 0) by (nonlinear_arith)
                requires
                    x < 0,
                    d > 0,
                    q == ((x * -1) / d) * -1,
                    r == x - q * d,
            ;
        } else {
            assert(0 <= r < -d) by (nonlinear_arith)
                requires
                    x > 0,
                    d < 0,
                    q == (x / (d * -1)) * -1,
                    r == x - q * d,
            ;
        }
        match value_div(fl, SpecValue::Int(a), SpecValue::Int(b)).0 {
            SFlow::Done(SpecValue::Int(qq)) => {
                assert(qq as int == q);
                assert(a - qq * b == r);
            },
            _ => {},
        }
    }
}

/// Integer comparisons answer the mathematical relation of their values;
/// `<` and `>` are each other with the operands swapped, as are `<=` and
/// `>=`, and `==` does not depend on the order of its operands.
pub proof fn law_integer_comparisons(fl: SpecFloats, x: SpecValue, y: SpecValue)
    requires
        is_integer(x),
        is_integer(y),
        x is Int == y is Int || (integer_of(x) <= i64::MAX && integer_of(y) <= i64::MAX),
    ensures
        value_less(fl, x, y) == (SFlow::Done(SpecValue::Bool(integer_of(x) < integer_of(y))), fl),
        value_bigger(fl, x, y) == (SFlow::Done(SpecValue::Bool(integer_of(x) > integer_of(y))), fl),
        value_le(fl, x, y) == (SFlow::Done(SpecValue::Bool(integer_of(x) <= integer_of(y))), fl),
        value_be(fl, x, y) == (SFlow::Done(SpecValue::Bool(integer_of(x) >= integer_of(y))), fl),
        value_eq(fl, x, y) == (SFlow::Done(SpecValue::Bool(integer_of(x) == integer_of(y))), fl),
        value_less(fl, x, y) == value_bigger(fl, y, x),
        value_le(fl, x, y) == value_be(fl, y, x),
        value_eq(fl, x, y) == value_eq(fl, y, x),
{
}

/// Converting a number or a string to the type it already has gives it
/// back, and asks for no float answer.
pub proof fn law_cast_to_own_type(fl: SpecFloats, ty: SpecNode, expr: SpecNode, value: SpecValue)
    requires
        spec_has_type(ty, Some(value)),
        !(value is Bool),
        !(value is Char),
    ensures
        cast_value(fl, ty, expr, value) == (SFlow::Done(value), fl),
{
    reveal_strlit("string");
    reveal_strlit("int");
    reveal_strlit("uint");
    reveal_strlit("float");
    assert("string"@ != "int"@ && "string"@ != "uint"@ && "string"@ != "float"@) by {
        assert("string"@.len() == 6 && "int"@.len() == 3 && "uint"@.len() == 4 && "float"@.len() == 5);
    }
    assert("int"@ != "uint"@ && "int"@ != "float"@ && "uint"@ != "float"@) by {
        assert("int"@.len() == 3 && "uint"@.len() == 4 && "float"@.len() == 5);
    }
    match value {
        SpecValue::Int(_) => assert(cast_value(fl, ty, expr, value) == (SFlow::Done(value), fl)),
        SpecValue::Uint(_) => assert(cast_value(fl, ty, expr, value) == (SFlow::Done(value), fl)),
        SpecValue::Float(_) => assert(cast_value(fl, ty, expr, value) == (SFlow::Done(value), fl)),
        SpecValue::String(_) => assert(cast_value(fl, ty, expr, value) == (SFlow::Done(value), fl)),
        _ => {},
    }
}

/// Strings: `+` puts the right string after the left one, `==` compares
/// them, and the other operators refuse them.
pub proof fn law_string_operations(fl: SpecFloats, x: Seq<char>, y: Seq<char>)
    ensures
        value_add(fl, SpecValue::String(x), SpecValue::String(y)).0 matches SFlow::Done(SpecValue::String(z)) && z.len()
            == x.len() + y.len() && z.take(x.len() as int) == x && z.skip(x.len() as int) == y,
        value_eq(fl, SpecValue::String(x), SpecValue::String(y)).0 == SFlow::<SpecValue>::Done(SpecValue::Bool(x == y)),
        value_sub(fl, SpecValue::String(x), SpecValue::String(y)).0 is Fail,
        value_mul(fl, SpecValue::String(x), SpecValue::String(y)).0 is Fail,
        value_div(fl, SpecValue::String(x), SpecValue::String(y)).0 is Fail,
        value_less(fl, SpecValue::String(x), SpecValue::String(y)).0 is Fail,
{
    let z = x + y;
    assert(z.take(x.len() as int) =~= x);
    assert(z.skip(x.len() as int) =~= y);
}

/// A literal evaluates to the value it spells, and a name to the value of
/// its variable.
pub proof fn law_literal_values(st: SpecState, token: SpecToken)
    ensures
        token matches SpecToken::Int(v) ==> eval_literal(st, token).0 == SFlow::<SpecValue>::Done(SpecValue::Int(v)),
        token matches SpecToken::Uint(v) ==> eval_literal(st, token).0 == SFlow::<SpecValue>::Done(SpecValue::Uint(v)),
        token matches SpecToken::StringLiteral(v) ==> eval_literal(st, token).0 == SFlow::<SpecValue>::Done(SpecValue::String(v)),
        token matches SpecToken::CharLiteral(v) ==> eval_literal(st, token).0 == SFlow::<SpecValue>::Done(SpecValue::Char(v)),
        token matches SpecToken::Identifier(n) ==> eval_literal(st, token).0 == (if st.vars.dom().contains(n) {
            SFlow::<SpecValue>::Done(st.vars[n])
        } else {
            SFlow::<SpecValue>::Fail(SpecError::UnknownVariable(n))
        }),
{
}

proof fn lemma_digit_char(k: int)
    requires
        0 <= k < 10,
    ensures
        crate::numeric::is_digit(crate::text::digit_char(k)),
        crate::numeric::digit_value(crate::text::digit_char(k)) == k,
{
    let c = crate::text::digit_char(k);
    if k == 0 { assert(c == '0'); } else if k == 1 { assert(c == '1'); } else if k == 2 { assert(c == '2'); }
    else if k == 3 { assert(c == '3'); } else if k == 4 { assert(c == '4'); } else if k == 5 { assert(c == '5'); }
    else if k == 6 { assert(c == '6'); } else if k == 7 { assert(c == '7'); } else if k == 8 { assert(c == '8'); }
    else { assert(c == '9'); }
}

proof fn lemma_decimal_reads_back(n: nat)
    ensures
        crate::text::decimal(n).len() > 0,
        crate::numeric::all_digits(crate::text::decimal(n)),
        crate::numeric::digits_value(crate::text::decimal(n)) == n,
    decreases n,
{
    let d = crate::text::decimal(n);
    if n >= 10 {
        lemma_decimal_reads_back(n / 10);
        assert(d.drop_last() == crate::text::decimal(n / 10));
        lemma_digit_char((n % 10) as int);
        assert(crate::numeric::digit_value(d.last()) == n % 10);
        assert(crate::numeric::all_digits(d)) by {
            assert forall|i: int| 0 <= i < d.len() implies #[trigger] crate::numeric::is_digit(d[i]) by {
                if i < d.len() - 1 {
                    assert(d[i] == crate::text::decimal(n / 10)[i]);
                }
            }
        }
        assert((n / 10) * 10 + n % 10 == n);
    } else {
        lemma_digit_char(n as int);
        assert(d.drop_last() =~= Seq::<char>::empty());
        assert(crate::numeric::digits_value(Seq::<char>::empty()) == 0);
        assert(d.last() == crate::text::digit_char(n as int));
    }
}

/// Converting an `int` to a string gives the text that reads back as it:
/// an `i64` literal of that value.
pub proof fn law_int_text_reads_back(a: i64)
    ensures
        crate::numeric::is_i64_literal(crate::text::int_text(a as int)),
        crate::numeric::i64_literal_value(crate::text::int_text(a as int)) == a,
{
    let s = crate::text::int_text(a as int);
    if a < 0 {
        let m = (-(a as int)) as nat;
        lemma_decimal_reads_back(m);
        let d = crate::text::decimal(m);
        assert(s == seq!['-'] + d);
        assert(s.skip(1) =~= d);
        assert(crate::numeric::signed_body(s) == d);
    } else {
        lemma_decimal_reads_back(a as nat);
        let d = crate::text::decimal(a as nat);
        assert(crate::numeric::is_digit(d[0]));
        assert(!crate::numeric::is_sign(d[0]));
        assert(crate::numeric::signed_body(s) == d);
    }
}

/// Converting between `int` and `uint` keeps the value where it fits, and
/// otherwise wraps it by `2^64`.
pub proof fn law_integer_casts(fl: SpecFloats, e: SpecNode, a: i64, b: u64)
    ensures
        cast_value(fl, SpecNode::Type(SpecToken::Identifier("uint"@)), e, SpecValue::Int(a)).0 matches SFlow::Done(SpecValue::Uint(c))
            && c == (if a >= 0 { a as int } else { a + 0x1_0000_0000_0000_0000 }),
        cast_value(fl, SpecNode::Type(SpecToken::Identifier("int"@)), e, SpecValue::Uint(b)).0 matches SFlow::Done(SpecValue::Int(c))
            && c == (if b <= i64::MAX { b as int } else { b - 0x1_0000_0000_0000_0000 }),
        cast_value(fl, SpecNode::Type(SpecToken::Identifier("string"@)), e, SpecValue::Int(a)).0 matches SFlow::Done(SpecValue::String(t))
            && crate::numeric::is_i64_literal(t) && crate::numeric::i64_literal_value(t) == a,
{
    reveal_strlit("string");
    reveal_strlit("int");
    reveal_strlit("uint");
    assert("string"@ != "uint"@ && "string"@ != "int"@ && "int"@ != "uint"@) by {
        assert("string"@.len() == 6 && "int"@.len() == 3 && "uint"@.len() == 4);
    }
    assert((a as u64) == (if a >= 0 { a as int } else { a + 0x1_0000_0000_0000_0000 })) by (bit_vector);
    assert((b as i64) == (if b <= 0x7fff_ffff_ffff_ffffu64 { b as int } else { b - 0x1_0000_0000_0000_0000 })) by (bit_vector);
    law_int_text_reads_back(a);
}

} // verus!

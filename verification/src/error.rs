//! The errors of the parser and of the interpreter.
use vstd::prelude::*;
use crate::interpreter::{Function, SpecFunction, SpecValue, Value};
use crate::lexer::{tokens_view, SpecToken, Token};
use crate::parser::{nodes_view, SpecNode, SyntaxNode};

verus! {

/// What went wrong.
#[derive(Debug)]
pub enum Error {
    UnableToOpenFile(String),
    LexicalError(String),
    Expected(Vec<Token>, Token),
    ExpectedIdentifier(Token),
    ExpectedExpr(Token),
    NotAnOperator(Token),
    UnknownInstruction,
    NotAnExpression(SyntaxNode),
    NotExpressionLiteral(Token),
    TooMuchOperands(Vec<SyntaxNode>),
    NotEnoughOperand(Vec<SyntaxNode>),
    CannotPerform(Token, Value, Value),
    CannotCast(SyntaxNode, SyntaxNode),
    UnknownType(String),
    NotAVar(SyntaxNode),
    FuncRegisterFailed,
    VariableAlreadyExists(String),
    UnknownVariable(String),
    UnknownFunction(String),
    ExpectedFuncName(SyntaxNode),
    ExpectedFuncParam(SyntaxNode),
    ExpectedFuncArgs(SyntaxNode),
    ExpectedBool(Value),
    ExpectedElseBranch(SyntaxNode),
    NotAFunction(SyntaxNode),
    VoidInExpression(SyntaxNode),
    MissingReturn(String),
    MissingFunction(Function),
    NotAFuncHeader(SyntaxNode),
    NotAnFuncOption(Token),
    ReturnIncompatibleType(Value),
}

/// The mathematical value of an [`Error`].
pub enum SpecError {
    UnableToOpenFile(Seq<char>),
    LexicalError(Seq<char>),
    Expected(Seq<SpecToken>, SpecToken),
    ExpectedIdentifier(SpecToken),
    ExpectedExpr(SpecToken),
    NotAnOperator(SpecToken),
    UnknownInstruction,
    NotAnExpression(SpecNode),
    NotExpressionLiteral(SpecToken),
    TooMuchOperands(Seq<SpecNode>),
    NotEnoughOperand(Seq<SpecNode>),
    CannotPerform(SpecToken, SpecValue, SpecValue),
    CannotCast(SpecNode, SpecNode),
    UnknownType(Seq<char>),
    NotAVar(SpecNode),
    FuncRegisterFailed,
    VariableAlreadyExists(Seq<char>),
    UnknownVariable(Seq<char>),
    UnknownFunction(Seq<char>),
    ExpectedFuncName(SpecNode),
    ExpectedFuncParam(SpecNode),
    ExpectedFuncArgs(SpecNode),
    ExpectedBool(SpecValue),
    ExpectedElseBranch(SpecNode),
    NotAFunction(SpecNode),
    VoidInExpression(SpecNode),
    MissingReturn(Seq<char>),
    MissingFunction(SpecFunction),
    NotAFuncHeader(SpecNode),
    NotAnFuncOption(SpecToken),
    ReturnIncompatibleType(SpecValue),
}

impl View for Error {
    type V = SpecError;

    open spec fn view(&self) -> SpecError {
        match self {
            Error::UnableToOpenFile(s) => SpecError::UnableToOpenFile(s@),
            Error::LexicalError(s) => SpecError::LexicalError(s@),
            Error::Expected(v, t) => SpecError::Expected(tokens_view(v@), t@),
            Error::ExpectedIdentifier(t) => SpecError::ExpectedIdentifier(t@),
            Error::ExpectedExpr(t) => SpecError::ExpectedExpr(t@),
            Error::NotAnOperator(t) => SpecError::NotAnOperator(t@),
            Error::UnknownInstruction => SpecError::UnknownInstruction,
            Error::NotAnExpression(n) => SpecError::NotAnExpression(n@),
            Error::NotExpressionLiteral(t) => SpecError::NotExpressionLiteral(t@),
            Error::TooMuchOperands(v) => SpecError::TooMuchOperands(nodes_view(v@)),
            Error::NotEnoughOperand(v) => SpecError::NotEnoughOperand(nodes_view(v@)),
            Error::CannotPerform(t, a, b) => SpecError::CannotPerform(t@, a@, b@),
            Error::CannotCast(a, b) => SpecError::CannotCast(a@, b@),
            Error::UnknownType(s) => SpecError::UnknownType(s@),
            Error::NotAVar(n) => SpecError::NotAVar(n@),
            Error::FuncRegisterFailed => SpecError::FuncRegisterFailed,
            Error::VariableAlreadyExists(s) => SpecError::VariableAlreadyExists(s@),
            Error::UnknownVariable(s) => SpecError::UnknownVariable(s@),
            Error::UnknownFunction(s) => SpecError::UnknownFunction(s@),
            Error::ExpectedFuncName(n) => SpecError::ExpectedFuncName(n@),
            Error::ExpectedFuncParam(n) => SpecError::ExpectedFuncParam(n@),
            Error::ExpectedFuncArgs(n) => SpecError::ExpectedFuncArgs(n@),
            Error::ExpectedBool(v) => SpecError::ExpectedBool(v@),
            Error::ExpectedElseBranch(n) => SpecError::ExpectedElseBranch(n@),
            Error::NotAFunction(n) => SpecError::NotAFunction(n@),
            Error::VoidInExpression(n) => SpecError::VoidInExpression(n@),
            Error::MissingReturn(s) => SpecError::MissingReturn(s@),
            Error::MissingFunction(f) => SpecError::MissingFunction(f@),
            Error::NotAFuncHeader(n) => SpecError::NotAFuncHeader(n@),
            Error::NotAnFuncOption(t) => SpecError::NotAnFuncOption(t@),
            Error::ReturnIncompatibleType(v) => SpecError::ReturnIncompatibleType(v@),
        }
    }
}

} // verus!

//! Turns tokens into a syntax tree.
use vstd::prelude::*;
use crate::error::{Error, SpecError};
use crate::lexer::{tokens_view, SpecToken, Token};

verus! {

/// A node of the syntax tree.
#[derive(Debug, PartialEq)]
pub enum SyntaxNode {
    Scope(Vec<SyntaxNode>),
    FuncHeader(Vec<Token>),
    FuncName(Token),
    FuncParams(Vec<SyntaxNode>),
    FuncDef(Vec<SyntaxNode>),
    FuncArgs(Vec<SyntaxNode>),
    FuncCall(Vec<SyntaxNode>),
    ExprLiteral(Token),
    ExprCast(Vec<SyntaxNode>),
    Expr(Token, Vec<SyntaxNode>),
    Var(Token, Box<SyntaxNode>),
    Type(Token),
    ConstDecl(Vec<SyntaxNode>),
    VarDecl(Vec<SyntaxNode>),
    VarModif(Token, Token, Box<SyntaxNode>),
    If(Vec<SyntaxNode>),
    Else(Box<SyntaxNode>),
    While(Vec<SyntaxNode>),
    ForTraditionnal(Vec<SyntaxNode>),
    ForModern(Vec<SyntaxNode>),
    ForVars(Vec<SyntaxNode>),
    ForIterators(Vec<Token>),
    /// A return statement, with the returned expression if any; the
    /// interpreter runs it, the parser does not produce it.
    Return(Option<Box<SyntaxNode>>),
}

/// The mathematical value of a [`SyntaxNode`].
pub enum SpecNode {
    Scope(Seq<SpecNode>),
    FuncHeader(Seq<SpecToken>),
    FuncName(SpecToken),
    FuncParams(Seq<SpecNode>),
    FuncDef(Seq<SpecNode>),
    FuncArgs(Seq<SpecNode>),
    FuncCall(Seq<SpecNode>),
    ExprLiteral(SpecToken),
    ExprCast(Seq<SpecNode>),
    Expr(SpecToken, Seq<SpecNode>),
    Var(SpecToken, Box<SpecNode>),
    Type(SpecToken),
    ConstDecl(Seq<SpecNode>),
    VarDecl(Seq<SpecNode>),
    VarModif(SpecToken, SpecToken, Box<SpecNode>),
    If(Seq<SpecNode>),
    Else(Box<SpecNode>),
    While(Seq<SpecNode>),
    ForTraditionnal(Seq<SpecNode>),
    ForModern(Seq<SpecNode>),
    ForVars(Seq<SpecNode>),
    ForIterators(Seq<SpecToken>),
    Return(Option<Box<SpecNode>>),
}

impl View for SyntaxNode {
    type V = SpecNode;

    open spec fn view(&self) -> SpecNode
        decreases self,
    {
        match self {
            SyntaxNode::Scope(v) => SpecNode::Scope(nodes_view(v@)),
            SyntaxNode::FuncHeader(v) => SpecNode::FuncHeader(tokens_view(v@)),
            SyntaxNode::FuncName(t) => SpecNode::FuncName(t@),
            SyntaxNode::FuncParams(v) => SpecNode::FuncParams(nodes_view(v@)),
            SyntaxNode::FuncDef(v) => SpecNode::FuncDef(nodes_view(v@)),
            SyntaxNode::FuncArgs(v) => SpecNode::FuncArgs(nodes_view(v@)),
            SyntaxNode::FuncCall(v) => SpecNode::FuncCall(nodes_view(v@)),
            SyntaxNode::ExprLiteral(t) => SpecNode::ExprLiteral(t@),
            SyntaxNode::ExprCast(v) => SpecNode::ExprCast(nodes_view(v@)),
            SyntaxNode::Expr(t, v) => SpecNode::Expr(t@, nodes_view(v@)),
            SyntaxNode::Var(t, b) => SpecNode::Var(t@, Box::new((**b).view())),
            SyntaxNode::Type(t) => SpecNode::Type(t@),
            SyntaxNode::ConstDecl(v) => SpecNode::ConstDecl(nodes_view(v@)),
            SyntaxNode::VarDecl(v) => SpecNode::VarDecl(nodes_view(v@)),
            SyntaxNode::VarModif(a, b, c) => SpecNode::VarModif(a@, b@, Box::new((**c).view())),
            SyntaxNode::If(v) => SpecNode::If(nodes_view(v@)),
            SyntaxNode::Else(b) => SpecNode::Else(Box::new((**b).view())),
            SyntaxNode::While(v) => SpecNode::While(nodes_view(v@)),
            SyntaxNode::ForTraditionnal(v) => SpecNode::ForTraditionnal(nodes_view(v@)),
            SyntaxNode::ForModern(v) => SpecNode::ForModern(nodes_view(v@)),
            SyntaxNode::ForVars(v) => SpecNode::ForVars(nodes_view(v@)),
            SyntaxNode::ForIterators(v) => SpecNode::ForIterators(tokens_view(v@)),
            SyntaxNode::Return(r) => SpecNode::Return(
                match r {
                    Some(b) => Some(Box::new((**b).view())),
                    None => None,
                },
            ),
        }
    }
}

/// The value of a sequence of nodes.
pub open spec fn nodes_view(s: Seq<SyntaxNode>) -> Seq<SpecNode>
    decreases s,
{
    if s.len() == 0 {
        Seq::<SpecNode>::empty()
    } else {
        seq![s[0].view()] + nodes_view(s.drop_first())
    }
}

pub proof fn lemma_nodes_view(s: Seq<SyntaxNode>)
    ensures
        nodes_view(s).len() == s.len(),
        forall|i: int| 0 <= i < s.len() ==> #[trigger] nodes_view(s)[i] == s[i]@,
    decreases s.len(),
{
    if s.len() > 0 {
        lemma_nodes_view(s.drop_first());
        let rest = nodes_view(s.drop_first());
        assert(nodes_view(s) == seq![s[0].view()] + rest);
        assert forall|i: int| 0 <= i < s.len() implies #[trigger] nodes_view(s)[i] == s[i]@ by {
            if i > 0 {
                assert(s.drop_first()[i - 1] == s[i]);
            }
        }
    }
}

/// What a parsing function gives: the node or the error, and the position
/// of the first token it has not consumed; `None` where it would not return.
pub type SpecStep = Option<(Result<SpecNode, SpecError>, int)>;

/// The token at `p`, or `EOF` past the end (`peek().unwrap_or(&EOF)`).
pub open spec fn tok_at(t: Seq<SpecToken>, p: int) -> SpecToken {
    if 0 <= p < t.len() {
        t[p]
    } else {
        SpecToken::EOF
    }
}

/// The position after consuming the token at `p`, if there is one.
pub open spec fn next_pos(t: Seq<SpecToken>, p: int) -> int {
    if 0 <= p < t.len() {
        p + 1
    } else {
        p
    }
}

pub open spec fn expected(exp: SpecToken, found: SpecToken) -> SpecError {
    SpecError::Expected(seq![exp], found)
}

/// The binding powers of an operator, in tenths: (left, right).
pub open spec fn spec_binding_power(tok: SpecToken) -> Option<(int, int)> {
    match tok {
        SpecToken::EqualTo => Some((0, 1)),
        SpecToken::BiggerThan => Some((0, 1)),
        SpecToken::LessThan => Some((0, 1)),
        SpecToken::BiggerOrEqualTo => Some((0, 1)),
        SpecToken::LessOrEqualTo => Some((0, 1)),
        SpecToken::Plus => Some((10, 11)),
        SpecToken::Minus => Some((10, 11)),
        SpecToken::Times => Some((20, 21)),
        SpecToken::Div => Some((20, 21)),
        SpecToken::BitwiseAnd => Some((50, 51)),
        SpecToken::BitwiseOr => Some((30, 31)),
        SpecToken::BitwiseXor => Some((40, 41)),
        _ => None,
    }
}

/// `Type ::= Identifier`
pub open spec fn spec_parse_type(t: Seq<SpecToken>, p: int) -> (Result<SpecNode, SpecError>, int) {
    let v = tok_at(t, p);
    let p1 = next_pos(t, p);
    if v is Identifier {
        (Ok(SpecNode::Type(v)), p1)
    } else {
        (Err(SpecError::ExpectedIdentifier(v)), p1)
    }
}

/// `Var ::= Type Identifier`
pub open spec fn spec_parse_var(t: Seq<SpecToken>, p: int) -> (Result<SpecNode, SpecError>, int) {
    let (r, p1) = spec_parse_type(t, p);
    match r {
        Err(e) => (Err(e), p1),
        Ok(ty) => {
            let n = tok_at(t, p1);
            let p2 = next_pos(t, p1);
            if n is Identifier {
                (Ok(SpecNode::Var(n, Box::new(ty))), p2)
            } else {
                (Err(SpecError::ExpectedIdentifier(n)), p2)
            }
        },
    }
}

/// `]` after the options of a function header.
pub open spec fn spec_header_close(t: Seq<SpecToken>, p: int, opts: Seq<SpecToken>) -> SpecStep {
    let c = tok_at(t, p);
    let p1 = next_pos(t, p);
    if c != SpecToken::CloseSqrBrackets {
        Some((Err(expected(SpecToken::CloseSqrBrackets, c)), p1))
    } else {
        Some((Ok(SpecNode::FuncHeader(opts)), p1))
    }
}

/// The options of a function header, separated by commas; `None` when the
/// tokens end where an option is due.
pub open spec fn spec_header_items(t: Seq<SpecToken>, p: int, opts: Seq<SpecToken>) -> SpecStep
    decreases t.len() - p,
{
    if !(0 <= p < t.len()) {
        None
    } else {
        let id = t[p];
        let p1 = p + 1;
        if !(id is Identifier) {
            Some((Err(SpecError::ExpectedIdentifier(id)), p1))
        } else {
            let opts2 = opts.push(id);
            let pk = tok_at(t, p1);
            if pk is CloseSqrBrackets || pk is EOF {
                spec_header_close(t, p1, opts2)
            } else {
                let c = tok_at(t, p1);
                let p2 = next_pos(t, p1);
                if c != SpecToken::Comma {
                    Some((Err(expected(SpecToken::Comma, c)), p2))
                } else {
                    spec_header_items(t, p2, opts2)
                }
            }
        }
    }
}

/// `FuncHeader ::= '[' Identifier (',' Identifier)* ']'`
pub open spec fn spec_parse_func_header(t: Seq<SpecToken>, p: int) -> SpecStep {
    let o = tok_at(t, p);
    let p1 = next_pos(t, p);
    if o != SpecToken::OpenSqrBrackets {
        Some((Err(expected(SpecToken::OpenSqrBrackets, o)), p1))
    } else {
        spec_header_items(t, p1, Seq::<SpecToken>::empty())
    }
}

/// `)` after the parameters of a function.
pub open spec fn spec_params_close(t: Seq<SpecToken>, p: int, acc: Seq<SpecNode>) -> (
    Result<SpecNode, SpecError>,
    int,
) {
    let c = tok_at(t, p);
    let p1 = next_pos(t, p);
    if c != SpecToken::CloseParentheses {
        (Err(expected(SpecToken::CloseParentheses, c)), p1)
    } else {
        (Ok(SpecNode::FuncParams(acc)), p1)
    }
}

pub open spec fn is_close_or_eof(tok: SpecToken) -> bool {
    tok is CloseParentheses || tok is EOF
}

/// The parameters of a function, separated by commas.
pub open spec fn spec_params_loop(t: Seq<SpecToken>, p: int, acc: Seq<SpecNode>) -> (
    Result<SpecNode, SpecError>,
    int,
)
    decreases t.len() - p,
{
    if is_close_or_eof(tok_at(t, p)) {
        spec_params_close(t, p, acc)
    } else {
        let (r, p1) = spec_parse_var(t, p);
        match r {
            Err(e) => (Err(e), p1),
            Ok(v) => {
                let acc2 = acc.push(v);
                if is_close_or_eof(tok_at(t, p1)) {
                    spec_params_close(t, p1, acc2)
                } else {
                    let c = tok_at(t, p1);
                    let p2 = next_pos(t, p1);
                    if c != SpecToken::Comma {
                        (Err(expected(SpecToken::Comma, c)), p2)
                    } else {
                        spec_params_loop(t, p2, acc2)
                    }
                }
            },
        }
    }
}

/// `FuncParams ::= '(' (Var (',' Var)*)? ')'`
pub open spec fn spec_parse_func_params(t: Seq<SpecToken>, p: int) -> (
    Result<SpecNode, SpecError>,
    int,
) {
    let o = tok_at(t, p);
    let p1 = next_pos(t, p);
    if o != SpecToken::OpenParentheses {
        (Err(expected(SpecToken::OpenParentheses, o)), p1)
    } else {
        spec_params_loop(t, p1, Seq::<SpecNode>::empty())
    }
}

/// The loop variables of a modern `for`, separated by commas, up to `in`.
pub open spec fn spec_for_vars_loop(t: Seq<SpecToken>, p: int, acc: Seq<SpecNode>) -> (
    Result<SpecNode, SpecError>,
    int,
)
    decreases t.len() - p,
{
    let (r, p1) = spec_parse_var(t, p);
    match r {
        Err(e) => (Err(e), p1),
        Ok(v) => {
            let acc2 = acc.push(v);
            let pk = tok_at(t, p1);
            if pk is EOF || pk is In {
                (Ok(SpecNode::ForVars(acc2)), p1)
            } else {
                let c = tok_at(t, p1);
                let p2 = next_pos(t, p1);
                if c != SpecToken::Comma {
                    (Err(expected(SpecToken::Comma, c)), p2)
                } else {
                    spec_for_vars_loop(t, p2, acc2)
                }
            }
        },
    }
}

pub open spec fn spec_parse_for_vars(t: Seq<SpecToken>, p: int) -> (Result<SpecNode, SpecError>, int) {
    spec_for_vars_loop(t, p, Seq::<SpecNode>::empty())
}

/// The iterated names of a modern `for`, up to `{`.
pub open spec fn spec_for_iterators_loop(t: Seq<SpecToken>, p: int, acc: Seq<SpecToken>) -> (
    Result<SpecNode, SpecError>,
    int,
)
    decreases t.len() - p,
{
    let n = tok_at(t, p);
    let p1 = next_pos(t, p);
    if !(n is Identifier) {
        (Err(SpecError::ExpectedIdentifier(n)), p1)
    } else {
        let acc2 = acc.push(n);
        let pk = tok_at(t, p1);
        if pk is EOF || pk is OpenCurlyBrackets {
            (Ok(SpecNode::ForIterators(acc2)), p1)
        } else {
            spec_for_iterators_loop(t, p1, acc2)
        }
    }
}

pub open spec fn spec_parse_for_iterators(t: Seq<SpecToken>, p: int) -> (
    Result<SpecNode, SpecError>,
    int,
) {
    spec_for_iterators_loop(t, p, Seq::<SpecToken>::empty())
}

/// `VarIncDec ::= Identifier ('++' | '--')`, read as adding 1 or -1.
pub open spec fn spec_parse_var_inc_dec(t: Seq<SpecToken>, p: int) -> (
    Result<SpecNode, SpecError>,
    int,
) {
    let n = tok_at(t, p);
    let p1 = next_pos(t, p);
    if !(n is Identifier) {
        (Err(SpecError::ExpectedIdentifier(n)), p1)
    } else {
        let op = tok_at(t, p1);
        let p2 = next_pos(t, p1);
        if !(op is Inc || op is Dec) {
            (Err(SpecError::Expected(seq![SpecToken::Inc, SpecToken::Dec], op)), p2)
        } else {
            let amount = if op is Inc {
                SpecNode::ExprLiteral(SpecToken::Int(1i64))
            } else {
                SpecNode::ExprLiteral(SpecToken::Int(-1i64))
            };
            (Ok(SpecNode::VarModif(n, SpecToken::Plus, Box::new(amount))), p2)
        }
    }
}

} // verus!

verus! {

/// The state of a choice between several parsing functions: the result
/// chosen so far, how far the failure chosen so far got, and the position.
pub type OptState = (Result<SpecNode, SpecError>, int, int);

/// One attempt of a choice between parsing functions, whose outcome is `r`:
/// a success consumes its tokens and is chosen; a failure consumes none and
/// is chosen when it got further than the failure chosen so far (or none
/// was chosen yet).
pub open spec fn attempt(t: Seq<SpecToken>, st: OptState, r: SpecStep) -> Option<OptState> {
    match r {
        None => None,
        Some((res, q)) => {
            if !(st.2 <= q <= t.len()) {
                None
            } else {
                let (res2, dst, npos) = match res {
                    Err(e) => (Err(e), q - st.2, st.2),
                    Ok(n) => (Ok(n), usize::MAX as int, q),
                };
                if res2 is Ok || dst > st.1 || st.1 == 0 {
                    Some((res2, dst, npos))
                } else {
                    Some((st.0, st.1, npos))
                }
            }
        },
    }
}

/// The result of a choice, with the position where it left the tokens.
pub open spec fn chosen(s: Option<OptState>) -> SpecStep {
    match s {
        None => None,
        Some(st) => Some((st.0, st.2)),
    }
}

pub open spec fn no_choice(p: int) -> OptState {
    (Err(SpecError::UnknownInstruction), 0, p)
}

pub open spec fn lift(r: (Result<SpecNode, SpecError>, int)) -> SpecStep {
    Some(r)
}

/// An instruction: the first of the statement forms that succeeds, then a
/// `;` unless it is a block statement.
#[verifier::opaque]
pub open spec fn spec_parse_instruction(t: Seq<SpecToken>, p: int) -> SpecStep
    decreases t.len() - p, 9int,
{
    let s0 = no_choice(p);
    match attempt(t, s0, spec_parse_const_decl(t, s0.2)) {
        None => None,
        Some(s1) => match attempt(t, s1, spec_parse_var_decl(t, s1.2)) {
            None => None,
            Some(s2) => match attempt(t, s2, spec_parse_var_modif(t, s2.2)) {
                None => None,
                Some(s3) => match attempt(t, s3, lift(spec_parse_var_inc_dec(t, s3.2))) {
                    None => None,
                    Some(s4) => match attempt(t, s4, spec_parse_if_else(t, s4.2)) {
                        None => None,
                        Some(s5) => match attempt(t, s5, spec_parse_while_loop(t, s5.2)) {
                            None => None,
                            Some(s6) => match attempt(t, s6, spec_parse_for_traditionnal(t, s6.2)) {
                                None => None,
                                Some(s7) => match attempt(t, s7, spec_parse_for_modern(t, s7.2)) {
                                    None => None,
                                    Some(s8) => match attempt(t, s8, spec_parse_func_call(t, s8.2)) {
                                        None => None,
                                        Some(s9) => match attempt(
                                            t,
                                            s9,
                                            spec_parse_func_def(t, s9.2),
                                        ) {
                                            None => None,
                                            Some(s10) => spec_end_instruction(t, s10),
                                        },
                                    },
                                },
                            },
                        },
                    },
                },
            },
        },
    }
}

/// After the choice of an instruction: block statements stand alone, the
/// others end with `;`.
pub open spec fn spec_end_instruction(t: Seq<SpecToken>, st: OptState) -> SpecStep {
    match st.0 {
        Err(e) => Some((Err(e), st.2)),
        Ok(ins) => {
            if ins is FuncDef || ins is If || ins is While || ins is ForTraditionnal
                || ins is ForModern {
                Some((Ok(ins), st.2))
            } else {
                let c = tok_at(t, st.2);
                let q = next_pos(t, st.2);
                if c != SpecToken::SemiColon {
                    Some((Err(expected(SpecToken::SemiColon, c)), q))
                } else {
                    Some((Ok(ins), q))
                }
            }
        },
    }
}

/// `}` after the instructions of a scope.
pub open spec fn spec_scope_close(t: Seq<SpecToken>, p: int, acc: Seq<SpecNode>) -> SpecStep {
    let c = tok_at(t, p);
    let p1 = next_pos(t, p);
    if c != SpecToken::CloseCurlyBrackets {
        Some((Err(expected(SpecToken::CloseCurlyBrackets, c)), p1))
    } else {
        Some((Ok(SpecNode::Scope(acc)), p1))
    }
}

pub open spec fn ends_scope(tok: SpecToken) -> bool {
    tok is EOF || tok is CloseCurlyBrackets
}

/// The instructions of a scope, up to `}`.
pub open spec fn spec_scope_loop(t: Seq<SpecToken>, p: int, acc: Seq<SpecNode>) -> SpecStep
    decreases t.len() - p, 10int,
{
    if ends_scope(tok_at(t, p)) {
        spec_scope_close(t, p, acc)
    } else {
        match spec_parse_instruction(t, p) {
            None => None,
            Some((Err(e), q)) => Some((Err(e), q)),
            Some((Ok(ins), q)) => {
                if !(p < q <= t.len()) {
                    None
                } else {
                    let acc2 = acc.push(ins);
                    if ends_scope(tok_at(t, q)) {
                        spec_scope_close(t, q, acc2)
                    } else {
                        spec_scope_loop(t, q, acc2)
                    }
                }
            },
        }
    }
}

/// `Scope ::= '{' Instruction* '}'`
pub open spec fn spec_parse_scope(t: Seq<SpecToken>, p: int) -> SpecStep
    decreases t.len() - p, 1int,
{
    let o = tok_at(t, p);
    let p1 = next_pos(t, p);
    if o != SpecToken::OpenCurlyBrackets {
        Some((Err(expected(SpecToken::OpenCurlyBrackets, o)), p1))
    } else {
        spec_scope_loop(t, p1, Seq::<SpecNode>::empty())
    }
}

/// `)` after the arguments of a call.
pub open spec fn spec_args_close(t: Seq<SpecToken>, p: int, acc: Seq<SpecNode>) -> SpecStep {
    let c = tok_at(t, p);
    let p1 = next_pos(t, p);
    if c != SpecToken::CloseParentheses {
        Some((Err(expected(SpecToken::CloseParentheses, c)), p1))
    } else {
        Some((Ok(SpecNode::FuncArgs(acc)), p1))
    }
}

/// The arguments of a call, separated by commas.
pub open spec fn spec_args_loop(t: Seq<SpecToken>, p: int, acc: Seq<SpecNode>) -> SpecStep
    decreases t.len() - p, 8int,
{
    if is_close_or_eof(tok_at(t, p)) {
        spec_args_close(t, p, acc)
    } else {
        match spec_parse_expression(t, p, 0) {
            None => None,
            Some((Err(e), q)) => Some((Err(e), q)),
            Some((Ok(a), q)) => {
                if !(p < q <= t.len()) {
                    None
                } else {
                    let acc2 = acc.push(a);
                    if is_close_or_eof(tok_at(t, q)) {
                        spec_args_close(t, q, acc2)
                    } else {
                        let c = tok_at(t, q);
                        let q1 = next_pos(t, q);
                        if c != SpecToken::Comma {
                            Some((Err(expected(SpecToken::Comma, c)), q1))
                        } else {
                            spec_args_loop(t, q1, acc2)
                        }
                    }
                }
            },
        }
    }
}

/// `FuncArgs ::= '(' (Expression (',' Expression)*)? ')'`
pub open spec fn spec_parse_func_args(t: Seq<SpecToken>, p: int) -> SpecStep
    decreases t.len() - p, 1int,
{
    let o = tok_at(t, p);
    let p1 = next_pos(t, p);
    if o != SpecToken::OpenParentheses {
        Some((Err(expected(SpecToken::OpenParentheses, o)), p1))
    } else {
        spec_args_loop(t, p1, Seq::<SpecNode>::empty())
    }
}

/// `FuncCall ::= Identifier FuncArgs`
pub open spec fn spec_parse_func_call(t: Seq<SpecToken>, p: int) -> SpecStep
    decreases t.len() - p, 2int,
{
    let n = tok_at(t, p);
    let p1 = next_pos(t, p);
    if !(n is Identifier) {
        Some((Err(SpecError::ExpectedIdentifier(n)), p1))
    } else {
        match spec_parse_func_args(t, p1) {
            None => None,
            Some((Err(e), q)) => Some((Err(e), q)),
            Some((Ok(a), q)) => Some(
                (Ok(SpecNode::FuncCall(seq![SpecNode::FuncName(n), a])), q),
            ),
        }
    }
}

pub open spec fn is_value_token(tok: SpecToken) -> bool {
    tok is StringLiteral || tok is CharLiteral || tok is Int || tok is Uint || tok is Float
        || tok is Identifier
}

/// `Value ::= FuncCall | literal | Identifier`
pub open spec fn spec_parse_value(t: Seq<SpecToken>, p: int) -> SpecStep
    decreases t.len() - p, 3int,
{
    match spec_parse_func_call(t, p) {
        None => None,
        Some((Ok(n), q)) => Some((Ok(n), q)),
        Some((Err(_), _)) => {
            let e = tok_at(t, p);
            let p1 = next_pos(t, p);
            if is_value_token(e) {
                Some((Ok(SpecNode::ExprLiteral(e)), p1))
            } else {
                Some((Err(SpecError::ExpectedExpr(e)), p1))
            }
        },
    }
}

pub open spec fn ends_expression(tok: SpecToken) -> bool {
    tok is Comma || tok is SemiColon || tok is EOF || tok is CloseParentheses
        || tok is OpenCurlyBrackets
}

/// The operators and casts that follow `lhs`, by precedence climbing:
/// operators that bind less than `min` are left to the caller.
pub open spec fn spec_expr_loop(t: Seq<SpecToken>, p: int, lhs: SpecNode, min: int) -> SpecStep
    decreases t.len() - p, 1int,
{
    let op = tok_at(t, p);
    if ends_expression(op) {
        Some((Ok(lhs), p))
    } else if op is As {
        let (r, p2) = spec_parse_type(t, p + 1);
        match r {
            Err(e) => Some((Err(e), p2)),
            Ok(ty) => spec_expr_loop(t, p2, SpecNode::ExprCast(seq![ty, lhs]), min),
        }
    } else {
        match spec_binding_power(op) {
            None => Some((Err(SpecError::NotAnOperator(op)), p)),
            Some((left, right)) => {
                if left < min {
                    Some((Ok(lhs), p))
                } else {
                    match spec_parse_expression(t, p + 1, right) {
                        None => None,
                        Some((Err(e), q)) => Some((Err(e), q)),
                        Some((Ok(rhs), q)) => {
                            if !(p < q <= t.len()) {
                                None
                            } else {
                                spec_expr_loop(t, q, SpecNode::Expr(op, seq![lhs, rhs]), min)
                            }
                        },
                    }
                }
            },
        }
    }
}

/// `Expression ::= ('(' Expression ')' | Value) (Operator Expression | 'as' Type)*`
pub open spec fn spec_parse_expression(t: Seq<SpecToken>, p: int, min: int) -> SpecStep
    decreases t.len() - p, 4int,
{
    let first = if tok_at(t, p) is OpenParentheses {
        match spec_parse_expression(t, p + 1, 0) {
            None => None,
            Some((Err(e), q)) => Some((Err(e), q)),
            Some((Ok(inner), q)) => {
                let c = tok_at(t, q);
                let q1 = next_pos(t, q);
                if c != SpecToken::CloseParentheses {
                    Some((Err(expected(SpecToken::CloseParentheses, c)), q1))
                } else {
                    Some((Ok(inner), q1))
                }
            },
        }
    } else {
        spec_parse_value(t, p)
    };
    match first {
        None => None,
        Some((Err(e), q)) => Some((Err(e), q)),
        Some((Ok(lhs), q)) => {
            if !(p < q <= t.len()) {
                None
            } else {
                spec_expr_loop(t, q, lhs, min)
            }
        },
    }
}

/// `ConstDecl ::= 'const' Var '=' Expression`
pub open spec fn spec_parse_const_decl(t: Seq<SpecToken>, p: int) -> SpecStep
    decreases t.len() - p, 2int,
{
    let c = tok_at(t, p);
    let p1 = next_pos(t, p);
    if c != SpecToken::Const {
        Some((Err(expected(SpecToken::Const, c)), p1))
    } else {
        let (rv, p2) = spec_parse_var(t, p1);
        match rv {
            Err(e) => Some((Err(e), p2)),
            Ok(var) => {
                let e = tok_at(t, p2);
                let p3 = next_pos(t, p2);
                if e != SpecToken::Equal {
                    Some((Err(expected(SpecToken::Equal, e)), p3))
                } else {
                    match spec_parse_expression(t, p3, 0) {
                        None => None,
                        Some((Err(err), q)) => Some((Err(err), q)),
                        Some((Ok(val), q)) => Some((Ok(SpecNode::ConstDecl(seq![var, val])), q)),
                    }
                }
            },
        }
    }
}

/// `VarDecl ::= 'let' Var ('=' Expression)?`
pub open spec fn spec_parse_var_decl(t: Seq<SpecToken>, p: int) -> SpecStep
    decreases t.len() - p, 2int,
{
    let c = tok_at(t, p);
    let p1 = next_pos(t, p);
    if c != SpecToken::Let {
        Some((Err(expected(SpecToken::Let, c)), p1))
    } else {
        let (rv, p2) = spec_parse_var(t, p1);
        match rv {
            Err(e) => Some((Err(e), p2)),
            Ok(var) => {
                if tok_at(t, p2) == SpecToken::SemiColon {
                    Some((Ok(SpecNode::VarDecl(seq![var])), p2))
                } else {
                    let e = tok_at(t, p2);
                    let p3 = next_pos(t, p2);
                    if e != SpecToken::Equal {
                        Some((Err(expected(SpecToken::Equal, e)), p3))
                    } else {
                        match spec_parse_expression(t, p3, 0) {
                            None => None,
                            Some((Err(err), q)) => Some((Err(err), q)),
                            Some((Ok(val), q)) => Some((Ok(SpecNode::VarDecl(seq![var, val])), q)),
                        }
                    }
                }
            },
        }
    }
}

/// `VarModif ::= Identifier Operator? '=' Expression`
pub open spec fn spec_parse_var_modif(t: Seq<SpecToken>, p: int) -> SpecStep
    decreases t.len() - p, 2int,
{
    let n = tok_at(t, p);
    let p1 = next_pos(t, p);
    if !(n is Identifier) {
        Some((Err(SpecError::ExpectedIdentifier(n)), p1))
    } else {
        let op = tok_at(t, p1);
        if op != SpecToken::Equal && spec_binding_power(op) is None {
            Some((Err(SpecError::NotAnOperator(op)), p1))
        } else {
            let p2 = if op != SpecToken::Equal {
                next_pos(t, p1)
            } else {
                p1
            };
            let e = tok_at(t, p2);
            let p3 = next_pos(t, p2);
            if e != SpecToken::Equal {
                Some((Err(expected(SpecToken::Equal, e)), p3))
            } else {
                match spec_parse_expression(t, p3, 0) {
                    None => None,
                    Some((Err(err), q)) => Some((Err(err), q)),
                    Some((Ok(val), q)) => Some((Ok(SpecNode::VarModif(n, op, Box::new(val))), q)),
                }
            }
        }
    }
}

/// `If ::= 'if' Expression Scope Else?`
pub open spec fn spec_parse_if_else(t: Seq<SpecToken>, p: int) -> SpecStep
    decreases t.len() - p, 2int,
{
    let c = tok_at(t, p);
    let p1 = next_pos(t, p);
    if c != SpecToken::If {
        Some((Err(expected(SpecToken::If, c)), p1))
    } else {
        match spec_parse_expression(t, p1, 0) {
            None => None,
            Some((Err(e), q)) => Some((Err(e), q)),
            Some((Ok(cond), q)) => {
                if !(p < q <= t.len()) {
                    None
                } else {
                    match spec_parse_scope(t, q) {
                        None => None,
                        Some((Err(e), q2)) => Some((Err(e), q2)),
                        Some((Ok(body), q2)) => {
                            if !(q < q2 <= t.len()) {
                                None
                            } else {
                                match spec_parse_else(t, q2) {
                                    None => None,
                                    Some((Ok(els), q3)) => Some(
                                        (Ok(SpecNode::If(seq![cond, body, els])), q3),
                                    ),
                                    Some((Err(_), _)) => Some(
                                        (Ok(SpecNode::If(seq![cond, body])), q2),
                                    ),
                                }
                            }
                        },
                    }
                }
            },
        }
    }
}

/// `Else ::= 'else' (If | Scope)`; an `else if` becomes an `else` whose
/// scope holds the `if`.
pub open spec fn spec_parse_else(t: Seq<SpecToken>, p: int) -> SpecStep
    decreases t.len() - p, 1int,
{
    let c = tok_at(t, p);
    let p1 = next_pos(t, p);
    if c != SpecToken::Else {
        Some((Err(expected(SpecToken::Else, c)), p1))
    } else {
        match spec_parse_if_else(t, p1) {
            None => None,
            Some((Ok(elif), q)) => Some(
                (Ok(SpecNode::Else(Box::new(SpecNode::Scope(seq![elif])))), q),
            ),
            Some((Err(_), _)) => match spec_parse_scope(t, p1) {
                None => None,
                Some((Err(e), q)) => Some((Err(e), q)),
                Some((Ok(body), q)) => Some((Ok(SpecNode::Else(Box::new(body))), q)),
            },
        }
    }
}

/// `While ::= 'while' Expression Scope`
pub open spec fn spec_parse_while_loop(t: Seq<SpecToken>, p: int) -> SpecStep
    decreases t.len() - p, 2int,
{
    let c = tok_at(t, p);
    let p1 = next_pos(t, p);
    if c != SpecToken::While {
        Some((Err(expected(SpecToken::While, c)), p1))
    } else {
        match spec_parse_expression(t, p1, 0) {
            None => None,
            Some((Err(e), q)) => Some((Err(e), q)),
            Some((Ok(cond), q)) => {
                if !(p < q <= t.len()) {
                    None
                } else {
                    match spec_parse_scope(t, q) {
                        None => None,
                        Some((Err(e), q2)) => Some((Err(e), q2)),
                        Some((Ok(body), q2)) => Some((Ok(SpecNode::While(seq![cond, body])), q2)),
                    }
                }
            },
        }
    }
}

/// `ForTraditionnal ::= 'for' (VarDecl | VarModif) ',' Expression ','
/// (VarModif | VarIncDec) Scope`
pub open spec fn spec_parse_for_traditionnal(t: Seq<SpecToken>, p: int) -> SpecStep
    decreases t.len() - p, 2int,
{
    let c = tok_at(t, p);
    let p1 = next_pos(t, p);
    if c != SpecToken::For {
        Some((Err(expected(SpecToken::For, c)), p1))
    } else {
        let s0 = no_choice(p1);
        match attempt(t, s0, spec_parse_var_decl(t, s0.2)) {
            None => None,
            Some(s1) => match attempt(t, s1, spec_parse_var_modif(t, s1.2)) {
                None => None,
                Some(s2) => match s2.0 {
                    Err(e) => Some((Err(e), s2.2)),
                    Ok(init) => {
                        let c1 = tok_at(t, s2.2);
                        let q1 = next_pos(t, s2.2);
                        if c1 != SpecToken::Comma {
                            Some((Err(expected(SpecToken::Comma, c1)), q1))
                        } else {
                            spec_for_traditionnal_rest(t, p, q1, init)
                        }
                    },
                },
            },
        }
    }
}

/// The condition, iteration and scope of a traditional `for`, from `q1`.
pub open spec fn spec_for_traditionnal_rest(t: Seq<SpecToken>, p: int, q1: int, init: SpecNode) -> SpecStep
    decreases t.len() - p, 1int,
{
    if !(p < q1 <= t.len()) {
        None
    } else {
        match spec_parse_expression(t, q1, 0) {
            None => None,
            Some((Err(e), q2)) => Some((Err(e), q2)),
            Some((Ok(cond), q2)) => {
                let c2 = tok_at(t, q2);
                let q3 = next_pos(t, q2);
                if c2 != SpecToken::Comma {
                    Some((Err(expected(SpecToken::Comma, c2)), q3))
                } else if !(p < q3 <= t.len()) {
                    None
                } else {
                    let s0 = no_choice(q3);
                    match attempt(t, s0, spec_parse_var_modif(t, s0.2)) {
                        None => None,
                        Some(s1) => match attempt(t, s1, lift(spec_parse_var_inc_dec(t, s1.2))) {
                            None => None,
                            Some(s2) => match s2.0 {
                                Err(e) => Some((Err(e), s2.2)),
                                Ok(iter) => match spec_parse_scope(t, s2.2) {
                                    None => None,
                                    Some((Err(e), q4)) => Some((Err(e), q4)),
                                    Some((Ok(body), q4)) => Some(
                                        (
                                            Ok(
                                                SpecNode::ForTraditionnal(
                                                    seq![init, cond, iter, body],
                                                ),
                                            ),
                                            q4,
                                        ),
                                    ),
                                },
                            },
                        },
                    }
                }
            },
        }
    }
}

/// `ForModern ::= 'for' ForVars 'in' ForIterators Scope`
pub open spec fn spec_parse_for_modern(t: Seq<SpecToken>, p: int) -> SpecStep
    decreases t.len() - p, 2int,
{
    let c = tok_at(t, p);
    let p1 = next_pos(t, p);
    if c != SpecToken::For {
        Some((Err(expected(SpecToken::For, c)), p1))
    } else {
        let (rv, p2) = spec_parse_for_vars(t, p1);
        match rv {
            Err(e) => Some((Err(e), p2)),
            Ok(vars) => {
                let i = tok_at(t, p2);
                let p3 = next_pos(t, p2);
                if i != SpecToken::In {
                    Some((Err(expected(SpecToken::In, i)), p3))
                } else {
                    let (ri, p4) = spec_parse_for_iterators(t, p3);
                    match ri {
                        Err(e) => Some((Err(e), p4)),
                        Ok(iters) => {
                            if !(p < p4 <= t.len()) {
                                None
                            } else {
                                match spec_parse_scope(t, p4) {
                                    None => None,
                                    Some((Err(e), q)) => Some((Err(e), q)),
                                    Some((Ok(body), q)) => Some(
                                        (Ok(SpecNode::ForModern(seq![vars, iters, body])), q),
                                    ),
                                }
                            }
                        },
                    }
                }
            },
        }
    }
}

/// `FuncDef ::= FuncHeader? 'func' Identifier FuncParams Scope`
pub open spec fn spec_parse_func_def(t: Seq<SpecToken>, p: int) -> SpecStep
    decreases t.len() - p, 2int,
{
    match spec_parse_func_header(t, p) {
        None => None,
        Some((hr, hq)) => {
            let (body0, p0) = match hr {
                Ok(h) => (seq![h], hq),
                Err(_) => (Seq::<SpecNode>::empty(), p),
            };
            let f = tok_at(t, p0);
            let p1 = next_pos(t, p0);
            if f != SpecToken::Func {
                Some((Err(expected(SpecToken::Func, f)), p1))
            } else {
                let n = tok_at(t, p1);
                let p2 = next_pos(t, p1);
                if !(n is Identifier) {
                    Some((Err(SpecError::ExpectedIdentifier(n)), p2))
                } else {
                    let (rp, p3) = spec_parse_func_params(t, p2);
                    match rp {
                        Err(e) => Some((Err(e), p3)),
                        Ok(params) => {
                            if !(p < p3 <= t.len()) {
                                None
                            } else {
                                match spec_parse_scope(t, p3) {
                                    None => None,
                                    Some((Err(e), q)) => Some((Err(e), q)),
                                    Some((Ok(body), q)) => Some(
                                        (
                                            Ok(
                                                SpecNode::FuncDef(
                                                    body0.push(SpecNode::FuncName(n)).push(
                                                        params,
                                                    ).push(body),
                                                ),
                                            ),
                                            q,
                                        ),
                                    ),
                                }
                            }
                        },
                    }
                }
            }
        },
    }
}

/// The instructions of a program, up to `EOF`.
pub open spec fn spec_program_loop(t: Seq<SpecToken>, p: int, acc: Seq<SpecNode>) -> SpecStep
    decreases t.len() - p,
{
    if tok_at(t, p) is EOF {
        Some((Ok(SpecNode::Scope(acc)), p))
    } else {
        match spec_parse_instruction(t, p) {
            None => None,
            Some((Err(e), q)) => Some((Err(e), q)),
            Some((Ok(ins), q)) => {
                if !(p < q <= t.len()) {
                    None
                } else {
                    let acc2 = acc.push(ins);
                    if tok_at(t, q) is EOF {
                        Some((Ok(SpecNode::Scope(acc2)), q))
                    } else {
                        spec_program_loop(t, q, acc2)
                    }
                }
            },
        }
    }
}

/// The syntax tree of a program: the scope of its instructions; `None`
/// where [`parse`] would not return.
pub open spec fn spec_parse(t: Seq<SpecToken>) -> Option<Result<SpecNode, SpecError>> {
    match spec_program_loop(t, 0, Seq::<SpecNode>::empty()) {
        None => None,
        Some((r, _)) => Some(r),
    }
}

} // verus!

verus! {

/// What an exec parsing function gives: the node or the error, and the
/// position of the first token it has not consumed.
pub type Outcome = (Result<SyntaxNode, Error>, usize);

pub open spec fn result_view(r: Result<SyntaxNode, Error>) -> Result<SpecNode, SpecError> {
    match r {
        Ok(n) => Ok(n@),
        Err(e) => Err(e@),
    }
}

pub open spec fn outcome_view(r: Outcome) -> (Result<SpecNode, SpecError>, int) {
    (result_view(r.0), r.1 as int)
}

pub open spec fn step_view(r: Option<Outcome>) -> SpecStep {
    match r {
        None => None,
        Some(o) => Some(outcome_view(o)),
    }
}

/// A parsing function from `pos` never moves back nor past the end, and
/// moves forward when it succeeds.
pub open spec fn moves_forward(o: Outcome, pos: usize, len: nat) -> bool {
    pos <= o.1 <= len && (o.0 is Ok ==> pos < o.1)
}

pub open spec fn step_moves_forward(r: Option<Outcome>, pos: usize, len: nat) -> bool {
    r matches Some(o) ==> moves_forward(o, pos, len)
}

pub proof fn lemma_nodes_view_push(s: Seq<SyntaxNode>, x: SyntaxNode)
    ensures
        nodes_view(s.push(x)) == nodes_view(s).push(x@),
{
    lemma_nodes_view(s);
    lemma_nodes_view(s.push(x));
    assert(nodes_view(s.push(x)) =~= nodes_view(s).push(x@));
}

fn push_node(v: &mut Vec<SyntaxNode>, n: SyntaxNode)
    ensures
        final(v)@ == old(v)@.push(n),
        nodes_view(final(v)@) == nodes_view(old(v)@).push(n@),
{
    proof {
        lemma_nodes_view_push(v@, n);
    }
    v.push(n);
}

fn new_nodes() -> (v: Vec<SyntaxNode>)
    ensures
        v@ == Seq::<SyntaxNode>::empty(),
        nodes_view(v@) == Seq::<SpecNode>::empty(),
{
    let v: Vec<SyntaxNode> = Vec::new();
    assert(nodes_view(v@) == Seq::<SpecNode>::empty());
    v
}

fn two_nodes(a: SyntaxNode, b: SyntaxNode) -> (v: Vec<SyntaxNode>)
    ensures
        nodes_view(v@) == seq![a@, b@],
{
    let mut v = new_nodes();
    push_node(&mut v, a);
    push_node(&mut v, b);
    assert(nodes_view(v@) =~= seq![a@, b@]);
    v
}

/// The token at `p`, or `EOF` past the end.
fn token_at(tokens: &Vec<Token>, p: usize) -> (r: Token)
    ensures
        r@ == tok_at(tokens_view(tokens@), p as int),
{
    if p < tokens.len() {
        tokens[p].clone()
    } else {
        Token::EOF
    }
}

/// The position after consuming the token at `p`, if there is one.
fn pos_after(tokens: &Vec<Token>, p: usize) -> (r: usize)
    ensures
        r == next_pos(tokens_view(tokens@), p as int),
{
    if p < tokens.len() {
        p + 1
    } else {
        p
    }
}

fn expects_token(expected: Token, found: &Token) -> (r: Result<(), Error>)
    ensures
        r is Ok <==> found@ == expected@,
        r matches Err(e) ==> e@ == crate::parser::expected(expected@, found@),
{
    if !found.same(&expected) {
        let mut v: Vec<Token> = Vec::new();
        v.push(expected);
        assert(tokens_view(v@) =~= seq![v@[0]@]);
        return Err(Error::Expected(v, found.clone()));
    }
    Ok(())
}

fn expects_tokens(expecteds: Vec<Token>, found: &Token) -> (r: Result<(), Error>)
    ensures
        r is Ok <==> tokens_view(expecteds@).contains(found@),
        r matches Err(e) ==> e@ == SpecError::Expected(tokens_view(expecteds@), found@),
{
    let mut i: usize = 0;
    while i < expecteds.len()
        invariant
            i <= expecteds.len(),
            forall|j: int| 0 <= j < i ==> expecteds@[j]@ != found@,
        decreases expecteds.len() - i,
    {
        if expecteds[i].same(found) {
            assert(tokens_view(expecteds@)[i as int] == found@);
            return Ok(());
        }
        i = i + 1;
    }
    let f = found.clone();
    Err(Error::Expected(expecteds, f))
}

fn expects_an_identfier(found: &Token) -> (r: Result<(), Error>)
    ensures
        r is Ok <==> found@ is Identifier,
        r matches Err(e) ==> e@ == SpecError::ExpectedIdentifier(found@),
{
    match found {
        Token::Identifier(..) => Ok(()),
        _ => Err(Error::ExpectedIdentifier(found.clone())),
    }
}

/// The binding powers of an operator, in tenths: (left, right).
pub fn get_binding_power(token: &Token) -> (r: Result<(u32, u32), Error>)
    ensures
        match r {
            Ok((l, rp)) => spec_binding_power(token@) == Some((l as int, rp as int)),
            Err(e) => spec_binding_power(token@) is None && e@ == SpecError::NotAnOperator(
                token@,
            ),
        },
{
    match token {
        Token::EqualTo => Ok((0, 1)),
        Token::BiggerThan => Ok((0, 1)),
        Token::LessThan => Ok((0, 1)),
        Token::BiggerOrEqualTo => Ok((0, 1)),
        Token::LessOrEqualTo => Ok((0, 1)),
        Token::Plus => Ok((10, 11)),
        Token::Minus => Ok((10, 11)),
        Token::Times => Ok((20, 21)),
        Token::Div => Ok((20, 21)),
        Token::BitwiseAnd => Ok((50, 51)),
        Token::BitwiseOr => Ok((30, 31)),
        Token::BitwiseXor => Ok((40, 41)),
        _ => Err(Error::NotAnOperator(token.clone())),
    }
}

fn parse_type(tokens: &Vec<Token>, pos: usize) -> (r: Outcome)
    requires
        pos <= tokens.len(),
    ensures
        outcome_view(r) == spec_parse_type(tokens_view(tokens@), pos as int),
        moves_forward(r, pos, tokens@.len()),
{
    let var_type = token_at(tokens, pos);
    let p1 = pos_after(tokens, pos);
    match expects_an_identfier(&var_type) {
        Err(e) => (Err(e), p1),
        Ok(()) => (Ok(SyntaxNode::Type(var_type)), p1),
    }
}

fn parse_var(tokens: &Vec<Token>, pos: usize) -> (r: Outcome)
    requires
        pos <= tokens.len(),
    ensures
        outcome_view(r) == spec_parse_var(tokens_view(tokens@), pos as int),
        moves_forward(r, pos, tokens@.len()),
{
    let (rt, p1) = parse_type(tokens, pos);
    match rt {
        Err(e) => (Err(e), p1),
        Ok(var_type) => {
            let name = token_at(tokens, p1);
            let p2 = pos_after(tokens, p1);
            match expects_an_identfier(&name) {
                Err(e) => (Err(e), p2),
                Ok(()) => (Ok(SyntaxNode::Var(name, Box::new(var_type))), p2),
            }
        },
    }
}

} // verus!

verus! {

fn header_close(tokens: &Vec<Token>, p: usize, func_options: Vec<Token>) -> (r: Option<Outcome>)
    requires
        p <= tokens.len(),
    ensures
        step_view(r) == spec_header_close(tokens_view(tokens@), p as int, tokens_view(func_options@)),
        r matches Some(o) && o.1 <= tokens.len() && p <= o.1 && (o.0 is Ok ==> p < o.1),
{
    let close = token_at(tokens, p);
    let p1 = pos_after(tokens, p);
    match expects_token(Token::CloseSqrBrackets, &close) {
        Err(e) => Some((Err(e), p1)),
        Ok(()) => Some((Ok(SyntaxNode::FuncHeader(func_options)), p1)),
    }
}

/// `FuncHeader ::= '[' Identifier (',' Identifier)* ']'`; `None` when the
/// tokens end where an option is due.
fn parse_func_header(tokens: &Vec<Token>, pos: usize) -> (r: Option<Outcome>)
    requires
        pos <= tokens.len(),
    ensures
        step_view(r) == spec_parse_func_header(tokens_view(tokens@), pos as int),
        step_moves_forward(r, pos, tokens@.len()),
{
    let ghost t = tokens_view(tokens@);
    let open_sqr_brackets = token_at(tokens, pos);
    let p0 = pos_after(tokens, pos);
    match expects_token(Token::OpenSqrBrackets, &open_sqr_brackets) {
        Err(e) => {
            return Some((Err(e), p0));
        },
        Ok(()) => {},
    }
    let mut func_options: Vec<Token> = Vec::new();
    let mut p = p0;
    assert(tokens_view(func_options@) =~= Seq::<SpecToken>::empty());
    loop
        invariant
            pos < p0 <= p <= tokens.len(),
            t == tokens_view(tokens@),
            spec_parse_func_header(t, pos as int) == spec_header_items(
                t,
                p as int,
                tokens_view(func_options@),
            ),
        decreases tokens.len() - p,
    {
        if p >= tokens.len() {
            return None;
        }
        let identfier = tokens[p].clone();
        p = p + 1;
        match expects_an_identfier(&identfier) {
            Err(e) => {
                return Some((Err(e), p));
            },
            Ok(()) => {},
        }
        let ghost before = func_options@;
        func_options.push(identfier);
        assert(tokens_view(func_options@) =~= tokens_view(before).push(identfier@));
        let peeked = token_at(tokens, p);
        match peeked {
            Token::CloseSqrBrackets | Token::EOF => {
                return header_close(tokens, p, func_options);
            },
            _ => {},
        }
        let comma = token_at(tokens, p);
        let p2 = pos_after(tokens, p);
        match expects_token(Token::Comma, &comma) {
            Err(e) => {
                return Some((Err(e), p2));
            },
            Ok(()) => {},
        }
        p = p2;
    }
}

fn params_close(tokens: &Vec<Token>, p: usize, func_params: Vec<SyntaxNode>) -> (r: Outcome)
    requires
        p <= tokens.len(),
    ensures
        outcome_view(r) == spec_params_close(tokens_view(tokens@), p as int, nodes_view(func_params@)),
        p <= r.1 <= tokens.len() && (r.0 is Ok ==> p < r.1),
{
    let close = token_at(tokens, p);
    let p1 = pos_after(tokens, p);
    match expects_token(Token::CloseParentheses, &close) {
        Err(e) => (Err(e), p1),
        Ok(()) => (Ok(SyntaxNode::FuncParams(func_params)), p1),
    }
}

/// `FuncParams ::= '(' (Var (',' Var)*)? ')'`
fn parse_func_params(tokens: &Vec<Token>, pos: usize) -> (r: Outcome)
    requires
        pos <= tokens.len(),
    ensures
        outcome_view(r) == spec_parse_func_params(tokens_view(tokens@), pos as int),
        moves_forward(r, pos, tokens@.len()),
{
    let ghost t = tokens_view(tokens@);
    let open_parentheses = token_at(tokens, pos);
    let p0 = pos_after(tokens, pos);
    match expects_token(Token::OpenParentheses, &open_parentheses) {
        Err(e) => {
            return (Err(e), p0);
        },
        Ok(()) => {},
    }
    let mut func_params = new_nodes();
    let mut p = p0;
    loop
        invariant
            pos < p0 <= p <= tokens.len(),
            t == tokens_view(tokens@),
            spec_parse_func_params(t, pos as int) == spec_params_loop(
                t,
                p as int,
                nodes_view(func_params@),
            ),
        decreases tokens.len() - p,
    {
        let peeked = token_at(tokens, p);
        match peeked {
            Token::CloseParentheses | Token::EOF => {
                return params_close(tokens, p, func_params);
            },
            _ => {},
        }
        let (rv, p1) = parse_var(tokens, p);
        let var = match rv {
            Err(e) => {
                return (Err(e), p1);
            },
            Ok(var) => var,
        };
        push_node(&mut func_params, var);
        let peeked = token_at(tokens, p1);
        match peeked {
            Token::CloseParentheses | Token::EOF => {
                return params_close(tokens, p1, func_params);
            },
            _ => {},
        }
        let comma = token_at(tokens, p1);
        let p2 = pos_after(tokens, p1);
        match expects_token(Token::Comma, &comma) {
            Err(e) => {
                return (Err(e), p2);
            },
            Ok(()) => {},
        }
        p = p2;
    }
}

/// The loop variables of a modern `for`, separated by commas, up to `in`.
fn parse_for_vars(tokens: &Vec<Token>, pos: usize) -> (r: Outcome)
    requires
        pos <= tokens.len(),
    ensures
        outcome_view(r) == spec_parse_for_vars(tokens_view(tokens@), pos as int),
        moves_forward(r, pos, tokens@.len()),
{
    let ghost t = tokens_view(tokens@);
    let mut vars = new_nodes();
    let mut p = pos;
    loop
        invariant
            pos <= p <= tokens.len(),
            t == tokens_view(tokens@),
            spec_parse_for_vars(t, pos as int) == spec_for_vars_loop(t, p as int, nodes_view(vars@)),
        decreases tokens.len() - p,
    {
        let (rv, p1) = parse_var(tokens, p);
        let var = match rv {
            Err(e) => {
                return (Err(e), p1);
            },
            Ok(var) => var,
        };
        push_node(&mut vars, var);
        let peeked = token_at(tokens, p1);
        match peeked {
            Token::EOF | Token::In => {
                return (Ok(SyntaxNode::ForVars(vars)), p1);
            },
            _ => {},
        }
        let comma = token_at(tokens, p1);
        let p2 = pos_after(tokens, p1);
        match expects_token(Token::Comma, &comma) {
            Err(e) => {
                return (Err(e), p2);
            },
            Ok(()) => {},
        }
        p = p2;
    }
}

/// The iterated names of a modern `for`, up to `{`.
fn parse_for_iterators(tokens: &Vec<Token>, pos: usize) -> (r: Outcome)
    requires
        pos <= tokens.len(),
    ensures
        outcome_view(r) == spec_parse_for_iterators(tokens_view(tokens@), pos as int),
        moves_forward(r, pos, tokens@.len()),
{
    let ghost t = tokens_view(tokens@);
    let mut iterators: Vec<Token> = Vec::new();
    let mut p = pos;
    assert(tokens_view(iterators@) =~= Seq::<SpecToken>::empty());
    loop
        invariant
            pos <= p <= tokens.len(),
            t == tokens_view(tokens@),
            spec_parse_for_iterators(t, pos as int) == spec_for_iterators_loop(
                t,
                p as int,
                tokens_view(iterators@),
            ),
        decreases tokens.len() - p,
    {
        let iterator_name = token_at(tokens, p);
        let p1 = pos_after(tokens, p);
        match expects_an_identfier(&iterator_name) {
            Err(e) => {
                return (Err(e), p1);
            },
            Ok(()) => {},
        }
        let ghost before = iterators@;
        iterators.push(iterator_name);
        assert(tokens_view(iterators@) =~= tokens_view(before).push(iterator_name@));
        let peeked = token_at(tokens, p1);
        match peeked {
            Token::EOF | Token::OpenCurlyBrackets => {
                return (Ok(SyntaxNode::ForIterators(iterators)), p1);
            },
            _ => {},
        }
        p = p1;
    }
}

/// `VarIncDec ::= Identifier ('++' | '--')`, read as adding 1 or -1.
fn parse_var_inc_dec(tokens: &Vec<Token>, pos: usize) -> (r: Outcome)
    requires
        pos <= tokens.len(),
    ensures
        outcome_view(r) == spec_parse_var_inc_dec(tokens_view(tokens@), pos as int),
        moves_forward(r, pos, tokens@.len()),
{
    let name = token_at(tokens, pos);
    let p1 = pos_after(tokens, pos);
    match expects_an_identfier(&name) {
        Err(e) => {
            return (Err(e), p1);
        },
        Ok(()) => {},
    }
    let op = token_at(tokens, p1);
    let p2 = pos_after(tokens, p1);
    let incdec = vec![Token::Inc, Token::Dec];
    assert(tokens_view(incdec@) =~= seq![SpecToken::Inc, SpecToken::Dec]);
    let ghost seen = seq![SpecToken::Inc, SpecToken::Dec];
    assert(seen[0] == SpecToken::Inc && seen[1] == SpecToken::Dec);
    assert(seen.contains(op@) <==> (op@ is Inc || op@ is Dec));
    match expects_tokens(incdec, &op) {
        Err(e) => {
            return (Err(e), p2);
        },
        Ok(()) => {},
    }
    let amount = match op {
        Token::Inc => SyntaxNode::ExprLiteral(Token::Int(1)),
        _ => SyntaxNode::ExprLiteral(Token::Int(-1)),
    };
    assert(amount@ == (if op@ is Inc {
        SpecNode::ExprLiteral(SpecToken::Int(1i64))
    } else {
        SpecNode::ExprLiteral(SpecToken::Int(-1i64))
    }));
    let node = SyntaxNode::VarModif(name, Token::Plus, Box::new(amount));
    assert(node@ == SpecNode::VarModif(name@, SpecToken::Plus, Box::new(amount@)));
    (Ok(node), p2)
}

} // verus!

verus! {

/// The bookkeeping of trying a parsing function on a copy of the tokens:
/// a failure leaves them as they were and reports how many the attempt
/// consumed; a success consumes its tokens and reports `usize::MAX`.
/// Returns the result with that distance, and the new position.
fn try_parse(outcome: Outcome, pos: usize) -> (r: ((Result<SyntaxNode, Error>, usize), usize))
    requires
        pos <= outcome.1,
    ensures
        outcome.0 is Err ==> r.0.1 == outcome.1 - pos && r.1 == pos,
        outcome.0 is Ok ==> r.0.1 == usize::MAX && r.1 == outcome.1,
        result_view(r.0.0) == result_view(outcome.0),
{
    let (res, q) = outcome;
    match res {
        Err(e) => ((Err(e), q - pos), pos),
        Ok(n) => ((Ok(n), usize::MAX), q),
    }
}

/// Keeps `instruction_result` when it is a success, or a failure that got
/// further than the one kept so far (or when none was kept yet).
fn check_instruction_result(
    instruction_result: Result<SyntaxNode, Error>,
    instruction: &mut Result<SyntaxNode, Error>,
    dst: usize,
    biggest_dst: &mut usize,
)
    ensures
        (instruction_result is Ok || dst > *old(biggest_dst) || *old(biggest_dst) == 0) ==> (
        result_view(*final(instruction)) == result_view(instruction_result) && *final(biggest_dst)
            == dst),
        !(instruction_result is Ok || dst > *old(biggest_dst) || *old(biggest_dst) == 0) ==> (
        result_view(*final(instruction)) == result_view(*old(instruction)) && *final(biggest_dst)
            == *old(biggest_dst)),
{
    if instruction_result.is_ok() || dst > *biggest_dst || *biggest_dst == 0 {
        *instruction = instruction_result;
        *biggest_dst = dst;
    }
}

/// One attempt of a choice between parsing functions (see [`attempt`]);
/// false where the attempt would not return.
fn take_attempt(
    tokens: &Vec<Token>,
    instruction: &mut Result<SyntaxNode, Error>,
    biggest_dst: &mut usize,
    pos: &mut usize,
    outcome: Option<Outcome>,
) -> (ok: bool)
    requires
        *old(pos) <= tokens.len(),
        step_moves_forward(outcome, *old(pos), tokens@.len()),
    ensures
        ok <==> attempt(
            tokens_view(tokens@),
            (result_view(*old(instruction)), *old(biggest_dst) as int, *old(pos) as int),
            step_view(outcome),
        ) is Some,
        ok ==> attempt(
            tokens_view(tokens@),
            (result_view(*old(instruction)), *old(biggest_dst) as int, *old(pos) as int),
            step_view(outcome),
        ) == Some(
            (result_view(*final(instruction)), *final(biggest_dst) as int, *final(pos) as int),
        ),
        ok ==> *old(pos) <= *final(pos) <= tokens.len(),
        ok ==> (*final(instruction) is Ok ==> (*old(pos) < *final(pos) || *old(instruction) is Ok)),
{
    match outcome {
        None => false,
        Some(o) => {
            let ((res, dst), new_pos) = try_parse(o, *pos);
            check_instruction_result(res, instruction, dst, biggest_dst);
            *pos = new_pos;
            true
        },
    }
}

/// After the choice of an instruction: block statements stand alone, the
/// others end with `;`.
fn end_instruction(tokens: &Vec<Token>, instruction: Result<SyntaxNode, Error>, biggest: usize, p: usize) -> (r: Option<Outcome>)
    requires
        p <= tokens.len(),
    ensures
        step_view(r) == spec_end_instruction(
            tokens_view(tokens@),
            (result_view(instruction), biggest as int, p as int),
        ),
        r matches Some(o) && p <= o.1 <= tokens.len(),
{
    match instruction {
        Err(e) => Some((Err(e), p)),
        Ok(ins) => {
            let standalone = match &ins {
                SyntaxNode::FuncDef(..) | SyntaxNode::If(..) | SyntaxNode::While(..)
                | SyntaxNode::ForTraditionnal(..) | SyntaxNode::ForModern(..) => true,
                _ => false,
            };
            if standalone {
                Some((Ok(ins), p))
            } else {
                let c = token_at(tokens, p);
                let q = pos_after(tokens, p);
                match expects_token(Token::SemiColon, &c) {
                    Err(e) => Some((Err(e), q)),
                    Ok(()) => Some((Ok(ins), q)),
                }
            }
        },
    }
}

/// An instruction: the statement forms are tried in turn (see
/// [`spec_parse_instruction`]).
#[verifier::rlimit(100)]
#[verifier::spinoff_prover]
fn parse_instruction(tokens: &Vec<Token>, pos: usize) -> (r: Option<Outcome>)
    requires
        pos <= tokens.len(),
    ensures
        step_view(r) == spec_parse_instruction(tokens_view(tokens@), pos as int),
        step_moves_forward(r, pos, tokens@.len()),
    decreases tokens.len() - pos, 9int,
{
    proof {
        reveal_with_fuel(spec_parse_instruction, 1);
    }
    let mut instruction: Result<SyntaxNode, Error> = Err(Error::UnknownInstruction);
    let mut biggest_dst: usize = 0;
    let mut p = pos;
    let o = parse_const_decl(tokens, p);
    if !take_attempt(tokens, &mut instruction, &mut biggest_dst, &mut p, o) {
        return None;
    }
    assert(instruction is Ok ==> pos < p);
    let o = parse_var_decl(tokens, p);
    if !take_attempt(tokens, &mut instruction, &mut biggest_dst, &mut p, o) {
        return None;
    }
    assert(instruction is Ok ==> pos < p);
    let o = parse_var_modif(tokens, p);
    if !take_attempt(tokens, &mut instruction, &mut biggest_dst, &mut p, o) {
        return None;
    }
    assert(instruction is Ok ==> pos < p);
    let o = Some(parse_var_inc_dec(tokens, p));
    if !take_attempt(tokens, &mut instruction, &mut biggest_dst, &mut p, o) {
        return None;
    }
    assert(instruction is Ok ==> pos < p);
    let o = parse_if_else(tokens, p);
    if !take_attempt(tokens, &mut instruction, &mut biggest_dst, &mut p, o) {
        return None;
    }
    assert(instruction is Ok ==> pos < p);
    let o = parse_while_loop(tokens, p);
    if !take_attempt(tokens, &mut instruction, &mut biggest_dst, &mut p, o) {
        return None;
    }
    assert(instruction is Ok ==> pos < p);
    let o = parse_for_traditionnal(tokens, p);
    if !take_attempt(tokens, &mut instruction, &mut biggest_dst, &mut p, o) {
        return None;
    }
    assert(instruction is Ok ==> pos < p);
    let o = parse_for_modern(tokens, p);
    if !take_attempt(tokens, &mut instruction, &mut biggest_dst, &mut p, o) {
        return None;
    }
    assert(instruction is Ok ==> pos < p);
    let o = parse_func_call(tokens, p);
    if !take_attempt(tokens, &mut instruction, &mut biggest_dst, &mut p, o) {
        return None;
    }
    assert(instruction is Ok ==> pos < p);
    let o = parse_func_def(tokens, p);
    if !take_attempt(tokens, &mut instruction, &mut biggest_dst, &mut p, o) {
        return None;
    }
    assert(instruction is Ok ==> pos < p);
    end_instruction(tokens, instruction, biggest_dst, p)
}

} // verus!

verus! {

fn scope_close(tokens: &Vec<Token>, p: usize, code: Vec<SyntaxNode>) -> (r: Option<Outcome>)
    requires
        p <= tokens.len(),
    ensures
        step_view(r) == spec_scope_close(tokens_view(tokens@), p as int, nodes_view(code@)),
        r matches Some(o) && p <= o.1 <= tokens.len() && (o.0 is Ok ==> p < o.1),
{
    let close = token_at(tokens, p);
    let p1 = pos_after(tokens, p);
    match expects_token(Token::CloseCurlyBrackets, &close) {
        Err(e) => Some((Err(e), p1)),
        Ok(()) => Some((Ok(SyntaxNode::Scope(code)), p1)),
    }
}

/// `Scope ::= '{' Instruction* '}'`
#[verifier::rlimit(100)]
#[verifier::spinoff_prover]
fn parse_scope(tokens: &Vec<Token>, pos: usize) -> (r: Option<Outcome>)
    requires
        pos <= tokens.len(),
    ensures
        step_view(r) == spec_parse_scope(tokens_view(tokens@), pos as int),
        step_moves_forward(r, pos, tokens@.len()),
    decreases tokens.len() - pos, 1int,
{
    let ghost t = tokens_view(tokens@);
    let open = token_at(tokens, pos);
    let p0 = pos_after(tokens, pos);
    match expects_token(Token::OpenCurlyBrackets, &open) {
        Err(e) => {
            return Some((Err(e), p0));
        },
        Ok(()) => {},
    }
    let mut code = new_nodes();
    let mut p = p0;
    loop
        invariant
            pos < p0 <= p <= tokens.len(),
            t == tokens_view(tokens@),
            spec_parse_scope(t, pos as int) == spec_scope_loop(t, p as int, nodes_view(code@)),
        decreases tokens.len() - p,
    {
        let peeked = token_at(tokens, p);
        match peeked {
            Token::EOF | Token::CloseCurlyBrackets => {
                return scope_close(tokens, p, code);
            },
            _ => {},
        }
        match parse_instruction(tokens, p) {
            None => {
                return None;
            },
            Some((Err(e), q)) => {
                return Some((Err(e), q));
            },
            Some((Ok(instruction), q)) => {
                push_node(&mut code, instruction);
                let peeked = token_at(tokens, q);
                match peeked {
                    Token::EOF | Token::CloseCurlyBrackets => {
                        return scope_close(tokens, q, code);
                    },
                    _ => {},
                }
                p = q;
            },
        }
    }
}

fn args_close(tokens: &Vec<Token>, p: usize, args: Vec<SyntaxNode>) -> (r: Option<Outcome>)
    requires
        p <= tokens.len(),
    ensures
        step_view(r) == spec_args_close(tokens_view(tokens@), p as int, nodes_view(args@)),
        r matches Some(o) && p <= o.1 <= tokens.len() && (o.0 is Ok ==> p < o.1),
{
    let close = token_at(tokens, p);
    let p1 = pos_after(tokens, p);
    match expects_token(Token::CloseParentheses, &close) {
        Err(e) => Some((Err(e), p1)),
        Ok(()) => Some((Ok(SyntaxNode::FuncArgs(args)), p1)),
    }
}

/// `FuncArgs ::= '(' (Expression (',' Expression)*)? ')'`
#[verifier::rlimit(100)]
#[verifier::spinoff_prover]
fn parse_func_args(tokens: &Vec<Token>, pos: usize) -> (r: Option<Outcome>)
    requires
        pos <= tokens.len(),
    ensures
        step_view(r) == spec_parse_func_args(tokens_view(tokens@), pos as int),
        step_moves_forward(r, pos, tokens@.len()),
    decreases tokens.len() - pos, 1int,
{
    let ghost t = tokens_view(tokens@);
    let open = token_at(tokens, pos);
    let p0 = pos_after(tokens, pos);
    match expects_token(Token::OpenParentheses, &open) {
        Err(e) => {
            return Some((Err(e), p0));
        },
        Ok(()) => {},
    }
    let mut func_args = new_nodes();
    let mut p = p0;
    loop
        invariant
            pos < p0 <= p <= tokens.len(),
            t == tokens_view(tokens@),
            spec_parse_func_args(t, pos as int) == spec_args_loop(t, p as int, nodes_view(func_args@)),
        decreases tokens.len() - p,
    {
        let peeked = token_at(tokens, p);
        match peeked {
            Token::CloseParentheses | Token::EOF => {
                return args_close(tokens, p, func_args);
            },
            _ => {},
        }
        match parse_expression(tokens, p, 0) {
            None => {
                return None;
            },
            Some((Err(e), q)) => {
                return Some((Err(e), q));
            },
            Some((Ok(arg), q)) => {
                push_node(&mut func_args, arg);
                let peeked = token_at(tokens, q);
                match peeked {
                    Token::CloseParentheses | Token::EOF => {
                        return args_close(tokens, q, func_args);
                    },
                    _ => {},
                }
                let comma = token_at(tokens, q);
                let q1 = pos_after(tokens, q);
                match expects_token(Token::Comma, &comma) {
                    Err(e) => {
                        return Some((Err(e), q1));
                    },
                    Ok(()) => {},
                }
                p = q1;
            },
        }
    }
}

/// `FuncCall ::= Identifier FuncArgs`
#[verifier::rlimit(100)]
#[verifier::spinoff_prover]
fn parse_func_call(tokens: &Vec<Token>, pos: usize) -> (r: Option<Outcome>)
    requires
        pos <= tokens.len(),
    ensures
        step_view(r) == spec_parse_func_call(tokens_view(tokens@), pos as int),
        step_moves_forward(r, pos, tokens@.len()),
    decreases tokens.len() - pos, 2int,
{
    let name = token_at(tokens, pos);
    let p1 = pos_after(tokens, pos);
    match expects_an_identfier(&name) {
        Err(e) => {
            return Some((Err(e), p1));
        },
        Ok(()) => {},
    }
    match parse_func_args(tokens, p1) {
        None => None,
        Some((Err(e), q)) => Some((Err(e), q)),
        Some((Ok(args), q)) => {
            let call = two_nodes(SyntaxNode::FuncName(name), args);
            Some((Ok(SyntaxNode::FuncCall(call)), q))
        },
    }
}

/// `Value ::= FuncCall | literal | Identifier`
#[verifier::rlimit(100)]
#[verifier::spinoff_prover]
fn parse_value(tokens: &Vec<Token>, pos: usize) -> (r: Option<Outcome>)
    requires
        pos <= tokens.len(),
    ensures
        step_view(r) == spec_parse_value(tokens_view(tokens@), pos as int),
        step_moves_forward(r, pos, tokens@.len()),
    decreases tokens.len() - pos, 3int,
{
    match parse_func_call(tokens, pos) {
        None => None,
        Some((Ok(n), q)) => Some((Ok(n), q)),
        Some((Err(_), _)) => {
            let expr = token_at(tokens, pos);
            let p1 = pos_after(tokens, pos);
            let is_value = match &expr {
                Token::StringLiteral(..) | Token::CharLiteral(..) | Token::Int(..) | Token::Uint(..)
                | Token::Float(..) | Token::Identifier(..) => true,
                _ => false,
            };
            if is_value {
                Some((Ok(SyntaxNode::ExprLiteral(expr)), p1))
            } else {
                Some((Err(Error::ExpectedExpr(expr)), p1))
            }
        },
    }
}

/// `Expression ::= ('(' Expression ')' | Value) (Operator Expression | 'as' Type)*`,
/// by precedence climbing: operators whose left binding power (in tenths)
/// is below `min_binding_power` are left to the caller.
#[verifier::rlimit(100)]
#[verifier::spinoff_prover]
fn parse_expression(tokens: &Vec<Token>, pos: usize, min_binding_power: u32) -> (r: Option<Outcome>)
    requires
        pos <= tokens.len(),
    ensures
        step_view(r) == spec_parse_expression(
            tokens_view(tokens@),
            pos as int,
            min_binding_power as int,
        ),
        step_moves_forward(r, pos, tokens@.len()),
    decreases tokens.len() - pos, 4int,
{
    let ghost t = tokens_view(tokens@);
    let starts_parenthesised = match token_at(tokens, pos) {
        Token::OpenParentheses => true,
        _ => false,
    };
    let first = if starts_parenthesised {
        match parse_expression(tokens, pos + 1, 0) {
            None => None,
            Some((Err(e), q)) => Some((Err(e), q)),
            Some((Ok(in_parentheses), q)) => {
                let close = token_at(tokens, q);
                let q1 = pos_after(tokens, q);
                match expects_token(Token::CloseParentheses, &close) {
                    Err(e) => Some((Err(e), q1)),
                    Ok(()) => Some((Ok(in_parentheses), q1)),
                }
            },
        }
    } else {
        parse_value(tokens, pos)
    };
    let (mut lhs, mut p) = match first {
        None => {
            return None;
        },
        Some((Err(e), q)) => {
            return Some((Err(e), q));
        },
        Some((Ok(lhs), q)) => (lhs, q),
    };
    loop
        invariant
            pos < p <= tokens.len(),
            t == tokens_view(tokens@),
            spec_parse_expression(t, pos as int, min_binding_power as int) == spec_expr_loop(
                t,
                p as int,
                lhs@,
                min_binding_power as int,
            ),
        decreases tokens.len() - p,
    {
        let op = token_at(tokens, p);
        let ends = match &op {
            Token::Comma | Token::SemiColon | Token::EOF | Token::CloseParentheses
            | Token::OpenCurlyBrackets => true,
            _ => false,
        };
        if ends {
            return Some((Ok(lhs), p));
        }
        let is_cast = match &op {
            Token::As => true,
            _ => false,
        };
        if is_cast {
            let (rt, p2) = parse_type(tokens, p + 1);
            match rt {
                Err(e) => {
                    return Some((Err(e), p2));
                },
                Ok(cast_type) => {
                    lhs = SyntaxNode::ExprCast(two_nodes(cast_type, lhs));
                    p = p2;
                    continue ;
                },
            }
        }
        let (left_power, right_power) = match get_binding_power(&op) {
            Err(e) => {
                return Some((Err(e), p));
            },
            Ok(powers) => powers,
        };
        if left_power < min_binding_power {
            return Some((Ok(lhs), p));
        }
        match parse_expression(tokens, p + 1, right_power) {
            None => {
                return None;
            },
            Some((Err(e), q)) => {
                return Some((Err(e), q));
            },
            Some((Ok(rhs), q)) => {
                lhs = SyntaxNode::Expr(op, two_nodes(lhs, rhs));
                p = q;
            },
        }
    }
}

} // verus!

verus! {

/// `ConstDecl ::= 'const' Var '=' Expression`
#[verifier::rlimit(100)]
#[verifier::spinoff_prover]
fn parse_const_decl(tokens: &Vec<Token>, pos: usize) -> (r: Option<Outcome>)
    requires
        pos <= tokens.len(),
    ensures
        step_view(r) == spec_parse_const_decl(tokens_view(tokens@), pos as int),
        step_moves_forward(r, pos, tokens@.len()),
    decreases tokens.len() - pos, 2int,
{
    let c = token_at(tokens, pos);
    let p1 = pos_after(tokens, pos);
    match expects_token(Token::Const, &c) {
        Err(e) => {
            return Some((Err(e), p1));
        },
        Ok(()) => {},
    }
    let (rv, p2) = parse_var(tokens, p1);
    let var = match rv {
        Err(e) => {
            return Some((Err(e), p2));
        },
        Ok(var) => var,
    };
    let eq = token_at(tokens, p2);
    let p3 = pos_after(tokens, p2);
    match expects_token(Token::Equal, &eq) {
        Err(e) => {
            return Some((Err(e), p3));
        },
        Ok(()) => {},
    }
    match parse_expression(tokens, p3, 0) {
        None => None,
        Some((Err(e), q)) => Some((Err(e), q)),
        Some((Ok(value), q)) => Some((Ok(SyntaxNode::ConstDecl(two_nodes(var, value))), q)),
    }
}

/// `VarDecl ::= 'let' Var ('=' Expression)?`
#[verifier::rlimit(100)]
#[verifier::spinoff_prover]
fn parse_var_decl(tokens: &Vec<Token>, pos: usize) -> (r: Option<Outcome>)
    requires
        pos <= tokens.len(),
    ensures
        step_view(r) == spec_parse_var_decl(tokens_view(tokens@), pos as int),
        step_moves_forward(r, pos, tokens@.len()),
    decreases tokens.len() - pos, 2int,
{
    let c = token_at(tokens, pos);
    let p1 = pos_after(tokens, pos);
    match expects_token(Token::Let, &c) {
        Err(e) => {
            return Some((Err(e), p1));
        },
        Ok(()) => {},
    }
    let (rv, p2) = parse_var(tokens, p1);
    let var = match rv {
        Err(e) => {
            return Some((Err(e), p2));
        },
        Ok(var) => var,
    };
    let maybe_semi_colon = token_at(tokens, p2);
    if maybe_semi_colon.same(&Token::SemiColon) {
        let mut decl = new_nodes();
        push_node(&mut decl, var);
        assert(nodes_view(decl@) =~= seq![var@]);
        return Some((Ok(SyntaxNode::VarDecl(decl)), p2));
    }
    let eq = token_at(tokens, p2);
    let p3 = pos_after(tokens, p2);
    match expects_token(Token::Equal, &eq) {
        Err(e) => {
            return Some((Err(e), p3));
        },
        Ok(()) => {},
    }
    match parse_expression(tokens, p3, 0) {
        None => None,
        Some((Err(e), q)) => Some((Err(e), q)),
        Some((Ok(value), q)) => Some((Ok(SyntaxNode::VarDecl(two_nodes(var, value))), q)),
    }
}

/// `VarModif ::= Identifier Operator? '=' Expression`
#[verifier::rlimit(100)]
#[verifier::spinoff_prover]
fn parse_var_modif(tokens: &Vec<Token>, pos: usize) -> (r: Option<Outcome>)
    requires
        pos <= tokens.len(),
    ensures
        step_view(r) == spec_parse_var_modif(tokens_view(tokens@), pos as int),
        step_moves_forward(r, pos, tokens@.len()),
    decreases tokens.len() - pos, 2int,
{
    let name = token_at(tokens, pos);
    let p1 = pos_after(tokens, pos);
    match expects_an_identfier(&name) {
        Err(e) => {
            return Some((Err(e), p1));
        },
        Ok(()) => {},
    }
    let operator = token_at(tokens, p1);
    let op_power = get_binding_power(&operator);
    let mut p2 = p1;
    if !operator.same(&Token::Equal) {
        match op_power {
            Err(e) => {
                return Some((Err(e), p1));
            },
            Ok(_) => {},
        }
        p2 = pos_after(tokens, p1);
    }
    let eq = token_at(tokens, p2);
    let p3 = pos_after(tokens, p2);
    match expects_token(Token::Equal, &eq) {
        Err(e) => {
            return Some((Err(e), p3));
        },
        Ok(()) => {},
    }
    match parse_expression(tokens, p3, 0) {
        None => None,
        Some((Err(e), q)) => Some((Err(e), q)),
        Some((Ok(value), q)) => {
            let node = SyntaxNode::VarModif(name, operator, Box::new(value));
            Some((Ok(node), q))
        },
    }
}

/// `If ::= 'if' Expression Scope Else?`
#[verifier::rlimit(100)]
#[verifier::spinoff_prover]
fn parse_if_else(tokens: &Vec<Token>, pos: usize) -> (r: Option<Outcome>)
    requires
        pos <= tokens.len(),
    ensures
        step_view(r) == spec_parse_if_else(tokens_view(tokens@), pos as int),
        step_moves_forward(r, pos, tokens@.len()),
    decreases tokens.len() - pos, 2int,
{
    let c = token_at(tokens, pos);
    let p1 = pos_after(tokens, pos);
    match expects_token(Token::If, &c) {
        Err(e) => {
            return Some((Err(e), p1));
        },
        Ok(()) => {},
    }
    let (condition, q) = match parse_expression(tokens, p1, 0) {
        None => {
            return None;
        },
        Some((Err(e), q)) => {
            return Some((Err(e), q));
        },
        Some((Ok(condition), q)) => (condition, q),
    };
    let (scope, q2) = match parse_scope(tokens, q) {
        None => {
            return None;
        },
        Some((Err(e), q2)) => {
            return Some((Err(e), q2));
        },
        Some((Ok(scope), q2)) => (scope, q2),
    };
    match parse_else(tokens, q2) {
        None => None,
        Some((Ok(else_stmt), q3)) => {
            let mut stmt = two_nodes(condition, scope);
            let ghost two = nodes_view(stmt@);
            push_node(&mut stmt, else_stmt);
            assert(nodes_view(stmt@) =~= seq![two[0], two[1], else_stmt@]);
            Some((Ok(SyntaxNode::If(stmt)), q3))
        },
        Some((Err(_), _)) => Some((Ok(SyntaxNode::If(two_nodes(condition, scope))), q2)),
    }
}

/// `Else ::= 'else' (If | Scope)`; an `else if` becomes an `else` whose
/// scope holds the `if`.
#[verifier::rlimit(100)]
#[verifier::spinoff_prover]
fn parse_else(tokens: &Vec<Token>, pos: usize) -> (r: Option<Outcome>)
    requires
        pos <= tokens.len(),
    ensures
        step_view(r) == spec_parse_else(tokens_view(tokens@), pos as int),
        step_moves_forward(r, pos, tokens@.len()),
    decreases tokens.len() - pos, 1int,
{
    let c = token_at(tokens, pos);
    let p1 = pos_after(tokens, pos);
    match expects_token(Token::Else, &c) {
        Err(e) => {
            return Some((Err(e), p1));
        },
        Ok(()) => {},
    }
    match parse_if_else(tokens, p1) {
        None => None,
        Some((Ok(elif_check), q)) => {
            let mut inner = new_nodes();
            push_node(&mut inner, elif_check);
            assert(nodes_view(inner@) =~= seq![elif_check@]);
            let elif_scope = SyntaxNode::Scope(inner);
            assert(elif_scope@ == SpecNode::Scope(seq![elif_check@]));
            let node = SyntaxNode::Else(Box::new(elif_scope));
            assert(node@ == SpecNode::Else(Box::new(elif_scope@)));
            Some((Ok(node), q))
        },
        Some((Err(_), _)) => match parse_scope(tokens, p1) {
            None => None,
            Some((Err(e), q)) => Some((Err(e), q)),
            Some((Ok(scope), q)) => Some((Ok(SyntaxNode::Else(Box::new(scope))), q)),
        },
    }
}

/// `While ::= 'while' Expression Scope`
#[verifier::rlimit(100)]
#[verifier::spinoff_prover]
fn parse_while_loop(tokens: &Vec<Token>, pos: usize) -> (r: Option<Outcome>)
    requires
        pos <= tokens.len(),
    ensures
        step_view(r) == spec_parse_while_loop(tokens_view(tokens@), pos as int),
        step_moves_forward(r, pos, tokens@.len()),
    decreases tokens.len() - pos, 2int,
{
    let c = token_at(tokens, pos);
    let p1 = pos_after(tokens, pos);
    match expects_token(Token::While, &c) {
        Err(e) => {
            return Some((Err(e), p1));
        },
        Ok(()) => {},
    }
    let (condition, q) = match parse_expression(tokens, p1, 0) {
        None => {
            return None;
        },
        Some((Err(e), q)) => {
            return Some((Err(e), q));
        },
        Some((Ok(condition), q)) => (condition, q),
    };
    match parse_scope(tokens, q) {
        None => None,
        Some((Err(e), q2)) => Some((Err(e), q2)),
        Some((Ok(scope), q2)) => Some((Ok(SyntaxNode::While(two_nodes(condition, scope))), q2)),
    }
}

/// `ForTraditionnal ::= 'for' (VarDecl | VarModif) ',' Expression ','
/// (VarModif | VarIncDec) Scope`
#[verifier::rlimit(100)]
#[verifier::spinoff_prover]
fn parse_for_traditionnal(tokens: &Vec<Token>, pos: usize) -> (r: Option<Outcome>)
    requires
        pos <= tokens.len(),
    ensures
        step_view(r) == spec_parse_for_traditionnal(tokens_view(tokens@), pos as int),
        step_moves_forward(r, pos, tokens@.len()),
    decreases tokens.len() - pos, 2int,
{
    let ghost t = tokens_view(tokens@);
    let c = token_at(tokens, pos);
    let p1 = pos_after(tokens, pos);
    match expects_token(Token::For, &c) {
        Err(e) => {
            return Some((Err(e), p1));
        },
        Ok(()) => {},
    }
    let mut initialization: Result<SyntaxNode, Error> = Err(Error::UnknownInstruction);
    let mut biggest_dst: usize = 0;
    let mut p = p1;
    let o = parse_var_decl(tokens, p);
    if !take_attempt(tokens, &mut initialization, &mut biggest_dst, &mut p, o) {
        return None;
    }
    let o = parse_var_modif(tokens, p);
    if !take_attempt(tokens, &mut initialization, &mut biggest_dst, &mut p, o) {
        return None;
    }
    let init = match initialization {
        Err(e) => {
            return Some((Err(e), p));
        },
        Ok(init) => init,
    };
    let comma = token_at(tokens, p);
    let q1 = pos_after(tokens, p);
    match expects_token(Token::Comma, &comma) {
        Err(e) => {
            return Some((Err(e), q1));
        },
        Ok(()) => {},
    }
    assert(step_view(Some((Ok(init), 0))) is Some);
    let (condition, q2) = match parse_expression(tokens, q1, 0) {
        None => {
            return None;
        },
        Some((Err(e), q2)) => {
            return Some((Err(e), q2));
        },
        Some((Ok(condition), q2)) => (condition, q2),
    };
    let comma = token_at(tokens, q2);
    let q3 = pos_after(tokens, q2);
    match expects_token(Token::Comma, &comma) {
        Err(e) => {
            return Some((Err(e), q3));
        },
        Ok(()) => {},
    }
    let mut iteration: Result<SyntaxNode, Error> = Err(Error::UnknownInstruction);
    let mut biggest_dst: usize = 0;
    let mut p = q3;
    let o = parse_var_modif(tokens, p);
    if !take_attempt(tokens, &mut iteration, &mut biggest_dst, &mut p, o) {
        return None;
    }
    let o = Some(parse_var_inc_dec(tokens, p));
    if !take_attempt(tokens, &mut iteration, &mut biggest_dst, &mut p, o) {
        return None;
    }
    let iter = match iteration {
        Err(e) => {
            return Some((Err(e), p));
        },
        Ok(iter) => iter,
    };
    match parse_scope(tokens, p) {
        None => None,
        Some((Err(e), q4)) => Some((Err(e), q4)),
        Some((Ok(scope), q4)) => {
            let mut parts = two_nodes(init, condition);
            let ghost two = nodes_view(parts@);
            push_node(&mut parts, iter);
            push_node(&mut parts, scope);
            assert(nodes_view(parts@) =~= seq![two[0], two[1], iter@, scope@]);
            Some((Ok(SyntaxNode::ForTraditionnal(parts)), q4))
        },
    }
}

/// `ForModern ::= 'for' ForVars 'in' ForIterators Scope`
#[verifier::rlimit(100)]
#[verifier::spinoff_prover]
fn parse_for_modern(tokens: &Vec<Token>, pos: usize) -> (r: Option<Outcome>)
    requires
        pos <= tokens.len(),
    ensures
        step_view(r) == spec_parse_for_modern(tokens_view(tokens@), pos as int),
        step_moves_forward(r, pos, tokens@.len()),
    decreases tokens.len() - pos, 2int,
{
    let c = token_at(tokens, pos);
    let p1 = pos_after(tokens, pos);
    match expects_token(Token::For, &c) {
        Err(e) => {
            return Some((Err(e), p1));
        },
        Ok(()) => {},
    }
    let (rv, p2) = parse_for_vars(tokens, p1);
    let vars = match rv {
        Err(e) => {
            return Some((Err(e), p2));
        },
        Ok(vars) => vars,
    };
    let i = token_at(tokens, p2);
    let p3 = pos_after(tokens, p2);
    match expects_token(Token::In, &i) {
        Err(e) => {
            return Some((Err(e), p3));
        },
        Ok(()) => {},
    }
    let (ri, p4) = parse_for_iterators(tokens, p3);
    let iterators = match ri {
        Err(e) => {
            return Some((Err(e), p4));
        },
        Ok(iterators) => iterators,
    };
    match parse_scope(tokens, p4) {
        None => None,
        Some((Err(e), q)) => Some((Err(e), q)),
        Some((Ok(scope), q)) => {
            let mut parts = two_nodes(vars, iterators);
            let ghost two = nodes_view(parts@);
            push_node(&mut parts, scope);
            assert(nodes_view(parts@) =~= seq![two[0], two[1], scope@]);
            Some((Ok(SyntaxNode::ForModern(parts)), q))
        },
    }
}

/// `FuncDef ::= FuncHeader? 'func' Identifier FuncParams Scope`
#[verifier::rlimit(100)]
#[verifier::spinoff_prover]
fn parse_func_def(tokens: &Vec<Token>, pos: usize) -> (r: Option<Outcome>)
    requires
        pos <= tokens.len(),
    ensures
        step_view(r) == spec_parse_func_def(tokens_view(tokens@), pos as int),
        step_moves_forward(r, pos, tokens@.len()),
    decreases tokens.len() - pos, 2int,
{
    let mut func_body = new_nodes();
    let mut p0 = pos;
    match parse_func_header(tokens, pos) {
        None => {
            return None;
        },
        Some((Ok(header), hq)) => {
            push_node(&mut func_body, header);
            assert(nodes_view(func_body@) =~= seq![header@]);
            p0 = hq;
        },
        Some((Err(_), _)) => {},
    }
    let func_keyword = token_at(tokens, p0);
    let p1 = pos_after(tokens, p0);
    match expects_token(Token::Func, &func_keyword) {
        Err(e) => {
            return Some((Err(e), p1));
        },
        Ok(()) => {},
    }
    let func_name = token_at(tokens, p1);
    let p2 = pos_after(tokens, p1);
    match expects_an_identfier(&func_name) {
        Err(e) => {
            return Some((Err(e), p2));
        },
        Ok(()) => {},
    }
    push_node(&mut func_body, SyntaxNode::FuncName(func_name));
    let (rp, p3) = parse_func_params(tokens, p2);
    let parameters = match rp {
        Err(e) => {
            return Some((Err(e), p3));
        },
        Ok(parameters) => parameters,
    };
    push_node(&mut func_body, parameters);
    match parse_scope(tokens, p3) {
        None => None,
        Some((Err(e), q)) => Some((Err(e), q)),
        Some((Ok(body), q)) => {
            push_node(&mut func_body, body);
            Some((Ok(SyntaxNode::FuncDef(func_body)), q))
        },
    }
}

/// The syntax tree of a program, or `None` where [`parse`] would not return.
#[verifier::rlimit(100)]
#[verifier::spinoff_prover]
pub fn parse_checked(tokens: &Vec<Token>) -> (r: Option<Result<SyntaxNode, Error>>)
    ensures
        r is None <==> spec_parse(tokens_view(tokens@)) is None,
        r matches Some(res) ==> spec_parse(tokens_view(tokens@)) == Some(result_view(res)),
{
    let ghost t = tokens_view(tokens@);
    let mut code = new_nodes();
    let mut p: usize = 0;
    loop
        invariant
            p <= tokens.len(),
            t == tokens_view(tokens@),
            spec_program_loop(t, 0, Seq::<SpecNode>::empty()) == spec_program_loop(
                t,
                p as int,
                nodes_view(code@),
            ),
        decreases tokens.len() - p,
    {
        let peeked = token_at(tokens, p);
        match peeked {
            Token::EOF => {
                return Some(Ok(SyntaxNode::Scope(code)));
            },
            _ => {},
        }
        match parse_instruction(tokens, p) {
            None => {
                return None;
            },
            Some((Err(e), _)) => {
                return Some(Err(e));
            },
            Some((Ok(instruction), q)) => {
                push_node(&mut code, instruction);
                let peeked = token_at(tokens, q);
                match peeked {
                    Token::EOF => {
                        return Some(Ok(SyntaxNode::Scope(code)));
                    },
                    _ => {},
                }
                p = q;
            },
        }
    }
}

/// The syntax tree of a program: the scope of its instructions.
pub fn parse(tokens: &Vec<Token>) -> (r: Result<SyntaxNode, Error>)
    requires
        spec_parse(tokens_view(tokens@)) is Some,
    ensures
        spec_parse(tokens_view(tokens@)) == Some(result_view(r)),
{
    match parse_checked(tokens) {
        Some(r) => r,
        None => vstd::pervasive::unreached(),
    }
}

} // verus!

verus! {

/// A copy of the nodes of `v`.
pub fn clone_nodes(v: &Vec<SyntaxNode>) -> (r: Vec<SyntaxNode>)
    ensures
        nodes_view(r@) == nodes_view(v@),
    decreases v,
{
    let mut r = new_nodes();
    let mut i: usize = 0;
    while i < v.len()
        invariant
            i <= v.len(),
            nodes_view(r@) == nodes_view(v@.take(i as int)),
        decreases v.len() - i,
    {
        proof {
            assert(v@.take(i + 1) =~= v@.take(i as int).push(v@[i as int]));
            lemma_nodes_view_push(v@.take(i as int), v@[i as int]);
        }
        assert(decreases_to!(v => v@[i as int]));
        let n = v[i].clone();
        push_node(&mut r, n);
        i = i + 1;
    }
    assert(v@.take(v.len() as int) =~= v@);
    r
}

impl Clone for SyntaxNode {
    fn clone(&self) -> (r: SyntaxNode)
        ensures
            r@ == self@,
        decreases self,
    {
        match self {
            SyntaxNode::Scope(v) => SyntaxNode::Scope(clone_nodes(v)),
            SyntaxNode::FuncHeader(v) => SyntaxNode::FuncHeader(clone_tokens(v)),
            SyntaxNode::FuncName(t) => SyntaxNode::FuncName(t.clone()),
            SyntaxNode::FuncParams(v) => SyntaxNode::FuncParams(clone_nodes(v)),
            SyntaxNode::FuncDef(v) => SyntaxNode::FuncDef(clone_nodes(v)),
            SyntaxNode::FuncArgs(v) => SyntaxNode::FuncArgs(clone_nodes(v)),
            SyntaxNode::FuncCall(v) => SyntaxNode::FuncCall(clone_nodes(v)),
            SyntaxNode::ExprLiteral(t) => SyntaxNode::ExprLiteral(t.clone()),
            SyntaxNode::ExprCast(v) => SyntaxNode::ExprCast(clone_nodes(v)),
            SyntaxNode::Expr(t, v) => SyntaxNode::Expr(t.clone(), clone_nodes(v)),
            SyntaxNode::Var(t, b) => {
                let inner = (**b).clone();
                SyntaxNode::Var(t.clone(), Box::new(inner))
            },
            SyntaxNode::Type(t) => SyntaxNode::Type(t.clone()),
            SyntaxNode::ConstDecl(v) => SyntaxNode::ConstDecl(clone_nodes(v)),
            SyntaxNode::VarDecl(v) => SyntaxNode::VarDecl(clone_nodes(v)),
            SyntaxNode::VarModif(a, b, c) => {
                let inner = (**c).clone();
                SyntaxNode::VarModif(a.clone(), b.clone(), Box::new(inner))
            },
            SyntaxNode::If(v) => SyntaxNode::If(clone_nodes(v)),
            SyntaxNode::Else(b) => {
                let inner = (**b).clone();
                SyntaxNode::Else(Box::new(inner))
            },
            SyntaxNode::While(v) => SyntaxNode::While(clone_nodes(v)),
            SyntaxNode::ForTraditionnal(v) => SyntaxNode::ForTraditionnal(clone_nodes(v)),
            SyntaxNode::ForModern(v) => SyntaxNode::ForModern(clone_nodes(v)),
            SyntaxNode::ForVars(v) => SyntaxNode::ForVars(clone_nodes(v)),
            SyntaxNode::ForIterators(v) => SyntaxNode::ForIterators(clone_tokens(v)),
            SyntaxNode::Return(r) => match r {
                Some(b) => {
                    let inner = (**b).clone();
                    SyntaxNode::Return(Some(Box::new(inner)))
                },
                None => SyntaxNode::Return(None),
            },
        }
    }
}

/// A copy of the tokens of `v`.
pub fn clone_tokens(v: &Vec<Token>) -> (r: Vec<Token>)
    ensures
        tokens_view(r@) == tokens_view(v@),
{
    let mut r: Vec<Token> = Vec::new();
    let mut i: usize = 0;
    while i < v.len()
        invariant
            i <= v.len(),
            r@.len() == i,
            forall|j: int| 0 <= j < i ==> #[trigger] r@[j]@ == v@[j]@,
        decreases v.len() - i,
    {
        r.push(v[i].clone());
        i = i + 1;
    }
    assert(tokens_view(r@) =~= tokens_view(v@));
    r
}

} // verus!

verus! {

proof fn lemma_program_loop_scope(t: Seq<SpecToken>, p: int, acc: Seq<SpecNode>)
    ensures
        spec_program_loop(t, p, acc) matches Some((Ok(n), _)) ==> n is Scope,
    decreases t.len() - p,
{
    if !(tok_at(t, p) is EOF) {
        match spec_parse_instruction(t, p) {
            Some((Ok(ins), q)) => {
                if p < q <= t.len() && !(tok_at(t, q) is EOF) {
                    lemma_program_loop_scope(t, q, acc.push(ins));
                }
            },
            _ => {},
        }
    }
}

/// A program that parses is a scope: the list of its instructions.
pub proof fn law_parse_gives_scope(t: Seq<SpecToken>)
    ensures
        spec_parse(t) matches Some(Ok(n)) ==> n is Scope,
{
    lemma_program_loop_scope(t, 0, Seq::<SpecNode>::empty());
}

} // verus!

verus! {

/// The choice after the attempts `rs`, in order, all made at the position
/// of `st`.
pub open spec fn attempts(t: Seq<SpecToken>, st: OptState, rs: Seq<(Result<SpecNode, SpecError>, int)>) -> Option<OptState>
    decreases rs.len(),
{
    if rs.len() == 0 {
        Some(st)
    } else {
        match attempts(t, st, rs.drop_last()) {
            None => None,
            Some(s) => attempt(t, s, Some(rs.last())),
        }
    }
}

/// In a choice between statement forms, a form that succeeds is chosen and
/// the tokens move past it; a form that fails after a success leaves that
/// success and the position as they were.
pub proof fn law_choice_keeps_success(t: Seq<SpecToken>, st: OptState, n: SpecNode, q: int, e: SpecError, q2: int)
    requires
        t.len() < usize::MAX,
    ensures
        st.2 <= q <= t.len() ==> attempt(t, st, Some((Ok(n), q))) == Some((Ok::<SpecNode, SpecError>(n), usize::MAX as int, q)),
        st.0 is Ok && st.1 == usize::MAX && 0 <= st.2 <= q2 <= t.len() ==> attempt(t, st, Some((Err(e), q2))) == Some(st),
{
}

/// When every form fails, each after consuming at least one token, the
/// position stays where the choice began and the error chosen is that of
/// the first form among those whose attempt got furthest.
pub proof fn law_choice_furthest_failure(t: Seq<SpecToken>, p: int, rs: Seq<(Result<SpecNode, SpecError>, int)>)
    requires
        t.len() < usize::MAX,
        rs.len() > 0,
        forall|i: int| 0 <= i < rs.len() ==> (#[trigger] rs[i]).0 is Err && p < rs[i].1 <= t.len(),
    ensures
        exists|k: int|
            0 <= k < rs.len() && attempts(t, no_choice(p), rs) == Some((rs[k].0, rs[k].1 - p, p))
                && (forall|i: int| 0 <= i < rs.len() ==> #[trigger] rs[i].1 <= rs[k].1)
                && (forall|i: int| 0 <= i < k ==> #[trigger] rs[i].1 < rs[k].1),
    decreases rs.len(),
{
    let init = rs.drop_last();
    let x = rs.last();
    if init.len() == 0 {
        assert(attempts(t, no_choice(p), init) == Some(no_choice(p)));
        assert(rs[0] == x);
        assert(attempts(t, no_choice(p), rs) == Some((rs[0].0, rs[0].1 - p, p)));
    } else {
        assert forall|i: int| 0 <= i < init.len() implies (#[trigger] init[i]).0 is Err && p < init[i].1 <= t.len() by {
            assert(init[i] == rs[i]);
        }
        law_choice_furthest_failure(t, p, init);
        let k = choose|k: int|
            0 <= k < init.len() && attempts(t, no_choice(p), init) == Some((init[k].0, init[k].1 - p, p))
                && (forall|i: int| 0 <= i < init.len() ==> #[trigger] init[i].1 <= init[k].1)
                && (forall|i: int| 0 <= i < k ==> #[trigger] init[i].1 < init[k].1);
        assert(init[k] == rs[k]);
        assert(x == rs[rs.len() - 1]);
        if x.1 - p > init[k].1 - p {
            let last = rs.len() - 1;
            assert forall|i: int| 0 <= i < rs.len() implies #[trigger] rs[i].1 <= rs[last].1 by {
                if i < last {
                    assert(init[i] == rs[i]);
                }
            }
            assert forall|i: int| 0 <= i < last implies #[trigger] rs[i].1 < rs[last].1 by {
                assert(init[i] == rs[i]);
            }
            assert(attempts(t, no_choice(p), rs) == Some((rs[last].0, rs[last].1 - p, p)));
        } else {
            assert forall|i: int| 0 <= i < rs.len() implies #[trigger] rs[i].1 <= rs[k].1 by {
                if i < rs.len() - 1 {
                    assert(init[i] == rs[i]);
                }
            }
            assert forall|i: int| 0 <= i < k implies #[trigger] rs[i].1 < rs[k].1 by {
                assert(init[i] == rs[i]);
            }
            assert(attempts(t, no_choice(p), rs) == Some((rs[k].0, rs[k].1 - p, p)));
        }
    }
}

} // verus!

verus! {

/// Precedence and associativity of the operators: `*` and `/` bind alike,
/// and tighter than `+` and `-`, which bind alike, and tighter than the
/// comparisons, which bind alike; the bitwise operators bind tighter still,
/// `&` over `^` over `|`. Every operator binds its right operand tighter
/// than its left, so operators of one level group to the left, and a level
/// binds its left operand tighter than the level below binds its right one,
/// so in `a + b / c` the division is the right operand of the addition.
pub proof fn law_binding_powers()
    ensures
        spec_binding_power(SpecToken::Div) == spec_binding_power(SpecToken::Times),
        spec_binding_power(SpecToken::Minus) == spec_binding_power(SpecToken::Plus),
        spec_binding_power(SpecToken::BiggerThan) == spec_binding_power(SpecToken::EqualTo),
        spec_binding_power(SpecToken::LessThan) == spec_binding_power(SpecToken::EqualTo),
        spec_binding_power(SpecToken::BiggerOrEqualTo) == spec_binding_power(SpecToken::EqualTo),
        spec_binding_power(SpecToken::LessOrEqualTo) == spec_binding_power(SpecToken::EqualTo),
        forall|op: SpecToken| #[trigger] spec_binding_power(op) matches Some((l, r)) ==> l < r,
        spec_binding_power(SpecToken::Times).unwrap().0 > spec_binding_power(SpecToken::Plus).unwrap().1,
        spec_binding_power(SpecToken::Plus).unwrap().0 > spec_binding_power(SpecToken::EqualTo).unwrap().1,
        spec_binding_power(SpecToken::BitwiseOr).unwrap().0 > spec_binding_power(SpecToken::Times).unwrap().1,
        spec_binding_power(SpecToken::BitwiseXor).unwrap().0 > spec_binding_power(SpecToken::BitwiseOr).unwrap().1,
        spec_binding_power(SpecToken::BitwiseAnd).unwrap().0 > spec_binding_power(SpecToken::BitwiseXor).unwrap().1,
{
}

} // verus!

verus! {

/// In `a o1 b o2 c`, of three number literals, the second operator takes
/// `b` as its left operand when it binds tighter than the first binds its
/// right operand, and the whole `a o1 b` otherwise: so `a + b / c` parses
/// as `a + (b / c)` and `a - b - c` as `(a - b) - c`.
pub proof fn law_operator_grouping(a: SpecToken, o1: SpecToken, b: SpecToken, o2: SpecToken, c: SpecToken)
    requires
        a is Int || a is Uint,
        b is Int || b is Uint,
        c is Int || c is Uint,
        spec_binding_power(o1) is Some,
        spec_binding_power(o2) is Some,
    ensures
        ({
            let t = seq![a, o1, b, o2, c, SpecToken::SemiColon];
            let (l2, r2) = spec_binding_power(o2).unwrap();
            let (l1, r1) = spec_binding_power(o1).unwrap();
            let la = SpecNode::ExprLiteral(a);
            let lb = SpecNode::ExprLiteral(b);
            let lc = SpecNode::ExprLiteral(c);
            spec_parse_expression(t, 0, 0) == Some((
                Ok::<SpecNode, SpecError>(if l2 >= r1 {
                    SpecNode::Expr(o1, seq![la, SpecNode::Expr(o2, seq![lb, lc])])
                } else {
                    SpecNode::Expr(o2, seq![SpecNode::Expr(o1, seq![la, lb]), lc])
                }),
                5int,
            ))
        }),
{
    let t = seq![a, o1, b, o2, c, SpecToken::SemiColon];
    let (l1, r1) = spec_binding_power(o1).unwrap();
    let (l2, r2) = spec_binding_power(o2).unwrap();
    let la = SpecNode::ExprLiteral(a);
    let lb = SpecNode::ExprLiteral(b);
    let lc = SpecNode::ExprLiteral(c);
    assert(l1 >= 0 && l2 >= 0);
    assert(spec_parse_func_call(t, 0) == Some((Err::<SpecNode, SpecError>(SpecError::ExpectedIdentifier(a)), 1int)));
    assert(spec_parse_value(t, 0) == Some((Ok::<SpecNode, SpecError>(la), 1int)));
    assert(spec_parse_func_call(t, 2) == Some((Err::<SpecNode, SpecError>(SpecError::ExpectedIdentifier(b)), 3int)));
    assert(spec_parse_value(t, 2) == Some((Ok::<SpecNode, SpecError>(lb), 3int)));
    assert(spec_parse_func_call(t, 4) == Some((Err::<SpecNode, SpecError>(SpecError::ExpectedIdentifier(c)), 5int)));
    assert(spec_parse_value(t, 4) == Some((Ok::<SpecNode, SpecError>(lc), 5int)));
    assert(tok_at(t, 5) == SpecToken::SemiColon);
    let e2 = SpecNode::Expr(o2, seq![lb, lc]);
    let e1 = SpecNode::Expr(o1, seq![la, lb]);
    assert(spec_expr_loop(t, 5, lc, r2) == Some((Ok::<SpecNode, SpecError>(lc), 5int)));
    assert(spec_parse_expression(t, 4, r2) == Some((Ok::<SpecNode, SpecError>(lc), 5int)));
    if l2 >= r1 {
        assert(spec_expr_loop(t, 5, e2, r1) == Some((Ok::<SpecNode, SpecError>(e2), 5int)));
        assert(spec_expr_loop(t, 3, lb, r1) == Some((Ok::<SpecNode, SpecError>(e2), 5int)));
        assert(spec_parse_expression(t, 2, r1) == Some((Ok::<SpecNode, SpecError>(e2), 5int)));
        let whole = SpecNode::Expr(o1, seq![la, e2]);
        assert(spec_expr_loop(t, 5, whole, 0) == Some((Ok::<SpecNode, SpecError>(whole), 5int)));
        assert(spec_expr_loop(t, 1, la, 0) == Some((Ok::<SpecNode, SpecError>(whole), 5int)));
    } else {
        assert(spec_expr_loop(t, 3, lb, r1) == Some((Ok::<SpecNode, SpecError>(lb), 3int)));
        assert(spec_parse_expression(t, 2, r1) == Some((Ok::<SpecNode, SpecError>(lb), 3int)));
        let whole = SpecNode::Expr(o2, seq![e1, lc]);
        assert(spec_expr_loop(t, 5, whole, 0) == Some((Ok::<SpecNode, SpecError>(whole), 5int)));
        assert(spec_expr_loop(t, 3, e1, 0) == Some((Ok::<SpecNode, SpecError>(whole), 5int)));
        assert(spec_expr_loop(t, 1, la, 0) == Some((Ok::<SpecNode, SpecError>(whole), 5int)));
    }
}

/// So `a + b / c` groups as `a + (b / c)`, and `a * b - c` as `(a * b) - c`.
pub proof fn law_division_binds_tighter_than_addition(a: SpecToken, b: SpecToken, c: SpecToken)
    requires
        a is Int || a is Uint,
        b is Int || b is Uint,
        c is Int || c is Uint,
    ensures
        spec_parse_expression(seq![a, SpecToken::Plus, b, SpecToken::Div, c, SpecToken::SemiColon], 0, 0)
            == Some((Ok::<SpecNode, SpecError>(SpecNode::Expr(SpecToken::Plus, seq![
                SpecNode::ExprLiteral(a),
                SpecNode::Expr(SpecToken::Div, seq![SpecNode::ExprLiteral(b), SpecNode::ExprLiteral(c)]),
            ])), 5int)),
        spec_parse_expression(seq![a, SpecToken::Times, b, SpecToken::Minus, c, SpecToken::SemiColon], 0, 0)
            == Some((Ok::<SpecNode, SpecError>(SpecNode::Expr(SpecToken::Minus, seq![
                SpecNode::Expr(SpecToken::Times, seq![SpecNode::ExprLiteral(a), SpecNode::ExprLiteral(b)]),
                SpecNode::ExprLiteral(c),
            ])), 5int)),
{
    law_operator_grouping(a, SpecToken::Plus, b, SpecToken::Div, c);
    law_operator_grouping(a, SpecToken::Times, b, SpecToken::Minus, c);
}

} // verus!

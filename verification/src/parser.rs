//! Syntactic analysis: token stream to abstract syntax tree.
//!
//! The grammar, parsed by recursive descent with one token of lookahead:
//!
//! ```text
//! program    := toplevel* end-of-tokens
//! toplevel   := "function" identifier "(" ")" block | statement
//! statement  := "return" expression ";"
//!             | "int" identifier "=" expression ";"
//!             | identifier "=" expression ";"
//!             | block
//!             | "if" "(" expression ")" statement ("else" statement)?
//!             | expression ";"
//! block      := "{" statement* "}"
//! expression := term (("+" | "-") term)*
//! term       := factor (("*" | "/") factor)*
//! factor     := "-" factor | primary ("(" arguments ")")*
//! arguments  := (expression ("," expression)*)?
//! primary    := integer-literal | identifier | "(" expression ")"
//! ```
//!
//! Binary operators are left-associative; unary minus binds tighter than
//! `*` and `/`, which bind tighter than `+` and `-`; a call suffix binds
//! tighter than unary minus; parentheses override precedence. The
//! comparison and boolean operators are recognised by the lexer but have
//! no place in the syntax tree, so no expression form uses them: an
//! expression that reaches one ends there. Any structural mismatch fails
//! the whole parse with a generic error; there is no recovery.

use vstd::prelude::*;
use crate::token::{tokens_view, Token, TokenKind, TokenKindV, TokenV};

verus! {

/// Errors of the parser: any grammar mismatch is the one generic error.
#[derive(Debug, Clone, PartialEq, Eq, Structural)]
pub enum ParserError {
    GenericError,
}

/// Arithmetic operators of binary operations; unary negation is a
/// distinct expression form.
#[derive(Debug, Clone, Copy, PartialEq, Eq, Structural)]
pub enum Operator {
    Add,
    Subtract,
    Multiply,
    Divide,
}

/// Types of variable declarations; the language has one integer type.
#[derive(Debug, Clone, Copy, PartialEq, Eq, Structural)]
pub enum Type {
    Int,
}

/// An expression of the source language.
#[derive(Debug, PartialEq)]
pub enum Expression {
    Variable(String),
    IntLiteral(i64),
    UnaryOperation(Operator, Box<Expression>),
    BinaryOperation(Box<Expression>, Operator, Box<Expression>),
    FunctionCall(Box<Expression>, Vec<Expression>),
}

/// Mathematical model of an expression: names as character sequences.
pub enum ExpressionV {
    Variable(Seq<char>),
    IntLiteral(i64),
    UnaryOperation(Operator, Box<ExpressionV>),
    BinaryOperation(Box<ExpressionV>, Operator, Box<ExpressionV>),
    FunctionCall(Box<ExpressionV>, Seq<ExpressionV>),
}

/// A statement of the source language.
#[derive(Debug, PartialEq)]
pub enum Statement {
    Return(Expression),
    VariableDeclare(Type, String, Expression),
    VariableAssignment(String, Expression),
    Block(Vec<Statement>),
    Expression(Expression),
    If(Expression, Box<Statement>, Option<Box<Statement>>),
    Else(Box<Statement>),
}

/// Mathematical model of a statement.
pub enum StatementV {
    Return(ExpressionV),
    VariableDeclare(Type, Seq<char>, ExpressionV),
    VariableAssignment(Seq<char>, ExpressionV),
    Block(Seq<StatementV>),
    Expression(ExpressionV),
    If(ExpressionV, Box<StatementV>, Option<Box<StatementV>>),
    Else(Box<StatementV>),
}

/// A top-level item: a named function or a bare statement.
#[derive(Debug, PartialEq)]
pub enum TopLevel {
    Function { name: String, body: Statement },
    Statement(Statement),
}

/// Mathematical model of a top-level item.
pub enum TopLevelV {
    Function { name: Seq<char>, body: StatementV },
    Statement(StatementV),
}

pub open spec fn expr_view(e: Expression) -> ExpressionV
    decreases e,
{
    match e {
        Expression::Variable(s) => ExpressionV::Variable(s@),
        Expression::IntLiteral(v) => ExpressionV::IntLiteral(v),
        Expression::UnaryOperation(op, inner) => ExpressionV::UnaryOperation(
            op,
            Box::new(expr_view(*inner)),
        ),
        Expression::BinaryOperation(l, op, r) => ExpressionV::BinaryOperation(
            Box::new(expr_view(*l)),
            op,
            Box::new(expr_view(*r)),
        ),
        Expression::FunctionCall(f, args) => ExpressionV::FunctionCall(
            Box::new(expr_view(*f)),
            exprs_view(args@),
        ),
    }
}

/// The views of a sequence of expressions, element by element.
pub open spec fn exprs_view(es: Seq<Expression>) -> Seq<ExpressionV>
    decreases es,
{
    if es.len() == 0 {
        Seq::empty()
    } else {
        seq![expr_view(es[0])] + exprs_view(es.subrange(1, es.len() as int))
    }
}

/// The views of a sequence of statements, element by element.
pub open spec fn stmts_view(ss: Seq<Statement>) -> Seq<StatementV>
    decreases ss,
{
    if ss.len() == 0 {
        Seq::empty()
    } else {
        seq![stmt_view(ss[0])] + stmts_view(ss.subrange(1, ss.len() as int))
    }
}

pub open spec fn stmt_view(s: Statement) -> StatementV
    decreases s,
{
    match s {
        Statement::Return(e) => StatementV::Return(expr_view(e)),
        Statement::VariableDeclare(t, n, e) => StatementV::VariableDeclare(t, n@, expr_view(e)),
        Statement::VariableAssignment(n, e) => StatementV::VariableAssignment(n@, expr_view(e)),
        Statement::Block(ss) => StatementV::Block(stmts_view(ss@)),
        Statement::Expression(e) => StatementV::Expression(expr_view(e)),
        Statement::If(c, th, el) => StatementV::If(
            expr_view(c),
            Box::new(stmt_view(*th)),
            match el {
                Some(s2) => Some(Box::new(stmt_view(*s2))),
                None => None,
            },
        ),
        Statement::Else(s2) => StatementV::Else(Box::new(stmt_view(*s2))),
    }
}

pub open spec fn toplevel_view(t: TopLevel) -> TopLevelV {
    match t {
        TopLevel::Function { name, body } => TopLevelV::Function {
            name: name@,
            body: stmt_view(body),
        },
        TopLevel::Statement(s) => TopLevelV::Statement(stmt_view(s)),
    }
}

/// The views of a sequence of top-level items, element by element.
pub open spec fn toplevels_view(ts: Seq<TopLevel>) -> Seq<TopLevelV> {
    ts.map_values(|t: TopLevel| toplevel_view(t))
}

proof fn lemma_exprs_view_push(es: Seq<Expression>, x: Expression)
    ensures
        exprs_view(es.push(x)) == exprs_view(es) + seq![expr_view(x)],
    decreases es,
{
    let tail = es.subrange(1, es.len() as int);
    let snoc = es.push(x);
    if es.len() == 0 {
        assert(snoc.subrange(1, snoc.len() as int) =~= Seq::<Expression>::empty());
        assert(snoc[0] == x);
        assert(exprs_view(snoc) == seq![expr_view(x)] + exprs_view(Seq::<Expression>::empty()));
        assert(seq![expr_view(x)] + Seq::<ExpressionV>::empty() =~= seq![expr_view(x)]);
        assert(exprs_view(es) + seq![expr_view(x)] =~= seq![expr_view(x)]);
    } else {
        lemma_exprs_view_push(tail, x);
        assert(snoc.subrange(1, snoc.len() as int) =~= tail.push(x));
        assert(snoc[0] == es[0]);
        assert(exprs_view(snoc) == seq![expr_view(es[0])] + exprs_view(tail.push(x)));
        assert(seq![expr_view(es[0])] + (exprs_view(tail) + seq![expr_view(x)]) =~= (seq![
            expr_view(es[0]),
        ] + exprs_view(tail)) + seq![expr_view(x)]);
        assert(exprs_view(es) == seq![expr_view(es[0])] + exprs_view(tail));
    }
}

proof fn lemma_stmts_view_push(ss: Seq<Statement>, x: Statement)
    ensures
        stmts_view(ss.push(x)) == stmts_view(ss) + seq![stmt_view(x)],
    decreases ss,
{
    let tail = ss.subrange(1, ss.len() as int);
    let snoc = ss.push(x);
    if ss.len() == 0 {
        assert(snoc.subrange(1, snoc.len() as int) =~= Seq::<Statement>::empty());
        assert(snoc[0] == x);
        assert(stmts_view(snoc) == seq![stmt_view(x)] + stmts_view(Seq::<Statement>::empty()));
        assert(seq![stmt_view(x)] + Seq::<StatementV>::empty() =~= seq![stmt_view(x)]);
        assert(stmts_view(ss) + seq![stmt_view(x)] =~= seq![stmt_view(x)]);
    } else {
        lemma_stmts_view_push(tail, x);
        assert(snoc.subrange(1, snoc.len() as int) =~= tail.push(x));
        assert(snoc[0] == ss[0]);
        assert(stmts_view(snoc) == seq![stmt_view(ss[0])] + stmts_view(tail.push(x)));
        assert(seq![stmt_view(ss[0])] + (stmts_view(tail) + seq![stmt_view(x)]) =~= (seq![
            stmt_view(ss[0]),
        ] + stmts_view(tail)) + seq![stmt_view(x)]);
        assert(stmts_view(ss) == seq![stmt_view(ss[0])] + stmts_view(tail));
    }
}

/// A primary expression: an integer literal, a variable, or a
/// parenthesised expression.
pub open spec fn spec_parse_primary(toks: Seq<TokenV>, i: int) -> Option<(ExpressionV, int)>
    decreases toks.len() - i, 0int,
{
    if i < 0 || i >= toks.len() {
        None
    } else {
        match toks[i].kind {
            TokenKindV::IntLiteral(v) => Some((ExpressionV::IntLiteral(v), i + 1)),
            TokenKindV::Identifier(name) => Some((ExpressionV::Variable(name), i + 1)),
            TokenKindV::LeftParentheses => match spec_parse_expr(toks, i + 1) {
                Some((e, j)) => {
                    if j < toks.len() && toks[j].kind is RightParentheses {
                        Some((e, j + 1))
                    } else {
                        None
                    }
                },
                None => None,
            },
            _ => None,
        }
    }
}

/// Zero or more call suffixes `( arguments )` applied to `callee`.
pub open spec fn spec_parse_calls(toks: Seq<TokenV>, callee: ExpressionV, i: int) -> Option<
    (ExpressionV, int),
>
    decreases toks.len() - i, 2int,
{
    if 0 <= i < toks.len() && toks[i].kind is LeftParentheses {
        match spec_parse_args(toks, i + 1) {
            Some((args, j)) => {
                if i < j <= toks.len() {
                    spec_parse_calls(toks, ExpressionV::FunctionCall(Box::new(callee), args), j)
                } else {
                    None
                }
            },
            None => None,
        }
    } else {
        Some((callee, i))
    }
}

/// A comma-separated argument list up to and including the closing
/// parenthesis.
pub open spec fn spec_parse_args(toks: Seq<TokenV>, i: int) -> Option<(Seq<ExpressionV>, int)>
    decreases toks.len() - i, 7int,
{
    if i < 0 || i >= toks.len() {
        None
    } else if toks[i].kind is RightParentheses {
        Some((Seq::empty(), i + 1))
    } else {
        match spec_parse_expr(toks, i) {
            Some((e, j)) => {
                if i < j <= toks.len() {
                    spec_parse_args_rest(toks, seq![e], j)
                } else {
                    None
                }
            },
            None => None,
        }
    }
}

/// The remaining arguments after the first: `("," expression)* ")"`.
pub open spec fn spec_parse_args_rest(toks: Seq<TokenV>, args: Seq<ExpressionV>, i: int) -> Option<
    (Seq<ExpressionV>, int),
>
    decreases toks.len() - i, 8int,
{
    if i < 0 || i >= toks.len() {
        None
    } else if toks[i].kind is RightParentheses {
        Some((args, i + 1))
    } else if toks[i].kind is Comma {
        match spec_parse_expr(toks, i + 1) {
            Some((e, j)) => {
                if i < j <= toks.len() {
                    spec_parse_args_rest(toks, args.push(e), j)
                } else {
                    None
                }
            },
            None => None,
        }
    } else {
        None
    }
}

/// A factor: unary minus applied to a factor, or a primary expression
/// with call suffixes.
pub open spec fn spec_parse_factor(toks: Seq<TokenV>, i: int) -> Option<(ExpressionV, int)>
    decreases toks.len() - i, 1int,
{
    if i < 0 || i >= toks.len() {
        None
    } else if toks[i].kind is Minus {
        match spec_parse_factor(toks, i + 1) {
            Some((e, j)) => Some(
                (ExpressionV::UnaryOperation(Operator::Subtract, Box::new(e)), j),
            ),
            None => None,
        }
    } else {
        match spec_parse_primary(toks, i) {
            Some((e, j)) => {
                if i < j <= toks.len() {
                    spec_parse_calls(toks, e, j)
                } else {
                    None
                }
            },
            None => None,
        }
    }
}

/// The remaining `("*" | "/") factor` steps, folded left-associatively
/// onto `lhs`.
pub open spec fn spec_parse_term_rest(toks: Seq<TokenV>, lhs: ExpressionV, i: int) -> Option<
    (ExpressionV, int),
>
    decreases toks.len() - i, 3int,
{
    if 0 <= i < toks.len() && (toks[i].kind is Star || toks[i].kind is Slash) {
        let op = if toks[i].kind is Star {
            Operator::Multiply
        } else {
            Operator::Divide
        };
        match spec_parse_factor(toks, i + 1) {
            Some((rhs, j)) => {
                if i < j <= toks.len() {
                    spec_parse_term_rest(
                        toks,
                        ExpressionV::BinaryOperation(Box::new(lhs), op, Box::new(rhs)),
                        j,
                    )
                } else {
                    None
                }
            },
            None => None,
        }
    } else {
        Some((lhs, i))
    }
}

/// A term: factors combined by `*` and `/`.
pub open spec fn spec_parse_term(toks: Seq<TokenV>, i: int) -> Option<(ExpressionV, int)>
    decreases toks.len() - i, 4int,
{
    match spec_parse_factor(toks, i) {
        Some((e, j)) => {
            if i < j <= toks.len() {
                spec_parse_term_rest(toks, e, j)
            } else {
                None
            }
        },
        None => None,
    }
}

/// The remaining `("+" | "-") term` steps, folded left-associatively
/// onto `lhs`.
pub open spec fn spec_parse_expr_rest(toks: Seq<TokenV>, lhs: ExpressionV, i: int) -> Option<
    (ExpressionV, int),
>
    decreases toks.len() - i, 5int,
{
    if 0 <= i < toks.len() && (toks[i].kind is Plus || toks[i].kind is Minus) {
        let op = if toks[i].kind is Plus {
            Operator::Add
        } else {
            Operator::Subtract
        };
        match spec_parse_term(toks, i + 1) {
            Some((rhs, j)) => {
                if i < j <= toks.len() {
                    spec_parse_expr_rest(
                        toks,
                        ExpressionV::BinaryOperation(Box::new(lhs), op, Box::new(rhs)),
                        j,
                    )
                } else {
                    None
                }
            },
            None => None,
        }
    } else {
        Some((lhs, i))
    }
}

/// An expression: terms combined by `+` and `-`.
pub open spec fn spec_parse_expr(toks: Seq<TokenV>, i: int) -> Option<(ExpressionV, int)>
    decreases toks.len() - i, 6int,
{
    match spec_parse_term(toks, i) {
        Some((e, j)) => {
            if i < j <= toks.len() {
                spec_parse_expr_rest(toks, e, j)
            } else {
                None
            }
        },
        None => None,
    }
}

/// An expression statement: `expression ";"`.
pub open spec fn spec_parse_expr_stmt(toks: Seq<TokenV>, i: int) -> Option<(StatementV, int)>
    decreases toks.len() - i, 9int,
{
    match spec_parse_expr(toks, i) {
        Some((e, j)) => {
            if j < toks.len() && toks[j].kind is Semicolon {
                Some((StatementV::Expression(e), j + 1))
            } else {
                None
            }
        },
        None => None,
    }
}

/// A statement, as given by the grammar.
pub open spec fn spec_parse_stmt(toks: Seq<TokenV>, i: int) -> Option<(StatementV, int)>
    decreases toks.len() - i, 10int,
{
    if i < 0 || i >= toks.len() {
        None
    } else {
        match toks[i].kind {
            TokenKindV::Return => match spec_parse_expr(toks, i + 1) {
                Some((e, j)) => {
                    if j < toks.len() && toks[j].kind is Semicolon {
                        Some((StatementV::Return(e), j + 1))
                    } else {
                        None
                    }
                },
                None => None,
            },
            TokenKindV::IntType => {
                if i + 2 < toks.len() && toks[i + 1].kind is Identifier && toks[i + 2].kind
                    is Equal {
                    match spec_parse_expr(toks, i + 3) {
                        Some((e, j)) => {
                            if j < toks.len() && toks[j].kind is Semicolon {
                                Some(
                                    (
                                        StatementV::VariableDeclare(
                                            Type::Int,
                                            toks[i + 1].kind->Identifier_0,
                                            e,
                                        ),
                                        j + 1,
                                    ),
                                )
                            } else {
                                None
                            }
                        },
                        None => None,
                    }
                } else {
                    None
                }
            },
            TokenKindV::LeftBrace => spec_parse_block_rest(toks, Seq::empty(), i + 1),
            TokenKindV::If => {
                if i + 1 < toks.len() && toks[i + 1].kind is LeftParentheses {
                    match spec_parse_expr(toks, i + 2) {
                        Some((cond, j)) => {
                            if i + 2 < j < toks.len() && toks[j].kind is RightParentheses {
                                match spec_parse_stmt(toks, j + 1) {
                                    Some((then, j2)) => {
                                        if j + 1 < j2 <= toks.len() {
                                            if j2 < toks.len() && toks[j2].kind is Else {
                                                match spec_parse_stmt(toks, j2 + 1) {
                                                    Some((alt, j3)) => Some(
                                                        (
                                                            StatementV::If(
                                                                cond,
                                                                Box::new(then),
                                                                Some(
                                                                    Box::new(
                                                                        StatementV::Else(
                                                                            Box::new(alt),
                                                                        ),
                                                                    ),
                                                                ),
                                                            ),
                                                            j3,
                                                        ),
                                                    ),
                                                    None => None,
                                                }
                                            } else {
                                                Some(
                                                    (StatementV::If(cond, Box::new(then), None), j2),
                                                )
                                            }
                                        } else {
                                            None
                                        }
                                    },
                                    None => None,
                                }
                            } else {
                                None
                            }
                        },
                        None => None,
                    }
                } else {
                    None
                }
            },
            TokenKindV::Identifier(name) => {
                if i + 1 < toks.len() && toks[i + 1].kind is Equal {
                    match spec_parse_expr(toks, i + 2) {
                        Some((e, j)) => {
                            if j < toks.len() && toks[j].kind is Semicolon {
                                Some((StatementV::VariableAssignment(name, e), j + 1))
                            } else {
                                None
                            }
                        },
                        None => None,
                    }
                } else {
                    spec_parse_expr_stmt(toks, i)
                }
            },
            _ => spec_parse_expr_stmt(toks, i),
        }
    }
}

/// The statements of a block after its opening brace, up to and
/// including the closing brace.
pub open spec fn spec_parse_block_rest(toks: Seq<TokenV>, acc: Seq<StatementV>, i: int) -> Option<
    (StatementV, int),
>
    decreases toks.len() - i, 11int,
{
    if i < 0 || i >= toks.len() {
        None
    } else if toks[i].kind is RightBrace {
        Some((StatementV::Block(acc), i + 1))
    } else {
        match spec_parse_stmt(toks, i) {
            Some((s, j)) => {
                if i < j <= toks.len() {
                    spec_parse_block_rest(toks, acc.push(s), j)
                } else {
                    None
                }
            },
            None => None,
        }
    }
}

/// A top-level item: `"function" identifier "(" ")" block`, or a bare
/// statement.
pub open spec fn spec_parse_toplevel(toks: Seq<TokenV>, i: int) -> Option<(TopLevelV, int)>
    decreases toks.len() - i, 12int,
{
    if i < 0 || i >= toks.len() {
        None
    } else if toks[i].kind is Function {
        if i + 4 < toks.len() && toks[i + 1].kind is Identifier && toks[i + 2].kind
            is LeftParentheses && toks[i + 3].kind is RightParentheses && toks[i + 4].kind
            is LeftBrace {
            match spec_parse_stmt(toks, i + 4) {
                Some((body, j)) => Some(
                    (TopLevelV::Function { name: toks[i + 1].kind->Identifier_0, body }, j),
                ),
                None => None,
            }
        } else {
            None
        }
    } else {
        match spec_parse_stmt(toks, i) {
            Some((s, j)) => Some((TopLevelV::Statement(s), j)),
            None => None,
        }
    }
}

/// The top-level items from `i` to the end of the token sequence,
/// appended to `acc`.
pub open spec fn spec_parse_program_rest(toks: Seq<TokenV>, acc: Seq<TopLevelV>, i: int) -> Option<
    Seq<TopLevelV>,
>
    decreases toks.len() - i, 13int,
{
    if i < 0 {
        None
    } else if i >= toks.len() {
        Some(acc)
    } else {
        match spec_parse_toplevel(toks, i) {
            Some((t, j)) => {
                if i < j <= toks.len() {
                    spec_parse_program_rest(toks, acc.push(t), j)
                } else {
                    None
                }
            },
            None => None,
        }
    }
}

/// The whole program: top-level items consuming every token.
pub open spec fn spec_parse_program(toks: Seq<TokenV>) -> Option<Seq<TopLevelV>> {
    spec_parse_program_rest(toks, Seq::empty(), 0)
}

impl View for Expression {
    type V = ExpressionV;

    open spec fn view(&self) -> ExpressionV {
        expr_view(*self)
    }
}

impl View for Statement {
    type V = StatementV;

    open spec fn view(&self) -> StatementV {
        stmt_view(*self)
    }
}

impl View for TopLevel {
    type V = TopLevelV;

    open spec fn view(&self) -> TopLevelV {
        toplevel_view(*self)
    }
}

/// The parser: the token sequence and a cursor over it.
pub struct Parser {
    pub tokens: Vec<Token>,
    pub index: usize,
}

impl Parser {
    /// The token sequence as a mathematical value.
    pub open spec fn toks(self) -> Seq<TokenV> {
        tokens_view(self.tokens@)
    }

    /// Well-formedness: the cursor is within the token sequence.
    pub open spec fn wf(self) -> bool {
        self.index <= self.tokens@.len()
    }

    fn parse_primary(&mut self) -> (r: Result<Expression, ParserError>)
        requires
            old(self).wf(),
        ensures
            final(self).wf(),
            final(self).tokens == old(self).tokens,
            ({
                let m = spec_parse_primary(old(self).toks(), old(self).index as int);
                match r {
                    Ok(e) => m is Some && m->0 == (expr_view(e), final(self).index as int)
                        && old(self).index < final(self).index,
                    Err(_) => m is None,
                }
            }),
        decreases self.tokens@.len() - self.index, 0int,
    {
        if self.index >= self.tokens.len() {
            return Err(ParserError::GenericError);
        }
        match &self.tokens[self.index].kind {
            TokenKind::IntLiteral(v) => {
                let value: i64 = *v;
                self.index += 1;
                Ok(Expression::IntLiteral(value))
            },
            TokenKind::Identifier(name) => {
                let n = name.clone();
                self.index += 1;
                Ok(Expression::Variable(n))
            },
            TokenKind::LeftParentheses => {
                self.index += 1;
                match self.parse_expr() {
                    Ok(e) => {
                        if self.index < self.tokens.len() && matches!(
                            &self.tokens[self.index].kind,
                            TokenKind::RightParentheses
                        ) {
                            self.index += 1;
                            Ok(e)
                        } else {
                            Err(ParserError::GenericError)
                        }
                    },
                    Err(err) => Err(err),
                }
            },
            _ => Err(ParserError::GenericError),
        }
    }

    fn parse_calls(&mut self, callee: Expression) -> (r: Result<Expression, ParserError>)
        requires
            old(self).wf(),
        ensures
            final(self).wf(),
            final(self).tokens == old(self).tokens,
            ({
                let m = spec_parse_calls(
                    old(self).toks(),
                    expr_view(callee),
                    old(self).index as int,
                );
                match r {
                    Ok(e) => m is Some && m->0 == (expr_view(e), final(self).index as int)
                        && old(self).index <= final(self).index,
                    Err(_) => m is None,
                }
            }),
        decreases self.tokens@.len() - self.index, 2int,
    {
        if self.index < self.tokens.len() && matches!(
            &self.tokens[self.index].kind,
            TokenKind::LeftParentheses
        ) {
            self.index += 1;
            match self.parse_args() {
                Ok(args) => {
                    let new_callee = Expression::FunctionCall(Box::new(callee), args);
                    self.parse_calls(new_callee)
                },
                Err(err) => Err(err),
            }
        } else {
            Ok(callee)
        }
    }

    fn parse_args(&mut self) -> (r: Result<Vec<Expression>, ParserError>)
        requires
            old(self).wf(),
        ensures
            final(self).wf(),
            final(self).tokens == old(self).tokens,
            ({
                let m = spec_parse_args(old(self).toks(), old(self).index as int);
                match r {
                    Ok(args) => m is Some && old(self).index < final(self).index && m->0 == (
                    exprs_view(args@),
                    final(self).index as int,
                    ),
                    Err(_) => m is None,
                }
            }),
        decreases self.tokens@.len() - self.index, 7int,
    {
        if self.index >= self.tokens.len() {
            return Err(ParserError::GenericError);
        }
        if matches!(&self.tokens[self.index].kind, TokenKind::RightParentheses) {
            self.index += 1;
            return Ok(Vec::new());
        }
        match self.parse_expr() {
            Ok(e) => {
                let mut args: Vec<Expression> = Vec::new();
                proof {
                    lemma_exprs_view_push(args@, e);
                    assert(exprs_view(Seq::<Expression>::empty()) + seq![expr_view(e)] =~= seq![
                        expr_view(e),
                    ]);
                }
                args.push(e);
                self.parse_args_rest(args)
            },
            Err(err) => Err(err),
        }
    }

    fn parse_args_rest(&mut self, args: Vec<Expression>) -> (r: Result<
        Vec<Expression>,
        ParserError,
    >)
        requires
            old(self).wf(),
        ensures
            final(self).wf(),
            final(self).tokens == old(self).tokens,
            ({
                let m = spec_parse_args_rest(
                    old(self).toks(),
                    exprs_view(args@),
                    old(self).index as int,
                );
                match r {
                    Ok(res) => m is Some && m->0 == (exprs_view(res@), final(self).index as int)
                        && old(self).index < final(self).index,
                    Err(_) => m is None,
                }
            }),
        decreases self.tokens@.len() - self.index, 8int,
    {
        if self.index >= self.tokens.len() {
            return Err(ParserError::GenericError);
        }
        if matches!(&self.tokens[self.index].kind, TokenKind::RightParentheses) {
            self.index += 1;
            return Ok(args);
        }
        if matches!(&self.tokens[self.index].kind, TokenKind::Comma) {
            self.index += 1;
            match self.parse_expr() {
                Ok(e) => {
                    let mut args2 = args;
                    let ghost pre = args2@;
                    proof {
                        lemma_exprs_view_push(pre, e);
                        assert(exprs_view(pre) + seq![expr_view(e)] =~= exprs_view(pre).push(
                            expr_view(e),
                        ));
                    }
                    args2.push(e);
                    self.parse_args_rest(args2)
                },
                Err(err) => Err(err),
            }
        } else {
            Err(ParserError::GenericError)
        }
    }

    fn parse_factor(&mut self) -> (r: Result<Expression, ParserError>)
        requires
            old(self).wf(),
        ensures
            final(self).wf(),
            final(self).tokens == old(self).tokens,
            ({
                let m = spec_parse_factor(old(self).toks(), old(self).index as int);
                match r {
                    Ok(e) => m is Some && m->0 == (expr_view(e), final(self).index as int)
                        && old(self).index < final(self).index,
                    Err(_) => m is None,
                }
            }),
        decreases self.tokens@.len() - self.index, 1int,
    {
        if self.index >= self.tokens.len() {
            return Err(ParserError::GenericError);
        }
        if matches!(&self.tokens[self.index].kind, TokenKind::Minus) {
            self.index += 1;
            match self.parse_factor() {
                Ok(e) => Ok(Expression::UnaryOperation(Operator::Subtract, Box::new(e))),
                Err(err) => Err(err),
            }
        } else {
            match self.parse_primary() {
                Ok(e) => self.parse_calls(e),
                Err(err) => Err(err),
            }
        }
    }

    fn parse_term_rest(&mut self, lhs: Expression) -> (r: Result<Expression, ParserError>)
        requires
            old(self).wf(),
        ensures
            final(self).wf(),
            final(self).tokens == old(self).tokens,
            ({
                let m = spec_parse_term_rest(
                    old(self).toks(),
                    expr_view(lhs),
                    old(self).index as int,
                );
                match r {
                    Ok(e) => m is Some && m->0 == (expr_view(e), final(self).index as int)
                        && old(self).index <= final(self).index,
                    Err(_) => m is None,
                }
            }),
        decreases self.tokens@.len() - self.index, 3int,
    {
        if self.index < self.tokens.len() {
            let op: Option<Operator> = match &self.tokens[self.index].kind {
                TokenKind::Star => Some(Operator::Multiply),
                TokenKind::Slash => Some(Operator::Divide),
                _ => None,
            };
            match op {
                Some(op) => {
                    self.index += 1;
                    match self.parse_factor() {
                        Ok(rhs) => self.parse_term_rest(
                            Expression::BinaryOperation(Box::new(lhs), op, Box::new(rhs)),
                        ),
                        Err(err) => Err(err),
                    }
                },
                None => Ok(lhs),
            }
        } else {
            Ok(lhs)
        }
    }

    fn parse_term(&mut self) -> (r: Result<Expression, ParserError>)
        requires
            old(self).wf(),
        ensures
            final(self).wf(),
            final(self).tokens == old(self).tokens,
            ({
                let m = spec_parse_term(old(self).toks(), old(self).index as int);
                match r {
                    Ok(e) => m is Some && m->0 == (expr_view(e), final(self).index as int)
                        && old(self).index < final(self).index,
                    Err(_) => m is None,
                }
            }),
        decreases self.tokens@.len() - self.index, 4int,
    {
        match self.parse_factor() {
            Ok(e) => self.parse_term_rest(e),
            Err(err) => Err(err),
        }
    }

    fn parse_expr_rest(&mut self, lhs: Expression) -> (r: Result<Expression, ParserError>)
        requires
            old(self).wf(),
        ensures
            final(self).wf(),
            final(self).tokens == old(self).tokens,
            ({
                let m = spec_parse_expr_rest(
                    old(self).toks(),
                    expr_view(lhs),
                    old(self).index as int,
                );
                match r {
                    Ok(e) => m is Some && m->0 == (expr_view(e), final(self).index as int)
                        && old(self).index <= final(self).index,
                    Err(_) => m is None,
                }
            }),
        decreases self.tokens@.len() - self.index, 5int,
    {
        if self.index < self.tokens.len() {
            let op: Option<Operator> = match &self.tokens[self.index].kind {
                TokenKind::Plus => Some(Operator::Add),
                TokenKind::Minus => Some(Operator::Subtract),
                _ => None,
            };
            match op {
                Some(op) => {
                    self.index += 1;
                    match self.parse_term() {
                        Ok(rhs) => self.parse_expr_rest(
                            Expression::BinaryOperation(Box::new(lhs), op, Box::new(rhs)),
                        ),
                        Err(err) => Err(err),
                    }
                },
                None => Ok(lhs),
            }
        } else {
            Ok(lhs)
        }
    }

    fn parse_expr(&mut self) -> (r: Result<Expression, ParserError>)
        requires
            old(self).wf(),
        ensures
            final(self).wf(),
            final(self).tokens == old(self).tokens,
            ({
                let m = spec_parse_expr(old(self).toks(), old(self).index as int);
                match r {
                    Ok(e) => m is Some && m->0 == (expr_view(e), final(self).index as int)
                        && old(self).index < final(self).index,
                    Err(_) => m is None,
                }
            }),
        decreases self.tokens@.len() - self.index, 6int,
    {
        match self.parse_term() {
            Ok(e) => self.parse_expr_rest(e),
            Err(err) => Err(err),
        }
    }

    fn parse_expr_stmt(&mut self) -> (r: Result<Statement, ParserError>)
        requires
            old(self).wf(),
        ensures
            final(self).wf(),
            final(self).tokens == old(self).tokens,
            ({
                let m = spec_parse_expr_stmt(old(self).toks(), old(self).index as int);
                match r {
                    Ok(s) => m is Some && m->0 == (stmt_view(s), final(self).index as int)
                        && old(self).index < final(self).index,
                    Err(_) => m is None,
                }
            }),
        decreases self.tokens@.len() - self.index, 9int,
    {
        match self.parse_expr() {
            Ok(e) => {
                if self.index < self.tokens.len() && matches!(
                    &self.tokens[self.index].kind,
                    TokenKind::Semicolon
                ) {
                    self.index += 1;
                    Ok(Statement::Expression(e))
                } else {
                    Err(ParserError::GenericError)
                }
            },
            Err(err) => Err(err),
        }
    }

    fn parse_return_stmt(&mut self) -> (r: Result<Statement, ParserError>)
        requires
            old(self).wf(),
            old(self).index < old(self).tokens@.len(),
            old(self).toks()[old(self).index as int].kind is Return,
        ensures
            final(self).wf(),
            final(self).tokens == old(self).tokens,
            ({
                let m = spec_parse_stmt(old(self).toks(), old(self).index as int);
                match r {
                    Ok(s) => m is Some && m->0 == (stmt_view(s), final(self).index as int)
                        && old(self).index < final(self).index,
                    Err(_) => m is None,
                }
            }),
        decreases self.tokens@.len() - self.index, 10int,
    {
        if self.index >= self.tokens.len() {
            return Err(ParserError::GenericError);
        }
        self.index += 1;
        match self.parse_expr() {
            Ok(e) => {
                if self.index < self.tokens.len() && matches!(
                    &self.tokens[self.index].kind,
                    TokenKind::Semicolon
                ) {
                    self.index += 1;
                    Ok(Statement::Return(e))
                } else {
                    Err(ParserError::GenericError)
                }
            },
            Err(err) => Err(err),
        }
    }

    fn parse_declare_stmt(&mut self) -> (r: Result<Statement, ParserError>)
        requires
            old(self).wf(),
            old(self).index < old(self).tokens@.len(),
            old(self).toks()[old(self).index as int].kind is IntType,
        ensures
            final(self).wf(),
            final(self).tokens == old(self).tokens,
            ({
                let m = spec_parse_stmt(old(self).toks(), old(self).index as int);
                match r {
                    Ok(s) => m is Some && m->0 == (stmt_view(s), final(self).index as int)
                        && old(self).index < final(self).index,
                    Err(_) => m is None,
                }
            }),
        decreases self.tokens@.len() - self.index, 10int,
    {
        if self.tokens.len() - self.index > 2 {
            let name: Option<String> = match &self.tokens[self.index + 1].kind {
                TokenKind::Identifier(n) => Some(n.clone()),
                _ => None,
            };
            match name {
                Some(name) => {
                    if matches!(&self.tokens[self.index + 2].kind, TokenKind::Equal) {
                        self.index += 3;
                        match self.parse_expr() {
                            Ok(e) => {
                                if self.index < self.tokens.len() && matches!(
                                    &self.tokens[self.index].kind,
                                    TokenKind::Semicolon
                                ) {
                                    self.index += 1;
                                    Ok(Statement::VariableDeclare(Type::Int, name, e))
                                } else {
                                    Err(ParserError::GenericError)
                                }
                            },
                            Err(err) => Err(err),
                        }
                    } else {
                        Err(ParserError::GenericError)
                    }
                },
                None => Err(ParserError::GenericError),
            }
        } else {
            Err(ParserError::GenericError)
        }
    }

    #[verifier::rlimit(100)]
    fn parse_if_stmt(&mut self) -> (r: Result<Statement, ParserError>)
        requires
            old(self).wf(),
            old(self).index < old(self).tokens@.len(),
            old(self).toks()[old(self).index as int].kind is If,
        ensures
            final(self).wf(),
            final(self).tokens == old(self).tokens,
            ({
                let m = spec_parse_stmt(old(self).toks(), old(self).index as int);
                match r {
                    Ok(s) => m is Some && m->0 == (stmt_view(s), final(self).index as int)
                        && old(self).index < final(self).index,
                    Err(_) => m is None,
                }
            }),
        decreases self.tokens@.len() - self.index, 10int,
    {
        let ghost toks = self.toks();
        let ghost i = self.index as int;
        if self.tokens.len() - self.index > 1 && matches!(
            &self.tokens[self.index + 1].kind,
            TokenKind::LeftParentheses
        ) {
            self.index += 2;
            match self.parse_expr() {
                Ok(cond) => {
                    let ghost j = self.index as int;
                    proof {
                        assert(spec_parse_expr(toks, i + 2) == Some((expr_view(cond), j)));
                    }
                    if self.index < self.tokens.len() && matches!(
                        &self.tokens[self.index].kind,
                        TokenKind::RightParentheses
                    ) {
                        self.index += 1;
                        match self.parse_stmt() {
                            Ok(then) => {
                                let ghost j2 = self.index as int;
                                proof {
                                    assert(spec_parse_stmt(toks, j + 1) == Some(
                                        (stmt_view(then), j2),
                                    ));
                                }
                                if self.index < self.tokens.len() && matches!(
                                    &self.tokens[self.index].kind,
                                    TokenKind::Else
                                ) {
                                    self.index += 1;
                                    match self.parse_stmt() {
                                        Ok(alt) => {
                                            let ghost j3 = self.index as int;
                                            proof {
                                                assert(spec_parse_stmt(toks, j2 + 1) == Some(
                                                    (stmt_view(alt), j3),
                                                ));
                                            }
                                            let ghost cond_v = expr_view(cond);
                                            let ghost then_v = stmt_view(then);
                                            let ghost alt_v = stmt_view(alt);
                                            let else_stmt = Statement::Else(Box::new(alt));
                                            proof {
                                                assert(stmt_view(else_stmt)
                                                    == StatementV::Else(Box::new(alt_v)));
                                            }
                                            let result = Statement::If(
                                                cond,
                                                Box::new(then),
                                                Some(Box::new(else_stmt)),
                                            );
                                            proof {
                                                assert(stmt_view(result) == StatementV::If(
                                                    cond_v,
                                                    Box::new(then_v),
                                                    Some(
                                                        Box::new(
                                                            StatementV::Else(Box::new(alt_v)),
                                                        ),
                                                    ),
                                                ));
                                                assert(spec_parse_stmt(toks, i) == Some(
                                                    (stmt_view(result), j3),
                                                ));
                                            }
                                            Ok(result)
                                        },
                                        Err(err) => Err(err),
                                    }
                                } else {
                                    let result = Statement::If(cond, Box::new(then), None);
                                    proof {
                                        assert(spec_parse_stmt(toks, i) == Some(
                                            (stmt_view(result), j2),
                                        ));
                                    }
                                    Ok(result)
                                }
                            },
                            Err(err) => Err(err),
                        }
                    } else {
                        Err(ParserError::GenericError)
                    }
                },
                Err(err) => Err(err),
            }
        } else {
            Err(ParserError::GenericError)
        }
    }

    fn parse_assign_or_expr_stmt(&mut self) -> (r: Result<Statement, ParserError>)
        requires
            old(self).wf(),
            old(self).index < old(self).tokens@.len(),
            old(self).toks()[old(self).index as int].kind is Identifier,
        ensures
            final(self).wf(),
            final(self).tokens == old(self).tokens,
            ({
                let m = spec_parse_stmt(old(self).toks(), old(self).index as int);
                match r {
                    Ok(s) => m is Some && m->0 == (stmt_view(s), final(self).index as int)
                        && old(self).index < final(self).index,
                    Err(_) => m is None,
                }
            }),
        decreases self.tokens@.len() - self.index, 10int,
    {
        if self.tokens.len() - self.index > 1 && matches!(
            &self.tokens[self.index + 1].kind,
            TokenKind::Equal
        ) {
            let n = match &self.tokens[self.index].kind {
                TokenKind::Identifier(name) => name.clone(),
                _ => String::new(),
            };
            self.index += 2;
            match self.parse_expr() {
                Ok(e) => {
                    if self.index < self.tokens.len() && matches!(
                        &self.tokens[self.index].kind,
                        TokenKind::Semicolon
                    ) {
                        self.index += 1;
                        Ok(Statement::VariableAssignment(n, e))
                    } else {
                        Err(ParserError::GenericError)
                    }
                },
                Err(err) => Err(err),
            }
        } else {
            self.parse_expr_stmt()
        }
    }

    fn parse_stmt(&mut self) -> (r: Result<Statement, ParserError>)
        requires
            old(self).wf(),
        ensures
            final(self).wf(),
            final(self).tokens == old(self).tokens,
            ({
                let m = spec_parse_stmt(old(self).toks(), old(self).index as int);
                match r {
                    Ok(s) => m is Some && m->0 == (stmt_view(s), final(self).index as int)
                        && old(self).index < final(self).index,
                    Err(_) => m is None,
                }
            }),
        decreases self.tokens@.len() - self.index, 11int,
    {
        if self.index >= self.tokens.len() {
            return Err(ParserError::GenericError);
        }
        match &self.tokens[self.index].kind {
            TokenKind::Return => self.parse_return_stmt(),
            TokenKind::IntType => self.parse_declare_stmt(),
            TokenKind::LeftBrace => {
                self.index += 1;
                self.parse_block_rest(Vec::new())
            },
            TokenKind::If => self.parse_if_stmt(),
            TokenKind::Identifier(_) => self.parse_assign_or_expr_stmt(),
            _ => self.parse_expr_stmt(),
        }
    }

    fn parse_block_rest(&mut self, stmts: Vec<Statement>) -> (r: Result<Statement, ParserError>)
        requires
            old(self).wf(),
        ensures
            final(self).wf(),
            final(self).tokens == old(self).tokens,
            ({
                let m = spec_parse_block_rest(
                    old(self).toks(),
                    stmts_view(stmts@),
                    old(self).index as int,
                );
                match r {
                    Ok(s) => m is Some && m->0 == (stmt_view(s), final(self).index as int)
                        && old(self).index < final(self).index,
                    Err(_) => m is None,
                }
            }),
        decreases self.tokens@.len() - self.index, 12int,
    {
        if self.index >= self.tokens.len() {
            return Err(ParserError::GenericError);
        }
        if matches!(&self.tokens[self.index].kind, TokenKind::RightBrace) {
            self.index += 1;
            return Ok(Statement::Block(stmts));
        }
        match self.parse_stmt() {
            Ok(s) => {
                let mut stmts2 = stmts;
                let ghost pre = stmts2@;
                proof {
                    lemma_stmts_view_push(pre, s);
                    assert(stmts_view(pre) + seq![stmt_view(s)] =~= stmts_view(pre).push(
                        stmt_view(s),
                    ));
                }
                stmts2.push(s);
                self.parse_block_rest(stmts2)
            },
            Err(err) => Err(err),
        }
    }

    #[verifier::rlimit(100)]
    fn parse_toplevel(&mut self) -> (r: Result<TopLevel, ParserError>)
        requires
            old(self).wf(),
        ensures
            final(self).wf(),
            final(self).tokens == old(self).tokens,
            ({
                let m = spec_parse_toplevel(old(self).toks(), old(self).index as int);
                match r {
                    Ok(t) => m is Some && m->0 == (toplevel_view(t), final(self).index as int)
                        && old(self).index < final(self).index,
                    Err(_) => m is None,
                }
            }),
        decreases self.tokens@.len() - self.index, 13int,
    {
        if self.index >= self.tokens.len() {
            return Err(ParserError::GenericError);
        }
        if matches!(&self.tokens[self.index].kind, TokenKind::Function) {
            if self.tokens.len() - self.index > 4 {
                let name: Option<String> = match &self.tokens[self.index + 1].kind {
                    TokenKind::Identifier(n) => Some(n.clone()),
                    _ => None,
                };
                match name {
                    Some(name) => {
                        if matches!(&self.tokens[self.index + 2].kind, TokenKind::LeftParentheses)
                            && matches!(
                            &self.tokens[self.index + 3].kind,
                            TokenKind::RightParentheses,
                        ) && matches!(&self.tokens[self.index + 4].kind, TokenKind::LeftBrace) {
                            self.index += 4;
                            match self.parse_stmt() {
                                Ok(body) => Ok(TopLevel::Function { name, body }),
                                Err(err) => Err(err),
                            }
                        } else {
                            Err(ParserError::GenericError)
                        }
                    },
                    None => Err(ParserError::GenericError),
                }
            } else {
                Err(ParserError::GenericError)
            }
        } else {
            match self.parse_stmt() {
                Ok(s) => Ok(TopLevel::Statement(s)),
                Err(err) => Err(err),
            }
        }
    }

    /// Parse the whole token sequence into top-level items. The result is
    /// exactly `spec_parse_program_rest` from the current cursor: every
    /// token is consumed, and any grammar mismatch fails the whole parse.
    pub fn parse_program(&mut self) -> (r: Result<Vec<TopLevel>, ParserError>)
        requires
            old(self).wf(),
        ensures
            final(self).wf(),
            final(self).tokens == old(self).tokens,
            ({
                let m = spec_parse_program_rest(
                    old(self).toks(),
                    Seq::empty(),
                    old(self).index as int,
                );
                match r {
                    Ok(ts) => m == Some(toplevels_view(ts@)),
                    Err(_) => m is None,
                }
            }),
    {
        let ghost toks = self.toks();
        let ghost i0 = self.index as int;
        let mut items: Vec<TopLevel> = Vec::new();
        proof {
            assert(toplevels_view(items@) =~= Seq::<TopLevelV>::empty());
        }
        loop
            invariant
                self.wf(),
                self.tokens == old(self).tokens,
                toks == self.toks(),
                i0 == old(self).index as int,
                spec_parse_program_rest(toks, toplevels_view(items@), self.index as int)
                    == spec_parse_program_rest(toks, Seq::empty(), i0),
            decreases self.tokens@.len() - self.index,
        {
            if self.index >= self.tokens.len() {
                return Ok(items);
            }
            match self.parse_toplevel() {
                Ok(t) => {
                    let ghost pre = items@;
                    items.push(t);
                    proof {
                        assert(toplevels_view(items@) =~= toplevels_view(pre).push(
                            toplevel_view(t),
                        ));
                    }
                },
                Err(err) => {
                    return Err(err);
                },
            }
        }
    }
}

} // verus!

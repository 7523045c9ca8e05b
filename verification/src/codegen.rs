//! Code generation: abstract syntax tree to textual x86-64 assembly.
//!
//! The output is NASM-syntax text. A fixed preamble defines `_start`,
//! which calls a function labelled `entry`, moves its return value into
//! the exit system call's argument register and exits: the `entry`
//! function's return value becomes the process exit code. Each function
//! becomes its label followed by the code of the statements of its body
//! in order; a bare top-level statement is emitted inline without a
//! label.
//!
//! Expressions evaluate into the accumulator `rax` with `rbx` as
//! scratch, on a stack discipline: a binary operation evaluates its left
//! operand, pushes it, evaluates its right operand, pops the saved value
//! into `rbx` and combines. This generalises to arbitrarily nested
//! expressions without a register allocator, at the cost of extra push
//! and pop instructions. The only statement form the generator accepts
//! is `return`; everything else is a generic error, as is any expression
//! form other than literals, unary negation and binary arithmetic.
//!
//! The whole translation is specified by `spec_codegen`, a mathematical
//! function from the syntax tree to the exact text, so equal trees give
//! byte-identical output.

use vstd::prelude::*;
use crate::token::chars_to_string;
use crate::parser::{
    expr_view, stmt_view, stmts_view, toplevels_view, Expression, ExpressionV, Operator,
    Statement, StatementV, TopLevel, TopLevelV,
};

verus! {

/// Errors of the code generator: any unsupported node is the one
/// generic error.
#[derive(Debug, Clone, PartialEq, Eq, Structural)]
pub enum CodegenError {
    GenericError,
}

/// The digit character for `d`.
pub open spec fn digit_char(d: int) -> char {
    if d == 0 {
        '0'
    } else if d == 1 {
        '1'
    } else if d == 2 {
        '2'
    } else if d == 3 {
        '3'
    } else if d == 4 {
        '4'
    } else if d == 5 {
        '5'
    } else if d == 6 {
        '6'
    } else if d == 7 {
        '7'
    } else if d == 8 {
        '8'
    } else {
        '9'
    }
}

/// The decimal digits of a non-negative integer, most significant first.
pub open spec fn dec_digits(n: int) -> Seq<char>
    decreases n,
{
    if n < 0 {
        Seq::empty()
    } else if n < 10 {
        seq![digit_char(n)]
    } else {
        dec_digits(n / 10).push(digit_char(n % 10))
    }
}

/// The decimal rendering of an integer, with a leading minus sign when
/// negative.
pub open spec fn dec_str(v: int) -> Seq<char> {
    if v < 0 {
        seq!['-'] + dec_digits(-v)
    } else {
        dec_digits(v)
    }
}

/// The fixed process-entry preamble of every generated program.
pub open spec fn asm_preamble() -> Seq<char> {
    "global _start\n_start:\n\tcall entry\n\tmov rdi, rax\n\tmov rax, 60\n\tsyscall\n\n"@
}

/// The instructions that combine the popped left operand in `rbx` with
/// the right operand in `rax`, leaving the result in `rax`.
pub open spec fn op_code(op: Operator) -> Seq<char> {
    match op {
        Operator::Add => "    add rbx, rax\n"@ + "    mov rax, rbx\n"@,
        Operator::Subtract => "    sub rbx, rax\n"@ + "    mov rax, rbx\n"@,
        Operator::Multiply => "    imul rbx, rax\n"@ + "    mov rax, rbx\n"@,
        Operator::Divide => "    xchg rax, rbx\n"@ + "    xor rdx, rdx\n"@ + "    idiv rbx\n"@,
    }
}

/// The code of an expression, or nothing for an unsupported form.
pub open spec fn spec_gen_expr(e: ExpressionV) -> Option<Seq<char>>
    decreases e,
{
    match e {
        ExpressionV::IntLiteral(v) => Some("    mov rax, "@ + dec_str(v as int) + "\n"@),
        ExpressionV::UnaryOperation(_, inner) => match spec_gen_expr(*inner) {
            Some(s) => Some(s + "    neg rax\n"@),
            None => None,
        },
        ExpressionV::BinaryOperation(l, op, r) => match spec_gen_expr(*l) {
            Some(ls) => match spec_gen_expr(*r) {
                Some(rs) => Some(
                    ls + "    push rax\n"@ + rs + "    pop rbx\n"@ + op_code(op),
                ),
                None => None,
            },
            None => None,
        },
        _ => None,
    }
}

/// The code of a statement: only `return` is supported.
pub open spec fn spec_gen_stmt(s: StatementV) -> Option<Seq<char>> {
    match s {
        StatementV::Return(e) => match spec_gen_expr(e) {
            Some(cs) => Some(cs + "    ret\n"@),
            None => None,
        },
        _ => None,
    }
}

/// The concatenated code of the statements from `i` on.
pub open spec fn spec_gen_stmts(ss: Seq<StatementV>, i: int) -> Option<Seq<char>>
    decreases ss.len() - i,
{
    if i < 0 || i >= ss.len() {
        Some(Seq::empty())
    } else {
        match spec_gen_stmt(ss[i]) {
            Some(h) => match spec_gen_stmts(ss, i + 1) {
                Some(t) => Some(h + t),
                None => None,
            },
            None => None,
        }
    }
}

/// The code of a function body: the statements of a block in order, or
/// the single statement itself.
pub open spec fn spec_gen_body(body: StatementV) -> Option<Seq<char>> {
    match body {
        StatementV::Block(ss) => spec_gen_stmts(ss, 0),
        _ => spec_gen_stmt(body),
    }
}

/// The code of a top-level item: a label and the body for a function, or
/// the bare statement inline.
pub open spec fn spec_gen_toplevel(t: TopLevelV) -> Option<Seq<char>> {
    match t {
        TopLevelV::Function { name, body } => match spec_gen_body(body) {
            Some(cs) => Some(name + ":\n"@ + cs),
            None => None,
        },
        TopLevelV::Statement(s) => spec_gen_stmt(s),
    }
}

/// The concatenated code of the top-level items from `i` on.
pub open spec fn spec_gen_toplevels(ts: Seq<TopLevelV>, i: int) -> Option<Seq<char>>
    decreases ts.len() - i,
{
    if i < 0 || i >= ts.len() {
        Some(Seq::empty())
    } else {
        match spec_gen_toplevel(ts[i]) {
            Some(h) => match spec_gen_toplevels(ts, i + 1) {
                Some(t) => Some(h + t),
                None => None,
            },
            None => None,
        }
    }
}

/// The whole program's assembly text: the preamble then each top-level
/// item in order.
pub open spec fn spec_codegen(p: Seq<TopLevelV>) -> Option<Seq<char>> {
    match spec_gen_toplevels(p, 0) {
        Some(cs) => Some(asm_preamble() + cs),
        None => None,
    }
}

fn exec_digit_char(d: u64) -> (c: char)
    requires
        d < 10,
    ensures
        c == digit_char(d as int),
{
    if d == 0 {
        '0'
    } else if d == 1 {
        '1'
    } else if d == 2 {
        '2'
    } else if d == 3 {
        '3'
    } else if d == 4 {
        '4'
    } else if d == 5 {
        '5'
    } else if d == 6 {
        '6'
    } else if d == 7 {
        '7'
    } else if d == 8 {
        '8'
    } else {
        '9'
    }
}

fn push_dec_digits(n: u64, out: &mut Vec<char>)
    ensures
        final(out)@ == old(out)@ + dec_digits(n as int),
    decreases n,
{
    if n < 10 {
        out.push(exec_digit_char(n));
        proof {
            assert(final(out)@ =~= old(out)@ + dec_digits(n as int));
        }
    } else {
        push_dec_digits(n / 10, out);
        out.push(exec_digit_char(n % 10));
        proof {
            assert((old(out)@ + dec_digits(n as int / 10)).push(digit_char(n as int % 10)) =~= old(
                out,
            )@ + dec_digits(n as int / 10).push(digit_char(n as int % 10)));
        }
    }
}

/// The decimal rendering of `v`.
fn i64_to_string(v: i64) -> (s: String)
    ensures
        s@ == dec_str(v as int),
{
    let mut out: Vec<char> = Vec::new();
    if v < 0 {
        out.push('-');
        let m: u64 = (-(v as i128)) as u64;
        push_dec_digits(m, &mut out);
        proof {
            assert(out@ =~= seq!['-'] + dec_digits(m as int));
        }
    } else {
        push_dec_digits(v as u64, &mut out);
        proof {
            assert(out@ =~= dec_digits(v as int));
        }
    }
    chars_to_string(&out)
}

/// The code of one expression, evaluated into `rax` with `rbx` as
/// scratch; exactly `spec_gen_expr` of its view.
fn codegen_expression(expression: &Expression) -> (r: Result<String, CodegenError>)
    ensures
        ({
            let m = spec_gen_expr(expr_view(*expression));
            match r {
                Ok(s) => m == Some(s@),
                Err(_) => m is None,
            }
        }),
    decreases *expression,
{
    match expression {
        Expression::IntLiteral(v) => {
            let mut out = String::new();
            out.append("    mov rax, ");
            let num = i64_to_string(*v);
            out.append(num.as_str());
            out.append("\n");
            Ok(out)
        },
        Expression::UnaryOperation(_, inner) => match codegen_expression(inner) {
            Ok(mut s) => {
                s.append("    neg rax\n");
                Ok(s)
            },
            Err(err) => Err(err),
        },
        Expression::BinaryOperation(lhs, op, rhs) => {
            let mut out = String::new();
            match codegen_expression(lhs) {
                Ok(l) => {
                    out.append(l.as_str());
                    out.append("    push rax\n");
                },
                Err(err) => {
                    return Err(err);
                },
            }
            match codegen_expression(rhs) {
                Ok(rcode) => {
                    out.append(rcode.as_str());
                    out.append("    pop rbx\n");
                },
                Err(err) => {
                    return Err(err);
                },
            }
            match op {
                Operator::Add => {
                    out.append("    add rbx, rax\n");
                    out.append("    mov rax, rbx\n");
                },
                Operator::Subtract => {
                    out.append("    sub rbx, rax\n");
                    out.append("    mov rax, rbx\n");
                },
                Operator::Multiply => {
                    out.append("    imul rbx, rax\n");
                    out.append("    mov rax, rbx\n");
                },
                Operator::Divide => {
                    out.append("    xchg rax, rbx\n");
                    out.append("    xor rdx, rdx\n");
                    out.append("    idiv rbx\n");
                },
            }
            Ok(out)
        },
        _ => Err(CodegenError::GenericError),
    }
}

/// The code of one statement; exactly `spec_gen_stmt` of its view.
fn codegen_statement(statement: &Statement) -> (r: Result<String, CodegenError>)
    ensures
        ({
            let m = spec_gen_stmt(stmt_view(*statement));
            match r {
                Ok(s) => m == Some(s@),
                Err(_) => m is None,
            }
        }),
{
    match statement {
        Statement::Return(e) => match codegen_expression(e) {
            Ok(mut s) => {
                s.append("    ret\n");
                Ok(s)
            },
            Err(err) => Err(err),
        },
        _ => Err(CodegenError::GenericError),
    }
}

proof fn lemma_stmts_view_len(ss: Seq<Statement>)
    ensures
        stmts_view(ss).len() == ss.len(),
    decreases ss,
{
    if ss.len() > 0 {
        lemma_stmts_view_len(ss.subrange(1, ss.len() as int));
    }
}

proof fn lemma_stmts_view_index(ss: Seq<Statement>, k: int)
    requires
        0 <= k < ss.len(),
    ensures
        stmts_view(ss).len() == ss.len(),
        stmts_view(ss)[k] == stmt_view(ss[k]),
    decreases ss,
{
    lemma_stmts_view_len(ss);
    if k > 0 {
        lemma_stmts_view_index(ss.subrange(1, ss.len() as int), k - 1);
    }
}

/// The code of a function body; exactly `spec_gen_body` of its view.
fn codegen_body(body: &Statement) -> (r: Result<String, CodegenError>)
    ensures
        ({
            let m = spec_gen_body(stmt_view(*body));
            match r {
                Ok(s) => m == Some(s@),
                Err(_) => m is None,
            }
        }),
{
    match body {
        Statement::Block(ss) => {
            let ghost sv = stmts_view(ss@);
            proof {
                lemma_stmts_view_len(ss@);
            }
            let mut out = String::new();
            let mut k: usize = 0;
            proof {
                assert(Seq::<char>::empty() + spec_gen_stmts(sv, 0)->0 =~= spec_gen_stmts(
                    sv,
                    0,
                )->0);
            }
            while k < ss.len()
                invariant
                    k <= ss.len(),
                    sv == stmts_view(ss@),
                    sv.len() == ss@.len(),
                    stmt_view(*body) == StatementV::Block(sv),
                    (match spec_gen_stmts(sv, k as int) {
                        Some(rest) => spec_gen_stmts(sv, 0) == Some(out@ + rest),
                        None => spec_gen_stmts(sv, 0) is None,
                    }),
                decreases ss.len() - k,
            {
                proof {
                    lemma_stmts_view_index(ss@, k as int);
                }
                match codegen_statement(&ss[k]) {
                    Ok(code) => {
                        proof {
                            let h = spec_gen_stmt(sv[k as int])->0;
                            if spec_gen_stmts(sv, k + 1 as int) is Some {
                                let t = spec_gen_stmts(sv, k + 1 as int)->0;
                                assert(out@ + (h + t) =~= (out@ + h) + t);
                            }
                        }
                        out.append(code.as_str());
                    },
                    Err(err) => {
                        return Err(err);
                    },
                }
                k += 1;
            }
            proof {
                assert(out@ + Seq::<char>::empty() =~= out@);
            }
            Ok(out)
        },
        _ => codegen_statement(body),
    }
}

/// The whole program's assembly text: the fixed `_start` preamble that
/// calls `entry` and exits with its return value, then the code of each
/// top-level item in order. The result is exactly `spec_codegen` of the
/// program's view, so it is a function of the syntax tree alone.
pub fn codegen(program: &Vec<TopLevel>) -> (r: Result<String, CodegenError>)
    ensures
        ({
            let m = spec_codegen(toplevels_view(program@));
            match r {
                Ok(s) => m == Some(s@),
                Err(_) => m is None,
            }
        }),
{
    let ghost tv = toplevels_view(program@);
    let mut output = String::new();
    output.append("global _start\n_start:\n\tcall entry\n\tmov rdi, rax\n\tmov rax, 60\n\tsyscall\n\n");
    let mut idx: usize = 0;
    proof {
        assert(asm_preamble() + spec_gen_toplevels(tv, 0)->0 =~= output@ + spec_gen_toplevels(
            tv,
            0,
        )->0);
    }
    while idx < program.len()
        invariant
            idx <= program.len(),
            tv == toplevels_view(program@),
            tv.len() == program@.len(),
            (match spec_gen_toplevels(tv, idx as int) {
                Some(rest) => spec_codegen(tv) == Some(output@ + rest),
                None => spec_codegen(tv) is None,
            }),
        decreases program.len() - idx,
    {
        let ghost pre = output@;
        match &program[idx] {
            TopLevel::Function { name, body } => match codegen_body(body) {
                Ok(code) => {
                    output.append(name.as_str());
                    output.append(":\n");
                    output.append(code.as_str());
                    proof {
                        let h = spec_gen_toplevel(tv[idx as int])->0;
                        assert(h == name@ + ":\n"@ + code@);
                        assert(output@ =~= pre + h);
                        if spec_gen_toplevels(tv, idx + 1 as int) is Some {
                            let t = spec_gen_toplevels(tv, idx + 1 as int)->0;
                            assert(pre + (h + t) =~= (pre + h) + t);
                        }
                    }
                },
                Err(err) => {
                    return Err(err);
                },
            },
            TopLevel::Statement(s) => match codegen_statement(s) {
                Ok(code) => {
                    output.append(code.as_str());
                    proof {
                        let h = spec_gen_toplevel(tv[idx as int])->0;
                        if spec_gen_toplevels(tv, idx + 1 as int) is Some {
                            let t = spec_gen_toplevels(tv, idx + 1 as int)->0;
                            assert(pre + (h + t) =~= (pre + h) + t);
                        }
                    }
                },
                Err(err) => {
                    return Err(err);
                },
            },
        }
        idx += 1;
    }
    proof {
        assert(output@ + Seq::<char>::empty() =~= output@);
    }
    Ok(output)
}

/// The generated text is a function of the syntax tree alone: two runs
/// of code generation on equal trees give byte-identical assembly.
pub proof fn lemma_codegen_deterministic(
    p1: Seq<TopLevelV>,
    p2: Seq<TopLevelV>,
    r1: Option<Seq<char>>,
    r2: Option<Seq<char>>,
)
    requires
        p1 == p2,
        r1 == spec_codegen(p1),
        r2 == spec_codegen(p2),
    ensures
        r1 == r2,
{
}

} // verus!

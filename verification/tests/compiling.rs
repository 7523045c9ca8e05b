use minicc::codegen::{codegen, CodegenError};
use minicc::lexer::Lexer;
use minicc::parser::{Expression, Operator, Parser, Statement, TopLevel, Type};
use minicc::semantic_analyzer::{validate, SemanticError};

fn parse(source: &str) -> Result<Vec<TopLevel>, minicc::parser::ParserError> {
    let mut lexer = Lexer::from(String::from(source));
    let tokens = lexer.tokenize().unwrap();
    let mut parser = Parser { tokens, index: 0 };
    parser.parse_program()
}

const PREAMBLE: &str =
    "global _start\n_start:\n\tcall entry\n\tmov rdi, rax\n\tmov rax, 60\n\tsyscall\n\n";

#[test]
fn multiplication_binds_tighter_than_addition() {
    let program = parse("function entry() { return 1 + 2 * 3; }").unwrap();
    let expected = vec![TopLevel::Function {
        name: String::from("entry"),
        body: Statement::Block(vec![Statement::Return(Expression::BinaryOperation(
            Box::new(Expression::IntLiteral(1)),
            Operator::Add,
            Box::new(Expression::BinaryOperation(
                Box::new(Expression::IntLiteral(2)),
                Operator::Multiply,
                Box::new(Expression::IntLiteral(3)),
            )),
        ))]),
    }];
    assert_eq!(program, expected);
}

#[test]
fn addition_is_left_associative() {
    let program = parse("return 1 - 2 - 3;").unwrap();
    let expected = vec![TopLevel::Statement(Statement::Return(
        Expression::BinaryOperation(
            Box::new(Expression::BinaryOperation(
                Box::new(Expression::IntLiteral(1)),
                Operator::Subtract,
                Box::new(Expression::IntLiteral(2)),
            )),
            Operator::Subtract,
            Box::new(Expression::IntLiteral(3)),
        ),
    ))];
    assert_eq!(program, expected);
}

#[test]
fn parentheses_override_precedence() {
    let program = parse("return (1 + 2) * 3;").unwrap();
    let expected = vec![TopLevel::Statement(Statement::Return(
        Expression::BinaryOperation(
            Box::new(Expression::BinaryOperation(
                Box::new(Expression::IntLiteral(1)),
                Operator::Add,
                Box::new(Expression::IntLiteral(2)),
            )),
            Operator::Multiply,
            Box::new(Expression::IntLiteral(3)),
        ),
    ))];
    assert_eq!(program, expected);
}

#[test]
fn unary_minus_parses() {
    let program = parse("return -5;").unwrap();
    let expected = vec![TopLevel::Statement(Statement::Return(
        Expression::UnaryOperation(Operator::Subtract, Box::new(Expression::IntLiteral(5))),
    ))];
    assert_eq!(program, expected);
}

#[test]
fn declaration_assignment_and_if_parse() {
    let program = parse("int x = 1; x = x + 1; if (x) { return x; } else { return 0; }").unwrap();
    assert_eq!(program.len(), 3);
    assert_eq!(
        program[0],
        TopLevel::Statement(Statement::VariableDeclare(
            Type::Int,
            String::from("x"),
            Expression::IntLiteral(1),
        ))
    );
    assert_eq!(
        program[1],
        TopLevel::Statement(Statement::VariableAssignment(
            String::from("x"),
            Expression::BinaryOperation(
                Box::new(Expression::Variable(String::from("x"))),
                Operator::Add,
                Box::new(Expression::IntLiteral(1)),
            ),
        ))
    );
    match &program[2] {
        TopLevel::Statement(Statement::If(cond, then, alt)) => {
            assert_eq!(*cond, Expression::Variable(String::from("x")));
            assert!(matches!(**then, Statement::Block(_)));
            match alt {
                Some(e) => assert!(matches!(**e, Statement::Else(_))),
                None => panic!("missing else arm"),
            }
        }
        other => panic!("unexpected item: {:?}", other),
    }
}

#[test]
fn function_call_parses() {
    let program = parse("f(1, 2);").unwrap();
    let expected = vec![TopLevel::Statement(Statement::Expression(
        Expression::FunctionCall(
            Box::new(Expression::Variable(String::from("f"))),
            vec![Expression::IntLiteral(1), Expression::IntLiteral(2)],
        ),
    ))];
    assert_eq!(program, expected);
}

#[test]
fn missing_semicolon_fails_parse() {
    assert!(parse("return 1").is_err());
}

#[test]
fn unmatched_brace_fails_parse() {
    assert!(parse("function entry() { return 1;").is_err());
}

#[test]
fn stray_operator_fails_parse() {
    assert!(parse("return * 2;").is_err());
}

#[test]
fn codegen_return_five() {
    let program = parse("function entry() { return 5; }").unwrap();
    let text = codegen(&program).unwrap();
    let expected = format!("{}entry:\n    mov rax, 5\n    ret\n", PREAMBLE);
    assert_eq!(text, expected);
}

#[test]
fn codegen_stack_evaluation() {
    let program = parse("function entry() { return (3 - 1) * 4; }").unwrap();
    let text = codegen(&program).unwrap();
    let body = [
        "    mov rax, 3\n",
        "    push rax\n",
        "    mov rax, 1\n",
        "    pop rbx\n",
        "    sub rbx, rax\n",
        "    mov rax, rbx\n",
        "    push rax\n",
        "    mov rax, 4\n",
        "    pop rbx\n",
        "    imul rbx, rax\n",
        "    mov rax, rbx\n",
        "    ret\n",
    ]
    .join("");
    let expected = format!("{}entry:\n{}", PREAMBLE, body);
    assert_eq!(text, expected);
}

#[test]
fn codegen_division_and_negation() {
    let program = parse("return -6 / 2;").unwrap();
    let text = codegen(&program).unwrap();
    let body = [
        "    mov rax, 6\n",
        "    neg rax\n",
        "    push rax\n",
        "    mov rax, 2\n",
        "    pop rbx\n",
        "    xchg rax, rbx\n",
        "    xor rdx, rdx\n",
        "    idiv rbx\n",
        "    ret\n",
    ]
    .join("");
    let expected = format!("{}{}", PREAMBLE, body);
    assert_eq!(text, expected);
}

#[test]
fn codegen_negative_literal() {
    let program = vec![TopLevel::Statement(Statement::Return(
        Expression::IntLiteral(-12),
    ))];
    let text = codegen(&program).unwrap();
    let expected = format!("{}    mov rax, -12\n    ret\n", PREAMBLE);
    assert_eq!(text, expected);
}

#[test]
fn codegen_is_idempotent() {
    let program = parse("function entry() { return 1 + 2 * 3; }").unwrap();
    let first = codegen(&program).unwrap();
    let second = codegen(&program).unwrap();
    assert_eq!(first, second);
}

#[test]
fn codegen_rejects_unsupported_statement() {
    let program = parse("if (1) { return 1; }").unwrap();
    assert_eq!(codegen(&program), Err(CodegenError::GenericError));
}

#[test]
fn codegen_rejects_variable_expression() {
    let program = parse("return x;").unwrap();
    assert_eq!(codegen(&program), Err(CodegenError::GenericError));
}

#[test]
fn validate_accepts_entry() {
    let program = parse("function entry() { return 0; }").unwrap();
    assert_eq!(validate(&program), Ok(()));
}

#[test]
fn validate_requires_entry() {
    let program = parse("function other() { return 0; }").unwrap();
    assert_eq!(validate(&program), Err(SemanticError::NoEntryFunction));
}

#[test]
fn validate_reserves_main() {
    let program = parse("function entry() { return 0; } function main() { return 0; }").unwrap();
    assert_eq!(validate(&program), Err(SemanticError::MainIsReserved));
}

#[test]
fn empty_argument_list_parses() {
    let program = parse("f();").unwrap();
    let expected = vec![TopLevel::Statement(Statement::Expression(
        Expression::FunctionCall(
            Box::new(Expression::Variable(String::from("f"))),
            vec![],
        ),
    ))];
    assert_eq!(program, expected);
}

#[test]
fn chained_call_suffixes_parse() {
    let program = parse("f(1)(2);").unwrap();
    let expected = vec![TopLevel::Statement(Statement::Expression(
        Expression::FunctionCall(
            Box::new(Expression::FunctionCall(
                Box::new(Expression::Variable(String::from("f"))),
                vec![Expression::IntLiteral(1)],
            )),
            vec![Expression::IntLiteral(2)],
        ),
    ))];
    assert_eq!(program, expected);
}

#[test]
fn codegen_multiple_statements_in_body() {
    let program = parse("function entry() { return 67; return 0; }").unwrap();
    let text = codegen(&program).unwrap();
    let body = [
        "    mov rax, 67\n",
        "    ret\n",
        "    mov rax, 0\n",
        "    ret\n",
    ]
    .join("");
    let expected = format!("{}entry:\n{}", PREAMBLE, body);
    assert_eq!(text, expected);
}

#[test]
fn validate_ignores_bare_statements() {
    let program = parse("return 0;").unwrap();
    assert_eq!(validate(&program), Err(SemanticError::NoEntryFunction));
}

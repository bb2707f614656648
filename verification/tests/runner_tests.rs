use kiln::lexer::Lexer;
use kiln::token::Token;
use kiln::ast::{BinOp, Expr, Stmt};
use kiln::codegen::{lower_type, select_instruction, CodegenError, Instruction, IntPredicate, LlvmType, ValueKind};
use kiln::ast::Type;
use kiln::interpreter::{decimal_string, Interpreter};

fn bin(op: BinOp, l: Expr, r: Expr) -> Expr {
    Expr::BinaryOp { op, lhs: Box::new(l), rhs: Box::new(r) }
}

#[test]
fn renders_expression_statements() {
    let e = bin(BinOp::Add, Expr::IntLit(1), bin(BinOp::Mul, Expr::Identifier("x".to_string()), Expr::IntLit(-3)));
    assert_eq!(Interpreter::eval(&e), Some("(1 + (x * -3))".to_string()));
    assert_eq!(Interpreter::execute(&Stmt::ExprStmt(e)), Some("(1 + (x * -3))".to_string()));
    assert_eq!(
        Interpreter::eval(&bin(BinOp::And, Expr::Identifier("a".to_string()), Expr::Identifier("b".to_string()))),
        Some("(a and b)".to_string())
    );
}

#[test]
fn other_forms_have_no_rendering() {
    assert_eq!(Interpreter::eval(&Expr::BoolLit(true)), None);
    assert_eq!(Interpreter::eval(&bin(BinOp::Add, Expr::IntLit(1), Expr::BoolLit(true))), None);
    assert_eq!(Interpreter::execute(&Stmt::Break), None);
}

#[test]
fn decimal_text() {
    assert_eq!(decimal_string(0), "0");
    assert_eq!(decimal_string(7), "7");
    assert_eq!(decimal_string(1234567890), "1234567890");
    assert_eq!(decimal_string(-45), "-45");
    assert_eq!(decimal_string(i64::MAX), i64::MAX.to_string());
    assert_eq!(decimal_string(i64::MIN), i64::MIN.to_string());
}

#[test]
fn type_lowering() {
    assert_eq!(lower_type(&Type::Int), LlvmType::I64);
    assert_eq!(lower_type(&Type::Float), LlvmType::F64);
    assert_eq!(lower_type(&Type::Bool), LlvmType::I1);
    assert_eq!(lower_type(&Type::Byte), LlvmType::I8);
    assert_eq!(lower_type(&Type::Ptr), LlvmType::I8Ptr);
    assert_eq!(lower_type(&Type::StringType), LlvmType::I8Ptr);
    assert_eq!(
        lower_type(&Type::Array(Box::new(Type::Int), 10)),
        LlvmType::Array(Box::new(LlvmType::I64), 10)
    );
    assert_eq!(
        lower_type(&Type::Array2D(Box::new(Type::Byte), 3, 4)),
        LlvmType::Array(Box::new(LlvmType::Array(Box::new(LlvmType::I8), 4)), 3)
    );
}

#[test]
fn instruction_selection() {
    assert_eq!(select_instruction(BinOp::Add, ValueKind::Int, ValueKind::Int), Ok(Instruction::IntAdd));
    assert_eq!(select_instruction(BinOp::Div, ValueKind::Int, ValueKind::Int), Ok(Instruction::IntSignedDiv));
    assert_eq!(select_instruction(BinOp::Mod, ValueKind::Int, ValueKind::Int), Ok(Instruction::IntSignedRem));
    assert_eq!(
        select_instruction(BinOp::LtEq, ValueKind::Int, ValueKind::Int),
        Ok(Instruction::IntCompare(IntPredicate::SLE))
    );
    assert_eq!(select_instruction(BinOp::Or, ValueKind::Int, ValueKind::Int), Ok(Instruction::Or));
    assert_eq!(select_instruction(BinOp::Mul, ValueKind::Float, ValueKind::Float), Ok(Instruction::FloatMul));
    assert_eq!(
        select_instruction(BinOp::Lt, ValueKind::Float, ValueKind::Float),
        Err(CodegenError::UnsupportedFloatOperator)
    );
    assert_eq!(select_instruction(BinOp::Add, ValueKind::Int, ValueKind::Float), Err(CodegenError::TypeMismatch));
    assert_eq!(select_instruction(BinOp::Add, ValueKind::Other, ValueKind::Other), Err(CodegenError::TypeMismatch));
}

#[test]
fn printed_integers_lex_back() {
    for n in [0i64, 9, 10, 255, 1_000_000, i64::MAX] {
        let text = decimal_string(n);
        assert_eq!(Lexer::new(&text).tokenize(), vec![Token::Int(n), Token::Eof]);
    }
}

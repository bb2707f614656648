use kiln::ast::{BinOp, Expr, FuncDef, Param, Stmt, StructDef, TopLevel, Type, UnaryOp, UseDecl};
use kiln::lexer::Lexer;
use kiln::parser::{ParseError, Parser};
use kiln::token::Token;

fn parse(src: &str) -> Result<Vec<TopLevel>, ParseError> {
    let tokens = Lexer::new(src).tokenize();
    Parser::new(tokens).parse_program()
}

fn main_body(src: &str) -> Vec<Stmt> {
    let mut items = parse(src).expect("parses");
    assert_eq!(items.len(), 1);
    match items.remove(0) {
        TopLevel::Main(body) => body,
        other => panic!("not a main block: {:?}", other),
    }
}

fn expr_of(src: &str) -> Expr {
    let mut body = main_body(&format!("main then {}; end", src));
    assert_eq!(body.len(), 1);
    match body.remove(0) {
        Stmt::ExprStmt(e) => e,
        other => panic!("not an expression statement: {:?}", other),
    }
}

fn id(s: &str) -> Expr {
    Expr::Identifier(s.to_string())
}

fn lit(n: i64) -> Expr {
    Expr::IntLit(n)
}

fn bin(op: BinOp, l: Expr, r: Expr) -> Expr {
    Expr::BinaryOp { op, lhs: Box::new(l), rhs: Box::new(r) }
}

#[test]
fn entry_block() {
    assert_eq!(main_body("main then\n    return 0;\nend"), vec![Stmt::Return(Some(lit(0)))]);
}

#[test]
fn empty_program() {
    assert_eq!(parse(""), Ok(vec![]));
    assert_eq!(parse(";;;"), Ok(vec![]));
}

#[test]
fn multiplication_binds_tighter_than_addition() {
    assert_eq!(expr_of("1 + 2 * 3"), bin(BinOp::Add, lit(1), bin(BinOp::Mul, lit(2), lit(3))));
    assert_eq!(expr_of("1 * 2 + 3"), bin(BinOp::Add, bin(BinOp::Mul, lit(1), lit(2)), lit(3)));
}

#[test]
fn equal_precedence_associates_left() {
    assert_eq!(expr_of("a - b - c"), bin(BinOp::Sub, bin(BinOp::Sub, id("a"), id("b")), id("c")));
    assert_eq!(expr_of("a / b % c"), bin(BinOp::Mod, bin(BinOp::Div, id("a"), id("b")), id("c")));
}

#[test]
fn precedence_ladder() {
    // or < and < equality < comparison < additive < multiplicative
    assert_eq!(
        expr_of("a or b and c == d < e + f * g"),
        bin(
            BinOp::Or,
            id("a"),
            bin(
                BinOp::And,
                id("b"),
                bin(
                    BinOp::Eq,
                    id("c"),
                    bin(BinOp::Lt, id("d"), bin(BinOp::Add, id("e"), bin(BinOp::Mul, id("f"), id("g")))),
                ),
            ),
        )
    );
}

#[test]
fn mixed_chain() {
    assert_eq!(
        expr_of("a + b * c - d"),
        bin(BinOp::Sub, bin(BinOp::Add, id("a"), bin(BinOp::Mul, id("b"), id("c"))), id("d"))
    );
}

#[test]
fn parentheses_and_unary_operators() {
    assert_eq!(expr_of("(1 + 2) * 3"), bin(BinOp::Mul, bin(BinOp::Add, lit(1), lit(2)), lit(3)));
    assert_eq!(
        expr_of("not -x"),
        Expr::UnaryOp {
            op: UnaryOp::Not,
            expr: Box::new(Expr::UnaryOp { op: UnaryOp::Neg, expr: Box::new(id("x")) }),
        }
    );
    assert_eq!(
        expr_of("-a * b"),
        bin(BinOp::Mul, Expr::UnaryOp { op: UnaryOp::Neg, expr: Box::new(id("a")) }, id("b"))
    );
}

#[test]
fn literals() {
    assert_eq!(expr_of("true"), Expr::BoolLit(true));
    assert_eq!(expr_of("2.5"), Expr::FloatLit("2.5".to_string()));
    assert_eq!(expr_of("\"hi\""), Expr::StringLit("hi".to_string()));
}

#[test]
fn calls_fields_and_methods() {
    assert_eq!(
        expr_of("add(1, 2)"),
        Expr::Call { callee: "add".to_string(), args: vec![lit(1), lit(2)] }
    );
    assert_eq!(expr_of("die()"), Expr::Call { callee: "die".to_string(), args: vec![] });
    assert_eq!(
        expr_of("console.print(\"Hello from Kiln!\\n\")"),
        Expr::Call {
            callee: "console.print".to_string(),
            args: vec![Expr::StringLit("Hello from Kiln!\\n".to_string())],
        }
    );
    assert_eq!(
        expr_of("player.health"),
        Expr::FieldAccess { object: Box::new(id("player")), field: "health".to_string() }
    );
}

#[test]
fn variable_declarations() {
    assert_eq!(
        main_body("main then let health:int = 100; let stamina: int = 50; let x = 5; let y; end"),
        vec![
            Stmt::Let { name: "health".to_string(), ty: Some(Type::Int), value: Some(lit(100)) },
            Stmt::Let { name: "stamina".to_string(), ty: Some(Type::Int), value: Some(lit(50)) },
            Stmt::Let { name: "x".to_string(), ty: None, value: Some(lit(5)) },
            Stmt::Let { name: "y".to_string(), ty: None, value: None },
        ]
    );
    assert_eq!(
        main_body("main then const y = 10; end"),
        vec![Stmt::Const { name: "y".to_string(), ty: None, value: lit(10) }]
    );
}

#[test]
fn array_types() {
    assert_eq!(
        main_body("main then let scores: int[10]; let grid: int[10][10]; end"),
        vec![
            Stmt::Let { name: "scores".to_string(), ty: Some(Type::Array(Box::new(Type::Int), 10)), value: None },
            Stmt::Let {
                name: "grid".to_string(),
                ty: Some(Type::Array2D(Box::new(Type::Int), 10, 10)),
                value: None,
            },
        ]
    );
}

#[test]
fn all_base_types() {
    let body = main_body("main then let a: int; let b: float; let c: bool; let d: string; let e: byte; let f: ptr; end");
    let types: Vec<Option<Type>> = body
        .into_iter()
        .map(|s| match s {
            Stmt::Let { ty, .. } => ty,
            _ => None,
        })
        .collect();
    assert_eq!(
        types,
        vec![Some(Type::Int), Some(Type::Float), Some(Type::Bool), Some(Type::StringType), Some(Type::Byte), Some(Type::Ptr)]
    );
}

#[test]
fn assignments() {
    assert_eq!(
        main_body("main then x = 1; health -= amount; i++; j--; k *= 2; m /= 3; n += 4; end"),
        vec![
            Stmt::Assign { target: "x".to_string(), value: lit(1) },
            Stmt::Assign { target: "health".to_string(), value: bin(BinOp::Sub, id("health"), id("amount")) },
            Stmt::Assign { target: "i".to_string(), value: bin(BinOp::Add, id("i"), lit(1)) },
            Stmt::Assign { target: "j".to_string(), value: bin(BinOp::Sub, id("j"), lit(1)) },
            Stmt::Assign { target: "k".to_string(), value: bin(BinOp::Mul, id("k"), lit(2)) },
            Stmt::Assign { target: "m".to_string(), value: bin(BinOp::Div, id("m"), lit(3)) },
            Stmt::Assign { target: "n".to_string(), value: bin(BinOp::Add, id("n"), lit(4)) },
        ]
    );
}

#[test]
fn if_else_if_else() {
    let body = main_body(
        "main then
            if health <= 0 then
                die();
            else if health < 20 then
                console.print(\"critical\");
            else then
                console.print(\"ok\");
            end
        end",
    );
    let call = |callee: &str, args: Vec<Expr>| Stmt::ExprStmt(Expr::Call { callee: callee.to_string(), args });
    assert_eq!(
        body,
        vec![Stmt::If {
            condition: bin(BinOp::LtEq, id("health"), lit(0)),
            body: vec![call("die", vec![])],
            else_ifs: vec![(
                bin(BinOp::Lt, id("health"), lit(20)),
                vec![call("console.print", vec![Expr::StringLit("critical".to_string())])],
            )],
            else_body: Some(vec![call("console.print", vec![Expr::StringLit("ok".to_string())])]),
        }]
    );
}

#[test]
fn single_line_if() {
    assert_eq!(
        main_body("main then if health <= 0 then die(); end end"),
        vec![Stmt::If {
            condition: bin(BinOp::LtEq, id("health"), lit(0)),
            body: vec![Stmt::ExprStmt(Expr::Call { callee: "die".to_string(), args: vec![] })],
            else_ifs: vec![],
            else_body: None,
        }]
    );
}

#[test]
fn loops() {
    assert_eq!(
        main_body("main then while alive then update(); end end"),
        vec![Stmt::While {
            condition: id("alive"),
            body: vec![Stmt::ExprStmt(Expr::Call { callee: "update".to_string(), args: vec![] })],
        }]
    );
    assert_eq!(
        main_body("main then loop then if done then break; end continue; end end"),
        vec![Stmt::Loop {
            body: vec![
                Stmt::If { condition: id("done"), body: vec![Stmt::Break], else_ifs: vec![], else_body: None },
                Stmt::Continue,
            ],
        }]
    );
}

#[test]
fn for_loop() {
    let expected = vec![Stmt::For {
        init: Box::new(Stmt::Let { name: "i".to_string(), ty: Some(Type::Int), value: Some(lit(0)) }),
        condition: bin(BinOp::Lt, id("i"), lit(10)),
        step: Box::new(Stmt::Assign { target: "i".to_string(), value: bin(BinOp::Add, id("i"), lit(1)) }),
        body: vec![Stmt::ExprStmt(Expr::Call { callee: "console.print".to_string(), args: vec![id("i")] })],
    }];
    assert_eq!(
        main_body("main then for i: int = 0; i < 10; i++ then console.print(i); end end"),
        expected
    );
    assert_eq!(
        main_body("main then for let i: int = 0; i < 10; i = i + 1 then console.print(i); end end"),
        vec![Stmt::For {
            init: Box::new(Stmt::Let { name: "i".to_string(), ty: Some(Type::Int), value: Some(lit(0)) }),
            condition: bin(BinOp::Lt, id("i"), lit(10)),
            step: Box::new(Stmt::Assign { target: "i".to_string(), value: bin(BinOp::Add, id("i"), lit(1)) }),
            body: vec![Stmt::ExprStmt(Expr::Call { callee: "console.print".to_string(), args: vec![id("i")] })],
        }]
    );
}

#[test]
fn functions_with_parentheses() {
    assert_eq!(
        parse("func add(a: int, b: int): int then return a + b; end"),
        Ok(vec![TopLevel::Func(FuncDef {
            exported: false,
            name: "add".to_string(),
            params: vec![
                Param { name: "a".to_string(), ty: Type::Int },
                Param { name: "b".to_string(), ty: Type::Int },
            ],
            return_type: Some(Type::Int),
            body: vec![Stmt::Return(Some(bin(BinOp::Add, id("a"), id("b"))))],
        })])
    );
}

#[test]
fn functions_without_parentheses() {
    assert_eq!(
        parse("func add a: int b: int return:int then\n    return a + b;\nend"),
        Ok(vec![TopLevel::Func(FuncDef {
            exported: false,
            name: "add".to_string(),
            params: vec![
                Param { name: "a".to_string(), ty: Type::Int },
                Param { name: "b".to_string(), ty: Type::Int },
            ],
            return_type: Some(Type::Int),
            body: vec![Stmt::Return(Some(bin(BinOp::Add, id("a"), id("b"))))],
        })])
    );
    assert_eq!(
        parse("func greet name: string then console.print(name); end"),
        Ok(vec![TopLevel::Func(FuncDef {
            exported: false,
            name: "greet".to_string(),
            params: vec![Param { name: "name".to_string(), ty: Type::StringType }],
            return_type: None,
            body: vec![Stmt::ExprStmt(Expr::Call { callee: "console.print".to_string(), args: vec![id("name")] })],
        })])
    );
    assert_eq!(
        parse("func resolve_hit then player.damage(10); end"),
        Ok(vec![TopLevel::Func(FuncDef {
            exported: false,
            name: "resolve_hit".to_string(),
            params: vec![],
            return_type: None,
            body: vec![Stmt::ExprStmt(Expr::Call { callee: "player.damage".to_string(), args: vec![lit(10)] })],
        })])
    );
}

#[test]
fn modules_and_exports() {
    assert_eq!(
        parse("use console; use console.print;"),
        Ok(vec![
            TopLevel::Use(UseDecl { path: vec!["console".to_string()] }),
            TopLevel::Use(UseDecl { path: vec!["console".to_string(), "print".to_string()] }),
        ])
    );
    assert_eq!(
        parse("export let health: int = 100; export const max = 3; let local;"),
        Ok(vec![
            TopLevel::Let { exported: true, name: "health".to_string(), ty: Some(Type::Int), value: Some(lit(100)) },
            TopLevel::Const { exported: true, name: "max".to_string(), ty: None, value: lit(3) },
            TopLevel::Let { exported: false, name: "local".to_string(), ty: None, value: None },
        ])
    );
    assert_eq!(
        parse("export func damage amount: int then health -= amount; end"),
        Ok(vec![TopLevel::Func(FuncDef {
            exported: true,
            name: "damage".to_string(),
            params: vec![Param { name: "amount".to_string(), ty: Type::Int }],
            return_type: None,
            body: vec![Stmt::Assign {
                target: "health".to_string(),
                value: bin(BinOp::Sub, id("health"), id("amount")),
            }],
        })])
    );
}

#[test]
fn return_without_value() {
    assert_eq!(main_body("main then return; end"), vec![Stmt::Return(None)]);
    assert_eq!(main_body("main then return end"), vec![Stmt::Return(None)]);
}

#[test]
fn parsing_stops_at_the_first_eof() {
    let tokens = vec![Token::Use, Token::Identifier("a".to_string()), Token::Eof, Token::Func];
    assert_eq!(
        Parser::new(tokens).parse_program(),
        Ok(vec![TopLevel::Use(UseDecl { path: vec!["a".to_string()] })])
    );
    // a token sequence without Eof reads as if it ended in one
    let tokens = vec![Token::Use, Token::Identifier("a".to_string())];
    assert_eq!(
        Parser::new(tokens).parse_program(),
        Ok(vec![TopLevel::Use(UseDecl { path: vec!["a".to_string()] })])
    );
}

#[test]
fn error_expected_token() {
    assert_eq!(
        parse("main then return 0;"),
        Err(ParseError::Expected { expected: Token::End, found: Token::Eof })
    );
    assert_eq!(
        parse("func f(a: int then end"),
        Err(ParseError::ExpectedParamName(Token::Then))
    );
    assert_eq!(
        parse("main return 0; end"),
        Err(ParseError::Expected { expected: Token::Then, found: Token::Return })
    );
}

#[test]
fn error_top_level() {
    assert_eq!(parse("x = 1;"), Err(ParseError::UnexpectedTopLevel(Token::Identifier("x".to_string()))));
    assert_eq!(parse("use 5;"), Err(ParseError::ExpectedModuleName(Token::Int(5))));
    assert_eq!(parse("use a.;"), Err(ParseError::ExpectedPathSegment(Token::Semicolon)));
    assert_eq!(parse("export use a;"), Err(ParseError::ExpectedExportable(Token::Use)));
    assert_eq!(parse("func 1 then end"), Err(ParseError::ExpectedFunctionName(Token::Int(1))));
    assert_eq!(parse("let 1;"), Err(ParseError::ExpectedName(Token::Int(1))));
    assert_eq!(parse("const x;"), Err(ParseError::Expected { expected: Token::Assign, found: Token::Semicolon }));
}

#[test]
fn error_types() {
    assert_eq!(parse("let x: foo;"), Err(ParseError::ExpectedType(Token::Identifier("foo".to_string()))));
    assert_eq!(parse("let x: int[y];"), Err(ParseError::ExpectedArraySize(Token::Identifier("y".to_string()))));
    assert_eq!(parse("let x: int[3;"), Err(ParseError::Expected { expected: Token::RBracket, found: Token::Semicolon }));
}

#[test]
fn error_statements() {
    assert_eq!(parse("main then let 3; end"), Err(ParseError::ExpectedVariableName(Token::Int(3))));
    assert_eq!(parse("main then const = 3; end"), Err(ParseError::ExpectedName(Token::Assign)));
    assert_eq!(parse("main then 1 = 2; end"), Err(ParseError::InvalidAssignTarget));
    assert_eq!(parse("main then f() += 2; end"), Err(ParseError::InvalidAssignTarget));
    assert_eq!(parse("main then 3++; end"), Err(ParseError::InvalidAssignTarget));
    assert_eq!(parse("main then a.5; end"), Err(ParseError::ExpectedFieldName(Token::Int(5))));
    assert_eq!(parse("main then x = ); end"), Err(ParseError::UnexpectedToken(Token::RParen)));
    assert_eq!(parse("main then (1; end"), Err(ParseError::Expected { expected: Token::RParen, found: Token::Semicolon }));
}

#[test]
fn parser_new_then_parse() {
    let mut p = Parser::new(vec![Token::Eof]);
    assert_eq!(p.parse_program(), Ok(vec![]));
}

#[test]
fn struct_definitions() {
    assert_eq!(
        parse("struct Point then x: int, y: int end"),
        Ok(vec![TopLevel::Struct(StructDef {
            exported: false,
            name: "Point".to_string(),
            fields: vec![
                Param { name: "x".to_string(), ty: Type::Int },
                Param { name: "y".to_string(), ty: Type::Int },
            ],
        })])
    );
    assert_eq!(
        parse("export struct Grid\n  cells: int[3][4];\n  name: string;\nend\nstruct Empty end"),
        Ok(vec![
            TopLevel::Struct(StructDef {
                exported: true,
                name: "Grid".to_string(),
                fields: vec![
                    Param { name: "cells".to_string(), ty: Type::Array2D(Box::new(Type::Int), 3, 4) },
                    Param { name: "name".to_string(), ty: Type::StringType },
                ],
            }),
            TopLevel::Struct(StructDef { exported: false, name: "Empty".to_string(), fields: vec![] }),
        ])
    );
}

#[test]
fn struct_errors() {
    assert_eq!(parse("struct 5 end"), Err(ParseError::ExpectedStructName(Token::Int(5))));
    assert_eq!(parse("export struct then end"), Err(ParseError::ExpectedStructName(Token::Then)));
    assert_eq!(
        parse("struct S x: int"),
        Err(ParseError::Expected { expected: Token::End, found: Token::Eof })
    );
    assert_eq!(parse("struct S x int end"), Err(ParseError::Expected { expected: Token::Colon, found: Token::TypeInt }));
    assert_eq!(parse("struct S x: 1 end"), Err(ParseError::ExpectedType(Token::Int(1))));
}

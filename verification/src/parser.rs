//! The parser: from tokens to the abstract syntax tree.
//!
//! Each parsing function has a specification `p_*` over the token sequence
//! and a position: the view of what it parses and the position after it, or
//! the error it reports.  A position past the last token reads as `Eof`.
//!
//! Where a specification goes on from a position that an earlier part
//! returned, it first tests that the position `moved` forward, so that the
//! definition is well founded.  The test passes wherever the part before it
//! succeeded: `law_parsing_moves_forward` shows that every part that succeeds
//! moves forward within the tokens.

use vstd::prelude::*;
use crate::token::{Token, same_token};
use crate::text::push_char;
use crate::ast::{
    BinOp, Expr, ExprView, Param, ParamView, Stmt, StmtView, TopLevel, TopLevelView, FuncDef,
    FuncView, Type, UnaryOp, UseDecl, exprs_view, stmts_view, else_ifs_view, params_view,
    top_levels_view, StructDef, lemma_exprs_view_push, lemma_stmts_view_push, lemma_else_ifs_view_push,
    lemma_views_empty,
};

verus! {

/// Why a token sequence does not parse.
#[derive(Debug, PartialEq)]
pub enum ParseError {
    /// A required token is missing.
    Expected { expected: Token, found: Token },
    /// A top-level item cannot start with this token.
    UnexpectedTopLevel(Token),
    /// `use` is not followed by a module name.
    ExpectedModuleName(Token),
    /// A `.` in a `use` path is not followed by an identifier.
    ExpectedPathSegment(Token),
    /// `export` is not followed by `func`, `struct`, `let` or `const`.
    ExpectedExportable(Token),
    /// `struct` is not followed by a name.
    ExpectedStructName(Token),
    /// `func` is not followed by a name.
    ExpectedFunctionName(Token),
    /// A parameter does not start with a name.
    ExpectedParamName(Token),
    /// A type annotation does not start with a type name.
    ExpectedType(Token),
    /// An array dimension is not an integer literal.
    ExpectedArraySize(Token),
    /// `let` is not followed by a variable name.
    ExpectedVariableName(Token),
    /// A constant or top-level variable has no name.
    ExpectedName(Token),
    /// The left side of an assignment is not a variable name.
    InvalidAssignTarget,
    /// A `.` in an expression is not followed by a field name.
    ExpectedFieldName(Token),
    /// A token that cannot start an expression.
    UnexpectedToken(Token),
}

// ---------------------------------------------------------------------------
// Specification
// ---------------------------------------------------------------------------

/// The token at position `i`; `Eof` past the end.
pub open spec fn tok(t: Seq<Token>, i: int) -> Token {
    if 0 <= i < t.len() {
        t[i]
    } else {
        Token::Eof
    }
}

/// Position `j` lies after `i` and within the tokens.
pub open spec fn moved(t: Seq<Token>, i: int, j: int) -> bool {
    i < j <= t.len()
}

/// The position after the run of semicolons at `i`.
pub open spec fn skip_semis(t: Seq<Token>, i: int) -> int
    decreases t.len() - i,
{
    if tok(t, i) == Token::Semicolon {
        skip_semis(t, i + 1)
    } else {
        i
    }
}

/// The position after token `e`, which must stand at `i`.
pub open spec fn p_expect(t: Seq<Token>, i: int, e: Token) -> Result<int, ParseError> {
    if same_token(tok(t, i), e) {
        Ok(i + 1)
    } else {
        Err(ParseError::Expected { expected: e, found: tok(t, i) })
    }
}

/// The binding strength of a binary operator token; `-1` for other tokens.
pub open spec fn precedence(k: Token) -> int {
    match k {
        Token::Or => 1,
        Token::And => 2,
        Token::Eq | Token::NotEq => 3,
        Token::Lt | Token::Gt | Token::LtEq | Token::GtEq => 4,
        Token::Plus | Token::Minus => 5,
        Token::Star | Token::Slash | Token::Percent => 6,
        _ => -1,
    }
}

/// The binary operator that a token stands for.
pub open spec fn binop_of(k: Token) -> Option<BinOp> {
    match k {
        Token::Plus => Some(BinOp::Add),
        Token::Minus => Some(BinOp::Sub),
        Token::Star => Some(BinOp::Mul),
        Token::Slash => Some(BinOp::Div),
        Token::Percent => Some(BinOp::Mod),
        Token::Eq => Some(BinOp::Eq),
        Token::NotEq => Some(BinOp::NotEq),
        Token::Lt => Some(BinOp::Lt),
        Token::Gt => Some(BinOp::Gt),
        Token::LtEq => Some(BinOp::LtEq),
        Token::GtEq => Some(BinOp::GtEq),
        Token::And => Some(BinOp::And),
        Token::Or => Some(BinOp::Or),
        _ => None,
    }
}

/// The base type that a type-name token stands for.
pub open spec fn base_type_of(k: Token) -> Option<Type> {
    match k {
        Token::TypeInt => Some(Type::Int),
        Token::TypeFloat => Some(Type::Float),
        Token::TypeBool => Some(Type::Bool),
        Token::TypeString => Some(Type::StringType),
        Token::TypeByte => Some(Type::Byte),
        Token::TypePtr => Some(Type::Ptr),
        _ => None,
    }
}

/// An array dimension: an integer literal.
pub open spec fn p_array_size(t: Seq<Token>, i: int) -> Result<(usize, int), ParseError> {
    match tok(t, i) {
        Token::Int(n) => Ok((n as usize, i + 1)),
        other => Err(ParseError::ExpectedArraySize(other)),
    }
}

/// Where parsing a type that fails stops: at the token that is not the type
/// name, the dimension or the closing bracket that was needed there.
pub open spec fn type_error_at(t: Seq<Token>, i: int) -> int {
    if base_type_of(tok(t, i)) is None {
        i
    } else if !(tok(t, i + 2) is Int) {
        i + 2
    } else if tok(t, i + 3) != Token::RBracket {
        i + 3
    } else if !(tok(t, i + 5) is Int) {
        i + 5
    } else {
        i + 6
    }
}

/// A type annotation: a base type, optionally with one or two array
/// dimensions (`int`, `int[10]`, `int[10][10]`).
pub open spec fn p_type(t: Seq<Token>, i: int) -> Result<(Type, int), ParseError> {
    match base_type_of(tok(t, i)) {
        None => Err(ParseError::ExpectedType(tok(t, i))),
        Some(base) => if tok(t, i + 1) == Token::LBracket {
            match p_array_size(t, i + 2) {
                Err(e) => Err(e),
                Ok((n, j)) => match p_expect(t, j, Token::RBracket) {
                    Err(e) => Err(e),
                    Ok(k) => if tok(t, k) == Token::LBracket {
                        match p_array_size(t, k + 1) {
                            Err(e) => Err(e),
                            Ok((m, j2)) => match p_expect(t, j2, Token::RBracket) {
                                Err(e) => Err(e),
                                Ok(k2) => Ok((Type::Array2D(Box::new(base), n, m), k2)),
                            },
                        }
                    } else {
                        Ok((Type::Array(Box::new(base), n), k))
                    },
                },
            }
        } else {
            Ok((base, i + 1))
        },
    }
}

/// An expression: a unary expression followed by binary operators.
pub open spec fn p_expr(t: Seq<Token>, i: int) -> Result<(ExprView, int), ParseError>
    decreases t.len() - i, 3int,
{
    match p_unary(t, i) {
        Err(e) => Err(e),
        Ok((lhs, j)) => if moved(t, i, j) {
            p_binop(t, j, 0, lhs)
        } else {
            Ok((lhs, j))
        },
    }
}

/// `not` and `-` prefixes, then a primary expression.
pub open spec fn p_unary(t: Seq<Token>, i: int) -> Result<(ExprView, int), ParseError>
    decreases t.len() - i, 2int,
{
    if tok(t, i) == Token::Not {
        match p_unary(t, i + 1) {
            Err(e) => Err(e),
            Ok((e, j)) => Ok((ExprView::UnaryOp { op: UnaryOp::Not, expr: Box::new(e) }, j)),
        }
    } else if tok(t, i) == Token::Minus {
        match p_unary(t, i + 1) {
            Err(e) => Err(e),
            Ok((e, j)) => Ok((ExprView::UnaryOp { op: UnaryOp::Neg, expr: Box::new(e) }, j)),
        }
    } else {
        p_primary(t, i)
    }
}

/// The arguments of a call, up to the closing parenthesis (not taken), each
/// optionally followed by a comma.
pub open spec fn p_args(t: Seq<Token>, i: int) -> Result<(Seq<ExprView>, int), ParseError>
    decreases t.len() - i, 4int,
{
    if tok(t, i) == Token::RParen {
        Ok((Seq::empty(), i))
    } else {
        match p_expr(t, i) {
            Err(e) => Err(e),
            Ok((e, j)) => {
                let j2 = if tok(t, j) == Token::Comma {
                    j + 1
                } else {
                    j
                };
                if moved(t, i, j2) {
                    match p_args(t, j2) {
                        Err(er) => Err(er),
                        Ok((rest, k)) => Ok((seq![e].add(rest), k)),
                    }
                } else {
                    Ok((seq![e], j2))
                }
            },
        }
    }
}

/// The call `callee(args)` whose arguments start at `i`.
pub open spec fn p_call(t: Seq<Token>, i: int, callee: Seq<char>) -> Result<(ExprView, int), ParseError>
    decreases t.len() - i, 5int,
{
    match p_args(t, i) {
        Err(e) => Err(e),
        Ok((args, j)) => match p_expect(t, j, Token::RParen) {
            Err(e) => Err(e),
            Ok(k) => Ok((ExprView::Call { callee, args }, k)),
        },
    }
}

/// A literal, a name, a call, a field access `module.symbol`, a method call
/// `object.method(args)` (whose callee is `object.method`), or an expression
/// in parentheses.
pub open spec fn p_primary(t: Seq<Token>, i: int) -> Result<(ExprView, int), ParseError>
    decreases t.len() - i, 1int,
{
    match tok(t, i) {
        Token::Int(n) => Ok((ExprView::IntLit(n), i + 1)),
        Token::Float(f) => Ok((ExprView::FloatLit(f@), i + 1)),
        Token::Bool(b) => Ok((ExprView::BoolLit(b), i + 1)),
        Token::StringLit(s) => Ok((ExprView::StringLit(s@), i + 1)),
        Token::Identifier(name) => if tok(t, i + 1) == Token::LParen {
            p_call(t, i + 2, name@)
        } else if tok(t, i + 1) == Token::Dot {
            match tok(t, i + 2) {
                Token::Identifier(field) => if tok(t, i + 3) == Token::LParen {
                    p_call(t, i + 4, name@.add(seq!['.']).add(field@))
                } else {
                    Ok(
                        (
                            ExprView::FieldAccess {
                                object: Box::new(ExprView::Identifier(name@)),
                                field: field@,
                            },
                            i + 3,
                        ),
                    )
                },
                other => Err(ParseError::ExpectedFieldName(other)),
            }
        } else {
            Ok((ExprView::Identifier(name@), i + 1))
        },
        Token::LParen => match p_expr(t, i + 1) {
            Err(e) => Err(e),
            Ok((e, j)) => match p_expect(t, j, Token::RParen) {
                Err(er) => Err(er),
                Ok(k) => Ok((e, k)),
            },
        },
        other => Err(ParseError::UnexpectedToken(other)),
    }
}

/// Binary operators by precedence climbing, with `lhs` already read and the
/// operator (if any) at `i`: operators that bind at least as tightly as
/// `min` are taken, and those of equal strength associate to the left.
pub open spec fn p_binop(t: Seq<Token>, i: int, min: int, lhs: ExprView) -> Result<(ExprView, int), ParseError>
    decreases t.len() - i, 0int,
{
    let prec = precedence(tok(t, i));
    if prec < min || prec < 0 {
        Ok((lhs, i))
    } else {
        let op = binop_of(tok(t, i))->Some_0;
        match p_unary(t, i + 1) {
            Err(e) => Err(e),
            Ok((rhs, j)) => if !moved(t, i, j) {
                Ok((lhs, i))
            } else if precedence(tok(t, j)) > prec {
                match p_binop(t, j, prec + 1, rhs) {
                    Err(e) => Err(e),
                    Ok((rhs2, k)) => if moved(t, i, k) {
                        p_binop(
                            t,
                            k,
                            min,
                            ExprView::BinaryOp { op, lhs: Box::new(lhs), rhs: Box::new(rhs2) },
                        )
                    } else {
                        Ok((lhs, i))
                    },
                }
            } else {
                p_binop(t, j, min, ExprView::BinaryOp { op, lhs: Box::new(lhs), rhs: Box::new(rhs) })
            },
        }
    }
}

/// The view of an optional expression.
pub open spec fn opt_expr_view(v: Option<Expr>) -> Option<ExprView> {
    match v {
        Some(e) => Some(e@),
        None => None,
    }
}

/// The view of an optional block.
pub open spec fn opt_stmts_view(v: Option<Vec<Stmt>>) -> Option<Seq<StmtView>> {
    match v {
        Some(b) => Some(stmts_view(b@)),
        None => None,
    }
}

/// An optional type annotation `: type`.
pub open spec fn p_opt_type(t: Seq<Token>, i: int) -> Result<(Option<Type>, int), ParseError> {
    if tok(t, i) == Token::Colon {
        match p_type(t, i + 1) {
            Err(e) => Err(e),
            Ok((ty, j)) => Ok((Some(ty), j)),
        }
    } else {
        Ok((None, i))
    }
}

/// An optional initializer `= expr`.
pub open spec fn p_opt_value(t: Seq<Token>, i: int) -> Result<(Option<ExprView>, int), ParseError> {
    if tok(t, i) == Token::Assign {
        match p_expr(t, i + 1) {
            Err(e) => Err(e),
            Ok((v, j)) => Ok((Some(v), j)),
        }
    } else {
        Ok((None, i))
    }
}

/// The words of a variable declaration after `let`: a name, an optional
/// type annotation and an optional initializer.
pub open spec fn p_let_rest(t: Seq<Token>, i: int) -> Result<(StmtView, int), ParseError> {
    match tok(t, i) {
        Token::Identifier(name) => match p_opt_type(t, i + 1) {
            Err(e) => Err(e),
            Ok((ty, j)) => match p_opt_value(t, j) {
                Err(e) => Err(e),
                Ok((value, k)) => Ok((StmtView::Let { name: name@, ty, value }, k)),
            },
        },
        other => Err(ParseError::ExpectedVariableName(other)),
    }
}

/// `let name[: type][= expr]`.
pub open spec fn p_let(t: Seq<Token>, i: int) -> Result<(StmtView, int), ParseError> {
    p_let_rest(t, i + 1)
}

/// `const name[: type] = expr`.
pub open spec fn p_const(t: Seq<Token>, i: int) -> Result<(StmtView, int), ParseError> {
    match tok(t, i + 1) {
        Token::Identifier(name) => match p_opt_type(t, i + 2) {
            Err(e) => Err(e),
            Ok((ty, j)) => match p_expect(t, j, Token::Assign) {
                Err(e) => Err(e),
                Ok(k) => match p_expr(t, k) {
                    Err(e) => Err(e),
                    Ok((value, m)) => Ok((StmtView::Const { name: name@, ty, value }, m)),
                },
            },
        },
        other => Err(ParseError::ExpectedName(other)),
    }
}

/// `return` with an optional value; none when `;` or `end` follows.
pub open spec fn p_return(t: Seq<Token>, i: int) -> Result<(StmtView, int), ParseError> {
    if tok(t, i + 1) == Token::Semicolon || tok(t, i + 1) == Token::End {
        Ok((StmtView::Return(None), i + 1))
    } else {
        match p_expr(t, i + 1) {
            Err(e) => Err(e),
            Ok((v, j)) => Ok((StmtView::Return(Some(v)), j)),
        }
    }
}

/// The operator of a compound assignment token (`+=`, `-=`, `*=`, `/=`).
pub open spec fn compound_op(k: Token) -> Option<BinOp> {
    match k {
        Token::PlusAssign => Some(BinOp::Add),
        Token::MinusAssign => Some(BinOp::Sub),
        Token::StarAssign => Some(BinOp::Mul),
        Token::SlashAssign => Some(BinOp::Div),
        _ => None,
    }
}

/// The operator of an increment or decrement token (`++`, `--`).
pub open spec fn step_op(k: Token) -> Option<BinOp> {
    match k {
        Token::PlusPlus => Some(BinOp::Add),
        Token::MinusMinus => Some(BinOp::Sub),
        _ => None,
    }
}

/// An expression statement or an assignment to a variable:
/// `x = e`, `x += e` (that is `x = x + e`, and likewise `-=`, `*=`, `/=`),
/// `x++` (that is `x = x + 1`) or `x--`.
pub open spec fn p_expr_or_assign(t: Seq<Token>, i: int) -> Result<(StmtView, int), ParseError> {
    match p_expr(t, i) {
        Err(e) => Err(e),
        Ok((target, j)) => {
            let k = tok(t, j);
            if k == Token::Assign {
                match p_expr(t, j + 1) {
                    Err(e) => Err(e),
                    Ok((value, m)) => match target {
                        ExprView::Identifier(name) => Ok((StmtView::Assign { target: name, value }, m)),
                        _ => Err(ParseError::InvalidAssignTarget),
                    },
                }
            } else if compound_op(k) is Some {
                match p_expr(t, j + 1) {
                    Err(e) => Err(e),
                    Ok((value, m)) => match target {
                        ExprView::Identifier(name) => Ok(
                            (
                                StmtView::Assign {
                                    target: name,
                                    value: ExprView::BinaryOp {
                                        op: compound_op(k)->Some_0,
                                        lhs: Box::new(ExprView::Identifier(name)),
                                        rhs: Box::new(value),
                                    },
                                },
                                m,
                            ),
                        ),
                        _ => Err(ParseError::InvalidAssignTarget),
                    },
                }
            } else if step_op(k) is Some {
                match target {
                    ExprView::Identifier(name) => Ok(
                        (
                            StmtView::Assign {
                                target: name,
                                value: ExprView::BinaryOp {
                                    op: step_op(k)->Some_0,
                                    lhs: Box::new(ExprView::Identifier(name)),
                                    rhs: Box::new(ExprView::IntLit(1)),
                                },
                            },
                            j + 1,
                        ),
                    ),
                    _ => Err(ParseError::InvalidAssignTarget),
                }
            } else {
                Ok((StmtView::ExprStmt(target), j))
            }
        },
    }
}

/// Tokens that end a block.
pub open spec fn ends_block(k: Token) -> bool {
    k == Token::End || k == Token::Else || k == Token::Eof
}

pub proof fn lemma_skip_semis_bounds(t: Seq<Token>, i: int)
    ensures
        skip_semis(t, i) >= i,
        i <= t.len() ==> skip_semis(t, i) <= t.len(),
        skip_semis(t, skip_semis(t, i)) == skip_semis(t, i),
        tok(t, skip_semis(t, i)) != Token::Semicolon,
    decreases t.len() - i,
{
    if tok(t, i) == Token::Semicolon {
        lemma_skip_semis_bounds(t, i + 1);
    }
}

/// A block: statements, with semicolons between them, up to `end`, `else`
/// or the end of the tokens (not taken).
pub open spec fn p_block(t: Seq<Token>, i: int) -> Result<(Seq<StmtView>, int), ParseError>
    decreases t.len() - i, 3int,
{
    let j = skip_semis(t, i);
    if ends_block(tok(t, j)) {
        Ok((Seq::empty(), j))
    } else {
        proof {
            lemma_skip_semis_bounds(t, i);
        }
        match p_stmt(t, j) {
            Err(e) => Err(e),
            Ok((st, m)) => if moved(t, j, m) {
                match p_block(t, m) {
                    Err(e) => Err(e),
                    Ok((rest, n)) => Ok((seq![st].add(rest), n)),
                }
            } else {
                Ok((seq![st], m))
            },
        }
    }
}

/// A statement, and the semicolons after it.
pub open spec fn p_stmt(t: Seq<Token>, i: int) -> Result<(StmtView, int), ParseError>
    decreases t.len() - i, 2int,
{
    let r = match tok(t, i) {
        Token::Let => p_let(t, i),
        Token::Const => p_const(t, i),
        Token::Return => p_return(t, i),
        Token::Break => Ok((StmtView::Break, i + 1)),
        Token::Continue => Ok((StmtView::Continue, i + 1)),
        Token::If => p_if(t, i),
        Token::While => p_while(t, i),
        Token::For => p_for(t, i),
        Token::Loop => p_loop(t, i),
        _ => p_expr_or_assign(t, i),
    };
    match r {
        Err(e) => Err(e),
        Ok((st, j)) => Ok((st, skip_semis(t, j))),
    }
}

/// `if cond then ... [else if cond then ...]* [else [then] ...] end`.
pub open spec fn p_if(t: Seq<Token>, i: int) -> Result<(StmtView, int), ParseError>
    decreases t.len() - i, 1int,
{
    match p_expr(t, i + 1) {
        Err(e) => Err(e),
        Ok((condition, j)) => match p_expect(t, j, Token::Then) {
            Err(e) => Err(e),
            Ok(k) => if moved(t, i, k) {
                match p_block(t, k) {
                    Err(e) => Err(e),
                    Ok((body, m)) => if moved(t, i, m) {
                        match p_elses(t, m) {
                            Err(e) => Err(e),
                            Ok(((else_ifs, else_body), n)) => match p_expect(t, n, Token::End) {
                                Err(e) => Err(e),
                                Ok(q) => Ok((StmtView::If { condition, body, else_ifs, else_body }, q)),
                            },
                        }
                    } else {
                        Err(ParseError::Expected { expected: Token::End, found: tok(t, m) })
                    },
                }
            } else {
                Err(ParseError::Expected { expected: Token::Then, found: tok(t, j) })
            },
        },
    }
}

/// The `else if` branches and the `else` branch after the body of an `if`.
pub open spec fn p_elses(t: Seq<Token>, i: int) -> Result<
    ((Seq<(ExprView, Seq<StmtView>)>, Option<Seq<StmtView>>), int),
    ParseError,
>
    decreases t.len() - i, 0int,
{
    if tok(t, i) == Token::Else {
        if tok(t, i + 1) == Token::If {
            match p_expr(t, i + 2) {
                Err(e) => Err(e),
                Ok((c, j)) => match p_expect(t, j, Token::Then) {
                    Err(e) => Err(e),
                    Ok(k) => if moved(t, i, k) {
                        match p_block(t, k) {
                            Err(e) => Err(e),
                            Ok((b, m)) => if moved(t, i, m) {
                                match p_elses(t, m) {
                                    Err(e) => Err(e),
                                    Ok(((eis, eb), n)) => Ok(((seq![(c, b)].add(eis), eb), n)),
                                }
                            } else {
                                Ok(((seq![(c, b)], None), m))
                            },
                        }
                    } else {
                        Ok(((Seq::empty(), None), i))
                    },
                },
            }
        } else {
            let k = if tok(t, i + 1) == Token::Then {
                i + 2
            } else {
                i + 1
            };
            match p_block(t, k) {
                Err(e) => Err(e),
                Ok((b, m)) => Ok(((Seq::empty(), Some(b)), m)),
            }
        }
    } else {
        Ok(((Seq::empty(), None), i))
    }
}

/// `while cond then ... end`.
pub open spec fn p_while(t: Seq<Token>, i: int) -> Result<(StmtView, int), ParseError>
    decreases t.len() - i, 1int,
{
    match p_expr(t, i + 1) {
        Err(e) => Err(e),
        Ok((condition, j)) => match p_expect(t, j, Token::Then) {
            Err(e) => Err(e),
            Ok(k) => if moved(t, i, k) {
                match p_block(t, k) {
                    Err(e) => Err(e),
                    Ok((body, m)) => match p_expect(t, m, Token::End) {
                        Err(e) => Err(e),
                        Ok(n) => Ok((StmtView::While { condition, body }, n)),
                    },
                }
            } else {
                Err(ParseError::Expected { expected: Token::Then, found: tok(t, j) })
            },
        },
    }
}

/// `loop then ... end`.
pub open spec fn p_loop(t: Seq<Token>, i: int) -> Result<(StmtView, int), ParseError>
    decreases t.len() - i, 1int,
{
    match p_expect(t, i + 1, Token::Then) {
        Err(e) => Err(e),
        Ok(k) => if moved(t, i, k) {
            match p_block(t, k) {
                Err(e) => Err(e),
                Ok((body, m)) => match p_expect(t, m, Token::End) {
                    Err(e) => Err(e),
                    Ok(n) => Ok((StmtView::Loop { body }, n)),
                },
            }
        } else {
            Err(ParseError::Expected { expected: Token::Then, found: tok(t, i + 1) })
        },
    }
}

/// `for [let] name[: type][= expr]; cond; step then ... end`.
pub open spec fn p_for(t: Seq<Token>, i: int) -> Result<(StmtView, int), ParseError>
    decreases t.len() - i, 1int,
{
    let j0 = if tok(t, i + 1) == Token::Let {
        i + 2
    } else {
        i + 1
    };
    match p_let_rest(t, j0) {
        Err(e) => Err(e),
        Ok((init, a)) => match p_expect(t, a, Token::Semicolon) {
            Err(e) => Err(e),
            Ok(b) => match p_expr(t, b) {
                Err(e) => Err(e),
                Ok((condition, c)) => match p_expect(t, c, Token::Semicolon) {
                    Err(e) => Err(e),
                    Ok(d) => match p_expr_or_assign(t, d) {
                        Err(e) => Err(e),
                        Ok((step, f)) => match p_expect(t, f, Token::Then) {
                            Err(e) => Err(e),
                            Ok(g) => if moved(t, i, g) {
                                match p_block(t, g) {
                                    Err(e) => Err(e),
                                    Ok((body, h)) => match p_expect(t, h, Token::End) {
                                        Err(e) => Err(e),
                                        Ok(n) => Ok(
                                            (
                                                StmtView::For {
                                                    init: Box::new(init),
                                                    condition,
                                                    step: Box::new(step),
                                                    body,
                                                },
                                                n,
                                            ),
                                        ),
                                    },
                                }
                            } else {
                                Err(ParseError::Expected { expected: Token::Then, found: tok(t, f) })
                            },
                        },
                    },
                },
            },
        },
    }
}

/// The rest of a `use` path: `.name` segments.
pub open spec fn p_path_rest(t: Seq<Token>, i: int) -> Result<(Seq<Seq<char>>, int), ParseError>
    decreases t.len() - i,
{
    if tok(t, i) == Token::Dot {
        match tok(t, i + 1) {
            Token::Identifier(n) => match p_path_rest(t, i + 2) {
                Err(e) => Err(e),
                Ok((rest, k)) => Ok((seq![n@].add(rest), k)),
            },
            other => Err(ParseError::ExpectedPathSegment(other)),
        }
    } else {
        Ok((Seq::empty(), i))
    }
}

/// `use name[.name]*`, and the semicolons after it.
pub open spec fn p_use(t: Seq<Token>, i: int) -> Result<(TopLevelView, int), ParseError> {
    match tok(t, i + 1) {
        Token::Identifier(n) => match p_path_rest(t, i + 2) {
            Err(e) => Err(e),
            Ok((rest, k)) => Ok((TopLevelView::Use(seq![n@].add(rest)), skip_semis(t, k))),
        },
        other => Err(ParseError::ExpectedModuleName(other)),
    }
}

/// One parameter `name: type`, optionally followed by a comma.
pub open spec fn p_param(t: Seq<Token>, i: int) -> Result<(ParamView, int), ParseError> {
    match tok(t, i) {
        Token::Identifier(n) => match p_expect(t, i + 1, Token::Colon) {
            Err(e) => Err(e),
            Ok(j) => match p_type(t, j) {
                Err(e) => Err(e),
                Ok((ty, k)) => Ok(
                    (
                        ParamView { name: n@, ty },
                        if tok(t, k) == Token::Comma {
                            k + 1
                        } else {
                            k
                        },
                    ),
                ),
            },
        },
        other => Err(ParseError::ExpectedParamName(other)),
    }
}

/// Parameters in parentheses, up to the closing parenthesis (not taken).
pub open spec fn p_params(t: Seq<Token>, i: int) -> Result<(Seq<ParamView>, int), ParseError>
    decreases t.len() - i,
{
    if tok(t, i) == Token::RParen {
        Ok((Seq::empty(), i))
    } else {
        match p_param(t, i) {
            Err(e) => Err(e),
            Ok((p, k)) => if moved(t, i, k) {
                match p_params(t, k) {
                    Err(e) => Err(e),
                    Ok((rest, m)) => Ok((seq![p].add(rest), m)),
                }
            } else {
                Ok((seq![p], k))
            },
        }
    }
}

/// Parameters without parentheses: as long as a name follows.
pub open spec fn p_bare_params(t: Seq<Token>, i: int) -> Result<(Seq<ParamView>, int), ParseError>
    decreases t.len() - i,
{
    if tok(t, i) is Identifier {
        match p_param(t, i) {
            Err(e) => Err(e),
            Ok((p, k)) => if moved(t, i, k) {
                match p_bare_params(t, k) {
                    Err(e) => Err(e),
                    Ok((rest, m)) => Ok((seq![p].add(rest), m)),
                }
            } else {
                Ok((seq![p], k))
            },
        }
    } else {
        Ok((Seq::empty(), i))
    }
}

/// An optional return type: `: type` or `return: type`.
pub open spec fn p_return_type(t: Seq<Token>, i: int) -> Result<(Option<Type>, int), ParseError> {
    if tok(t, i) == Token::Colon {
        match p_type(t, i + 1) {
            Err(e) => Err(e),
            Ok((ty, j)) => Ok((Some(ty), j)),
        }
    } else if tok(t, i) == Token::Return {
        match p_expect(t, i + 1, Token::Colon) {
            Err(e) => Err(e),
            Ok(j) => match p_type(t, j) {
                Err(e) => Err(e),
                Ok((ty, k)) => Ok((Some(ty), k)),
            },
        }
    } else {
        Ok((None, i))
    }
}

/// `func name(params)[: type] then ... end` or, without parentheses,
/// `func name a: int b: int [return: type] then ... end`.
pub open spec fn p_func(t: Seq<Token>, i: int, exported: bool) -> Result<(FuncView, int), ParseError> {
    match tok(t, i + 1) {
        Token::Identifier(name) => {
            let ps = if tok(t, i + 2) == Token::LParen {
                match p_params(t, i + 3) {
                    Err(e) => Err(e),
                    Ok((ps, j)) => match p_expect(t, j, Token::RParen) {
                        Err(e) => Err(e),
                        Ok(k) => Ok((ps, k)),
                    },
                }
            } else {
                p_bare_params(t, i + 2)
            };
            match ps {
                Err(e) => Err(e),
                Ok((params, j)) => match p_return_type(t, j) {
                    Err(e) => Err(e),
                    Ok((return_type, k)) => match p_expect(t, k, Token::Then) {
                        Err(e) => Err(e),
                        Ok(m) => match p_block(t, m) {
                            Err(e) => Err(e),
                            Ok((body, n)) => match p_expect(t, n, Token::End) {
                                Err(e) => Err(e),
                                Ok(q) => Ok(
                                    (
                                        FuncView { exported, name: name@, params, return_type, body },
                                        q,
                                    ),
                                ),
                            },
                        },
                    },
                },
            }
        },
        other => Err(ParseError::ExpectedFunctionName(other)),
    }
}

/// Fields `name: type`, each optionally followed by a comma, with
/// semicolons between them, as long as a name follows.
pub open spec fn p_fields(t: Seq<Token>, i: int) -> Result<(Seq<ParamView>, int), ParseError>
    decreases t.len() - i,
{
    let j = skip_semis(t, i);
    if tok(t, j) is Identifier {
        match p_param(t, j) {
            Err(e) => Err(e),
            Ok((p, k)) => if moved(t, i, k) {
                match p_fields(t, k) {
                    Err(e) => Err(e),
                    Ok((rest, m)) => Ok((seq![p].add(rest), m)),
                }
            } else {
                Ok((seq![p], k))
            },
        }
    } else {
        Ok((Seq::empty(), j))
    }
}

/// `struct Name [then] fields end`.
pub open spec fn p_struct(t: Seq<Token>, i: int, exported: bool) -> Result<(TopLevelView, int), ParseError> {
    match tok(t, i + 1) {
        Token::Identifier(name) => {
            let j = if tok(t, i + 2) == Token::Then {
                i + 3
            } else {
                i + 2
            };
            match p_fields(t, j) {
                Err(e) => Err(e),
                Ok((fields, k)) => match p_expect(t, k, Token::End) {
                    Err(e) => Err(e),
                    Ok(m) => Ok((TopLevelView::Struct { exported, name: name@, fields }, m)),
                },
            }
        },
        other => Err(ParseError::ExpectedStructName(other)),
    }
}

/// A top-level `let name[: type][= expr]`, and the semicolons after it.
pub open spec fn p_top_let(t: Seq<Token>, i: int, exported: bool) -> Result<(TopLevelView, int), ParseError> {
    match tok(t, i + 1) {
        Token::Identifier(name) => match p_opt_type(t, i + 2) {
            Err(e) => Err(e),
            Ok((ty, j)) => match p_opt_value(t, j) {
                Err(e) => Err(e),
                Ok((value, k)) => Ok(
                    (TopLevelView::Let { exported, name: name@, ty, value }, skip_semis(t, k)),
                ),
            },
        },
        other => Err(ParseError::ExpectedName(other)),
    }
}

/// A top-level `const name[: type] = expr`, and the semicolons after it.
pub open spec fn p_top_const(t: Seq<Token>, i: int, exported: bool) -> Result<(TopLevelView, int), ParseError> {
    match tok(t, i + 1) {
        Token::Identifier(name) => match p_opt_type(t, i + 2) {
            Err(e) => Err(e),
            Ok((ty, j)) => match p_expect(t, j, Token::Assign) {
                Err(e) => Err(e),
                Ok(k) => match p_expr(t, k) {
                    Err(e) => Err(e),
                    Ok((value, m)) => Ok(
                        (TopLevelView::Const { exported, name: name@, ty, value }, skip_semis(t, m)),
                    ),
                },
            },
        },
        other => Err(ParseError::ExpectedName(other)),
    }
}

/// The entry block `main then ... end`.
pub open spec fn p_main(t: Seq<Token>, i: int) -> Result<(TopLevelView, int), ParseError> {
    match p_expect(t, i + 1, Token::Then) {
        Err(e) => Err(e),
        Ok(k) => match p_block(t, k) {
            Err(e) => Err(e),
            Ok((body, m)) => match p_expect(t, m, Token::End) {
                Err(e) => Err(e),
                Ok(n) => Ok((TopLevelView::Main(body), n)),
            },
        },
    }
}

/// `export` followed by a function, a struct, a `let` or a `const`.
pub open spec fn p_export(t: Seq<Token>, i: int) -> Result<(TopLevelView, int), ParseError> {
    match tok(t, i + 1) {
        Token::Func => match p_func(t, i + 1, true) {
            Err(e) => Err(e),
            Ok((f, j)) => Ok((TopLevelView::Func(f), j)),
        },
        Token::Struct => p_struct(t, i + 1, true),
        Token::Let => p_top_let(t, i + 1, true),
        Token::Const => p_top_const(t, i + 1, true),
        other => Err(ParseError::ExpectedExportable(other)),
    }
}

/// A top-level item.
pub open spec fn p_top(t: Seq<Token>, i: int) -> Result<(TopLevelView, int), ParseError> {
    match tok(t, i) {
        Token::Use => p_use(t, i),
        Token::Export => p_export(t, i),
        Token::Func => match p_func(t, i, false) {
            Err(e) => Err(e),
            Ok((f, j)) => Ok((TopLevelView::Func(f), j)),
        },
        Token::Struct => p_struct(t, i, false),
        Token::Let => p_top_let(t, i, false),
        Token::Const => p_top_const(t, i, false),
        Token::Main => p_main(t, i),
        other => Err(ParseError::UnexpectedTopLevel(other)),
    }
}

/// Top-level items, with semicolons between them, up to the first `Eof`.
pub open spec fn p_items(t: Seq<Token>, i: int) -> Result<(Seq<TopLevelView>, int), ParseError>
    decreases t.len() - i,
{
    let j = skip_semis(t, i);
    if tok(t, j) == Token::Eof {
        Ok((Seq::empty(), j))
    } else {
        match p_top(t, j) {
            Err(e) => Err(e),
            Ok((item, k)) => if moved(t, i, k) {
                match p_items(t, k) {
                    Err(e) => Err(e),
                    Ok((rest, m)) => Ok((seq![item].add(rest), m)),
                }
            } else {
                Ok((seq![item], k))
            },
        }
    }
}

/// An outcome of a parsing function agrees with its specification: the view
/// of what it parsed and the position after it, or the same error.
pub open spec fn agrees<A: View>(r: Result<A, ParseError>, s: Result<(A::V, int), ParseError>, end: int) -> bool {
    match r {
        Ok(a) => s == Ok::<(A::V, int), ParseError>((a@, end)),
        Err(e) => s == Err::<(A::V, int), ParseError>(e),
    }
}

// ---------------------------------------------------------------------------
// The parser
// ---------------------------------------------------------------------------

/// The parser: the tokens and the position reached.
pub struct Parser {
    tokens: Vec<Token>,
    position: usize,
}

/// What a parser holds: the tokens and the position reached.
pub struct ParserView {
    pub tokens: Seq<Token>,
    pub pos: int,
}

impl View for Parser {
    type V = ParserView;

    closed spec fn view(&self) -> ParserView {
        ParserView { tokens: self.tokens@, pos: self.position as int }
    }
}

impl Parser {
    #[verifier::type_invariant]
    spec fn position_in_tokens(self) -> bool {
        self.position <= self.tokens@.len()
    }

    /// The parser placed at the first token.
    pub fn new(tokens: Vec<Token>) -> (p: Parser)
        ensures
            p@.tokens == tokens@,
            p@.pos == 0,
    {
        Parser { tokens, position: 0 }
    }

    /// The token at the position reached (`Eof` past the end).
    fn current(&self) -> (k: &Token)
        ensures
            *k == tok(self@.tokens, self@.pos),
    {
        if self.position < self.tokens.len() {
            &self.tokens[self.position]
        } else {
            &Token::Eof
        }
    }

    /// The token after the one at the position reached.
    fn peek(&self) -> (k: &Token)
        ensures
            *k == tok(self@.tokens, self@.pos + 1),
    {
        if self.position < self.tokens.len() && self.position + 1 < self.tokens.len() {
            &self.tokens[self.position + 1]
        } else {
            &Token::Eof
        }
    }

    /// Moves to the next token; the position is at a token.
    fn advance(&mut self)
        requires
            old(self)@.pos < old(self)@.tokens.len(),
        ensures
            final(self)@.tokens == old(self)@.tokens,
            final(self)@.pos == old(self)@.pos + 1,
    {
        if self.position < self.tokens.len() {
            self.position = self.position + 1;
        }
    }

    /// Moves past `expected`, or reports that it is missing and stays.
    /// (`Eof` is never expected: the parser does not move past the end of
    /// the tokens.)
    fn expect(&mut self, expected: &Token) -> (r: Result<(), ParseError>)
        requires
            !(*expected is Eof),
        ensures
            final(self)@.tokens == old(self)@.tokens,
            match p_expect(old(self)@.tokens, old(self)@.pos, *expected) {
                Ok(j) => r is Ok && final(self)@.pos == j,
                Err(e) => r == Err::<(), ParseError>(e) && final(self)@.pos == old(self)@.pos,
            },
    {
        proof {
            use_type_invariant(&*self);
        }
        if self.current().same_as(expected) {
            self.advance();
            Ok(())
        } else {
            Err(ParseError::Expected { expected: expected.clone(), found: self.current().clone() })
        }
    }

    /// Moves past a run of semicolons.
    fn skip_semicolons(&mut self)
        ensures
            final(self)@.tokens == old(self)@.tokens,
            final(self)@.pos == skip_semis(old(self)@.tokens, old(self)@.pos),
    {
        proof {
            use_type_invariant(&*self);
        }
        while matches!(self.current(), Token::Semicolon)
            invariant
                self@.tokens == old(self)@.tokens,
                self@.pos <= self@.tokens.len(),
                skip_semis(self@.tokens, self@.pos) == skip_semis(old(self)@.tokens, old(self)@.pos),
            decreases self@.tokens.len() - self@.pos,
        {
            self.advance();
        }
    }

    /// An array dimension.
    fn parse_array_size(&mut self) -> (r: Result<usize, ParseError>)
        ensures
            final(self)@.tokens == old(self)@.tokens,
            match p_array_size(old(self)@.tokens, old(self)@.pos) {
                Ok((n, j)) => r == Ok::<usize, ParseError>(n) && final(self)@.pos == j,
                Err(e) => r == Err::<usize, ParseError>(e) && final(self)@.pos == old(self)@.pos,
            },
    {
        proof {
            use_type_invariant(&*self);
        }
        match self.current() {
            Token::Int(n) => {
                let size = *n as usize;
                self.advance();
                Ok(size)
            },
            other => Err(ParseError::ExpectedArraySize(other.clone())),
        }
    }

    /// A type annotation: `int`, `float`, `bool`, `string`, `byte`, `ptr`,
    /// optionally with one or two array dimensions.
    fn parse_type(&mut self) -> (r: Result<Type, ParseError>)
        ensures
            final(self)@.tokens == old(self)@.tokens,
            match p_type(old(self)@.tokens, old(self)@.pos) {
                Ok((ty, j)) => r == Ok::<Type, ParseError>(ty) && final(self)@.pos == j,
                Err(e) => r == Err::<Type, ParseError>(e)
                    && final(self)@.pos == type_error_at(old(self)@.tokens, old(self)@.pos),
            },
            r is Ok ==> old(self)@.pos < final(self)@.pos,
    {
        proof {
            use_type_invariant(&*self);
        }
        let base = match self.current() {
            Token::TypeInt => Type::Int,
            Token::TypeFloat => Type::Float,
            Token::TypeBool => Type::Bool,
            Token::TypeString => Type::StringType,
            Token::TypeByte => Type::Byte,
            Token::TypePtr => Type::Ptr,
            other => {
                return Err(ParseError::ExpectedType(other.clone()));
            },
        };
        self.advance();
        if matches!(self.current(), Token::LBracket) {
            self.advance();
            let size = self.parse_array_size()?;
            self.expect(&Token::RBracket)?;
            if matches!(self.current(), Token::LBracket) {
                self.advance();
                let size2 = self.parse_array_size()?;
                self.expect(&Token::RBracket)?;
                return Ok(Type::Array2D(Box::new(base), size, size2));
            }
            return Ok(Type::Array(Box::new(base), size));
        }
        Ok(base)
    }

    /// The binding strength of a binary operator token; `-1` for others.
    fn token_precedence(k: &Token) -> (r: i32)
        ensures
            r == precedence(*k),
            r >= 0 <==> binop_of(*k) is Some,
    {
        match k {
            Token::Or => 1,
            Token::And => 2,
            Token::Eq | Token::NotEq => 3,
            Token::Lt | Token::Gt | Token::LtEq | Token::GtEq => 4,
            Token::Plus | Token::Minus => 5,
            Token::Star | Token::Slash | Token::Percent => 6,
            _ => -1,
        }
    }

    /// The binary operator that a token stands for.
    fn token_to_binop(k: &Token) -> (r: Option<BinOp>)
        ensures
            r == binop_of(*k),
            r is Some <==> precedence(*k) >= 0,
    {
        match k {
            Token::Plus => Some(BinOp::Add),
            Token::Minus => Some(BinOp::Sub),
            Token::Star => Some(BinOp::Mul),
            Token::Slash => Some(BinOp::Div),
            Token::Percent => Some(BinOp::Mod),
            Token::Eq => Some(BinOp::Eq),
            Token::NotEq => Some(BinOp::NotEq),
            Token::Lt => Some(BinOp::Lt),
            Token::Gt => Some(BinOp::Gt),
            Token::LtEq => Some(BinOp::LtEq),
            Token::GtEq => Some(BinOp::GtEq),
            Token::And => Some(BinOp::And),
            Token::Or => Some(BinOp::Or),
            _ => None,
        }
    }

    /// An expression.
    fn parse_expr(&mut self) -> (r: Result<Expr, ParseError>)
        ensures
            final(self)@.tokens == old(self)@.tokens,
            agrees(r, p_expr(old(self)@.tokens, old(self)@.pos), final(self)@.pos),
            r is Ok ==> old(self)@.pos < final(self)@.pos,
        decreases old(self)@.tokens.len() - old(self)@.pos, 3int,
    {
        let lhs = self.parse_unary()?;
        proof {
            use_type_invariant(&*self);
        }
        self.parse_binop(0, lhs)
    }

    /// `not` and `-` prefixes, then a primary expression.
    fn parse_unary(&mut self) -> (r: Result<Expr, ParseError>)
        ensures
            final(self)@.tokens == old(self)@.tokens,
            agrees(r, p_unary(old(self)@.tokens, old(self)@.pos), final(self)@.pos),
            r is Ok ==> old(self)@.pos < final(self)@.pos,
        decreases old(self)@.tokens.len() - old(self)@.pos, 2int,
    {
        proof {
            use_type_invariant(&*self);
        }
        if matches!(self.current(), Token::Not) {
            self.advance();
            let expr = self.parse_unary()?;
            return Ok(Expr::UnaryOp { op: UnaryOp::Not, expr: Box::new(expr) });
        }
        if matches!(self.current(), Token::Minus) {
            self.advance();
            let expr = self.parse_unary()?;
            return Ok(Expr::UnaryOp { op: UnaryOp::Neg, expr: Box::new(expr) });
        }
        self.parse_primary()
    }

    /// The arguments of a call to `callee`, which start at the position
    /// reached, and the closing parenthesis.
    fn parse_call(&mut self, callee: String) -> (r: Result<Expr, ParseError>)
        ensures
            final(self)@.tokens == old(self)@.tokens,
            agrees(r, p_call(old(self)@.tokens, old(self)@.pos, callee@), final(self)@.pos),
            r is Ok ==> old(self)@.pos < final(self)@.pos,
        decreases old(self)@.tokens.len() - old(self)@.pos, 5int,
    {
        proof {
            use_type_invariant(&*self);
            lemma_views_empty();
        }
        let ghost t = self@.tokens;
        let ghost start = self@.pos;
        let mut args: Vec<Expr> = Vec::new();
        proof {
            if let Ok((rest, k)) = p_args(t, start) {
                assert(exprs_view(args@).add(rest) =~= rest);
            }
        }
        while !matches!(self.current(), Token::RParen)
            invariant
                self@.tokens == t,
                t == old(self)@.tokens,
                start == old(self)@.pos,
                start <= self@.pos <= t.len(),
                p_args(t, start) == match p_args(t, self@.pos) {
                    Ok((rest, k)) => Ok((exprs_view(args@).add(rest), k)),
                    Err(e) => Err::<(Seq<ExprView>, int), ParseError>(e),
                },
            decreases t.len() - self@.pos,
        {
            let ghost i = self@.pos;
            let e = self.parse_expr()?;
            proof {
                use_type_invariant(&*self);
            }
            if matches!(self.current(), Token::Comma) {
                self.advance();
            }
            proof {
                lemma_exprs_view_push(args@, e);
                if let Ok((rest, k)) = p_args(t, self@.pos) {
                    assert(exprs_view(args@).add(seq![e@].add(rest)) =~= exprs_view(args@).push(e@).add(rest));
                }
            }
            args.push(e);
        }
        proof {
            assert(exprs_view(args@).add(Seq::empty()) =~= exprs_view(args@));
        }
        self.expect(&Token::RParen)?;
        Ok(Expr::Call { callee, args })
    }

    /// A literal, a name, a call, a field access, a method call, or an
    /// expression in parentheses.
    fn parse_primary(&mut self) -> (r: Result<Expr, ParseError>)
        ensures
            final(self)@.tokens == old(self)@.tokens,
            agrees(r, p_primary(old(self)@.tokens, old(self)@.pos), final(self)@.pos),
            r is Ok ==> old(self)@.pos < final(self)@.pos,
        decreases old(self)@.tokens.len() - old(self)@.pos, 1int,
    {
        proof {
            use_type_invariant(&*self);
        }
        match self.current() {
            Token::Int(n) => {
                let v = *n;
                self.advance();
                Ok(Expr::IntLit(v))
            },
            Token::Float(f) => {
                let f = f.clone();
                self.advance();
                Ok(Expr::FloatLit(f))
            },
            Token::Bool(b) => {
                let b = *b;
                self.advance();
                Ok(Expr::BoolLit(b))
            },
            Token::StringLit(s) => {
                let s = s.clone();
                self.advance();
                Ok(Expr::StringLit(s))
            },
            Token::Identifier(name) => {
                let name = name.clone();
                self.advance();
                // function call?
                if matches!(self.current(), Token::LParen) {
                    self.advance();
                    return self.parse_call(name);
                }
                // field access: module.symbol
                if matches!(self.current(), Token::Dot) {
                    self.advance();
                    let field = match self.current() {
                        Token::Identifier(f) => {
                            let f = f.clone();
                            self.advance();
                            f
                        },
                        other => {
                            return Err(ParseError::ExpectedFieldName(other.clone()));
                        },
                    };
                    // a method call: object.method(args)
                    if matches!(self.current(), Token::LParen) {
                        self.advance();
                        let mut callee = name.clone();
                        push_char(&mut callee, '.');
                        callee.append(field.as_str());
                        assert(callee@ =~= name@.add(seq!['.']).add(field@));
                        return self.parse_call(callee);
                    }
                    let object = Expr::Identifier(name);
                    assert(object@ == ExprView::Identifier(name@));
                    return Ok(Expr::FieldAccess { object: Box::new(object), field });
                }
                Ok(Expr::Identifier(name))
            },
            Token::LParen => {
                self.advance();
                let expr = self.parse_expr()?;
                self.expect(&Token::RParen)?;
                Ok(expr)
            },
            other => Err(ParseError::UnexpectedToken(other.clone())),
        }
    }

    /// Binary operators by precedence climbing, with `lhs` already read.
    #[verifier::loop_isolation(false)]
    fn parse_binop(&mut self, min_prec: i32, lhs: Expr) -> (r: Result<Expr, ParseError>)
        requires
            0 <= min_prec <= 7,
        ensures
            final(self)@.tokens == old(self)@.tokens,
            agrees(r, p_binop(old(self)@.tokens, old(self)@.pos, min_prec as int, lhs@), final(self)@.pos),
            r is Ok ==> old(self)@.pos <= final(self)@.pos,
        decreases old(self)@.tokens.len() - old(self)@.pos, 0int,
    {
        proof {
            use_type_invariant(&*self);
        }
        let ghost t = self@.tokens;
        let ghost start = self@.pos;
        let ghost lhs0 = lhs@;
        let mut lhs = lhs;
        loop
            invariant
                self@.tokens == t,
                t == old(self)@.tokens,
                start == old(self)@.pos,
                start <= self@.pos <= t.len(),
                0 <= min_prec <= 7,
                p_binop(t, start, min_prec as int, lhs0) == p_binop(t, self@.pos, min_prec as int, lhs@),
            decreases t.len() - self@.pos,
        {
            let prec = Self::token_precedence(self.current());
            if prec < min_prec {
                break;
            }
            let op = match Self::token_to_binop(self.current()) {
                Some(op) => op,
                None => {
                    proof {
                        assert(false);
                    }
                    return Ok(lhs);
                },
            };
            let ghost i = self@.pos;
            self.advance();
            let mut rhs = self.parse_unary()?;
            proof {
                use_type_invariant(&*self);
            }
            let next_prec = Self::token_precedence(self.current());
            if next_prec > prec {
                rhs = self.parse_binop(prec + 1, rhs)?;
                proof {
                    use_type_invariant(&*self);
                }
            }
            lhs = Expr::BinaryOp { op, lhs: Box::new(lhs), rhs: Box::new(rhs) };
        }
        Ok(lhs)
    }

    /// An optional type annotation `: type`.
    fn parse_type_annotation(&mut self) -> (r: Result<Option<Type>, ParseError>)
        ensures
            final(self)@.tokens == old(self)@.tokens,
            match p_opt_type(old(self)@.tokens, old(self)@.pos) {
                Ok((ty, j)) => r == Ok::<Option<Type>, ParseError>(ty) && final(self)@.pos == j,
                Err(e) => r == Err::<Option<Type>, ParseError>(e),
            },
            r is Ok ==> old(self)@.pos <= final(self)@.pos,
    {
        proof {
            use_type_invariant(&*self);
        }
        if matches!(self.current(), Token::Colon) {
            self.advance();
            Ok(Some(self.parse_type()?))
        } else {
            Ok(None)
        }
    }

    /// An optional initializer `= expr`.
    fn parse_initializer(&mut self) -> (r: Result<Option<Expr>, ParseError>)
        ensures
            final(self)@.tokens == old(self)@.tokens,
            match p_opt_value(old(self)@.tokens, old(self)@.pos) {
                Ok((v, j)) => r matches Ok(x) && opt_expr_view(x) == v && final(self)@.pos == j,
                Err(e) => r == Err::<Option<Expr>, ParseError>(e),
            },
            r is Ok ==> old(self)@.pos <= final(self)@.pos,
    {
        proof {
            use_type_invariant(&*self);
        }
        if matches!(self.current(), Token::Assign) {
            self.advance();
            Ok(Some(self.parse_expr()?))
        } else {
            Ok(None)
        }
    }

    /// The words of a variable declaration after `let`.
    fn parse_let_rest(&mut self) -> (r: Result<Stmt, ParseError>)
        ensures
            final(self)@.tokens == old(self)@.tokens,
            agrees(r, p_let_rest(old(self)@.tokens, old(self)@.pos), final(self)@.pos),
            r is Ok ==> old(self)@.pos < final(self)@.pos,
    {
        proof {
            use_type_invariant(&*self);
        }
        let name = match self.current() {
            Token::Identifier(n) => {
                let n = n.clone();
                self.advance();
                n
            },
            other => {
                return Err(ParseError::ExpectedVariableName(other.clone()));
            },
        };
        let ty = self.parse_type_annotation()?;
        let value = self.parse_initializer()?;
        Ok(Stmt::Let { name, ty, value })
    }

    /// `let name[: type][= expr]`.
    fn parse_let(&mut self) -> (r: Result<Stmt, ParseError>)
        requires
            old(self)@.pos < old(self)@.tokens.len(),
        ensures
            final(self)@.tokens == old(self)@.tokens,
            agrees(r, p_let(old(self)@.tokens, old(self)@.pos), final(self)@.pos),
            r is Ok ==> old(self)@.pos < final(self)@.pos,
    {
        self.advance();  // eat 'let'
        self.parse_let_rest()
    }

    /// `const name[: type] = expr`.
    fn parse_const(&mut self) -> (r: Result<Stmt, ParseError>)
        requires
            old(self)@.pos < old(self)@.tokens.len(),
        ensures
            final(self)@.tokens == old(self)@.tokens,
            agrees(r, p_const(old(self)@.tokens, old(self)@.pos), final(self)@.pos),
            r is Ok ==> old(self)@.pos < final(self)@.pos,
    {
        self.advance();  // eat 'const'
        proof {
            use_type_invariant(&*self);
        }
        let name = match self.current() {
            Token::Identifier(n) => {
                let n = n.clone();
                self.advance();
                n
            },
            other => {
                return Err(ParseError::ExpectedName(other.clone()));
            },
        };
        let ty = self.parse_type_annotation()?;
        self.expect(&Token::Assign)?;
        let value = self.parse_expr()?;
        Ok(Stmt::Const { name, ty, value })
    }

    /// `return` with an optional value.
    fn parse_return(&mut self) -> (r: Result<Stmt, ParseError>)
        requires
            old(self)@.pos < old(self)@.tokens.len(),
        ensures
            final(self)@.tokens == old(self)@.tokens,
            agrees(r, p_return(old(self)@.tokens, old(self)@.pos), final(self)@.pos),
            r is Ok ==> old(self)@.pos < final(self)@.pos,
    {
        self.advance();  // eat 'return'
        if matches!(self.current(), Token::Semicolon | Token::End) {
            Ok(Stmt::Return(None))
        } else {
            Ok(Stmt::Return(Some(self.parse_expr()?)))
        }
    }

    /// An expression statement or an assignment.
    fn parse_expr_or_assign(&mut self) -> (r: Result<Stmt, ParseError>)
        ensures
            final(self)@.tokens == old(self)@.tokens,
            agrees(r, p_expr_or_assign(old(self)@.tokens, old(self)@.pos), final(self)@.pos),
            r is Ok ==> old(self)@.pos < final(self)@.pos,
    {
        let expr = self.parse_expr()?;
        proof {
            use_type_invariant(&*self);
        }
        if matches!(self.current(), Token::Assign) {
            self.advance();
            let value = self.parse_expr()?;
            if let Expr::Identifier(name) = expr {
                return Ok(Stmt::Assign { target: name, value });
            } else {
                return Err(ParseError::InvalidAssignTarget);
            }
        }
        let compound = match self.current() {
            Token::PlusAssign => Some(BinOp::Add),
            Token::MinusAssign => Some(BinOp::Sub),
            Token::StarAssign => Some(BinOp::Mul),
            Token::SlashAssign => Some(BinOp::Div),
            _ => None,
        };
        if let Some(op) = compound {
            self.advance();
            let value = self.parse_expr()?;
            if let Expr::Identifier(name) = expr {
                let target = name.clone();
                let var = Expr::Identifier(name);
                let ghost vv = var@;
                assert(vv == ExprView::Identifier(target@));
                return Ok(
                    Stmt::Assign {
                        target,
                        value: Expr::BinaryOp { op, lhs: Box::new(var), rhs: Box::new(value) },
                    },
                );
            } else {
                return Err(ParseError::InvalidAssignTarget);
            }
        }
        let step = match self.current() {
            Token::PlusPlus => Some(BinOp::Add),
            Token::MinusMinus => Some(BinOp::Sub),
            _ => None,
        };
        if let Some(op) = step {
            self.advance();
            if let Expr::Identifier(name) = expr {
                let target = name.clone();
                let var = Expr::Identifier(name);
                let one = Expr::IntLit(1);
                assert(var@ == ExprView::Identifier(target@));
                assert(one@ == ExprView::IntLit(1));
                return Ok(
                    Stmt::Assign {
                        target,
                        value: Expr::BinaryOp { op, lhs: Box::new(var), rhs: Box::new(one) },
                    },
                );
            } else {
                return Err(ParseError::InvalidAssignTarget);
            }
        }
        Ok(Stmt::ExprStmt(expr))
    }

    /// A block of statements up to `end`, `else` or the end of the tokens.
    fn parse_block(&mut self) -> (r: Result<Vec<Stmt>, ParseError>)
        ensures
            final(self)@.tokens == old(self)@.tokens,
            match r {
                Ok(b) => p_block(old(self)@.tokens, old(self)@.pos) == Ok::<(Seq<StmtView>, int), ParseError>(
                    (stmts_view(b@), final(self)@.pos),
                ),
                Err(e) => p_block(old(self)@.tokens, old(self)@.pos) == Err::<(Seq<StmtView>, int), ParseError>(e),
            },
            r is Ok ==> old(self)@.pos <= final(self)@.pos,
        decreases old(self)@.tokens.len() - old(self)@.pos, 3int,
    {
        proof {
            use_type_invariant(&*self);
            lemma_views_empty();
        }
        let ghost t = self@.tokens;
        let ghost start = self@.pos;
        let mut stmts: Vec<Stmt> = Vec::new();
        proof {
            if let Ok((rest, n)) = p_block(t, start) {
                assert(stmts_view(stmts@).add(rest) =~= rest);
            }
        }
        loop
            invariant
                self@.tokens == t,
                t == old(self)@.tokens,
                start == old(self)@.pos,
                start <= self@.pos <= t.len(),
                p_block(t, start) == match p_block(t, self@.pos) {
                    Ok((rest, n)) => Ok((stmts_view(stmts@).add(rest), n)),
                    Err(e) => Err::<(Seq<StmtView>, int), ParseError>(e),
                },
            ensures
                self@.tokens == t,
                start <= self@.pos <= t.len(),
                p_block(t, start) == Ok::<(Seq<StmtView>, int), ParseError>(
                    (stmts_view(stmts@), self@.pos),
                ),
            decreases t.len() - self@.pos,
        {
            let ghost i = self@.pos;
            self.skip_semicolons();
            proof {
                lemma_skip_semis_bounds(t, i);
            }
            match self.current() {
                Token::End | Token::Else | Token::Eof => {
                    proof {
                        assert(stmts_view(stmts@).add(Seq::empty()) =~= stmts_view(stmts@));
                    }
                    break;
                },
                _ => {
                    let st = self.parse_stmt()?;
                    proof {
                        use_type_invariant(&*self);
                        lemma_stmts_view_push(stmts@, st);
                        if let Ok((rest, n)) = p_block(t, self@.pos) {
                            assert(stmts_view(stmts@).add(seq![st@].add(rest)) =~= stmts_view(
                                stmts@,
                            ).push(st@).add(rest));
                        }
                    }
                    stmts.push(st);
                },
            }
        }
        Ok(stmts)
    }

    /// A statement and the semicolons after it.
    fn parse_stmt(&mut self) -> (r: Result<Stmt, ParseError>)
        ensures
            final(self)@.tokens == old(self)@.tokens,
            agrees(r, p_stmt(old(self)@.tokens, old(self)@.pos), final(self)@.pos),
            r is Ok ==> old(self)@.pos < final(self)@.pos,
        decreases old(self)@.tokens.len() - old(self)@.pos, 2int,
    {
        proof {
            use_type_invariant(&*self);
        }
        let stmt = match self.current() {
            Token::Let => self.parse_let(),
            Token::Const => self.parse_const(),
            Token::Return => self.parse_return(),
            Token::Break => {
                self.advance();
                let ghost b = self@.pos;
                self.skip_semicolons();
                proof {
                    lemma_skip_semis_bounds(self@.tokens, b);
                }
                Ok(Stmt::Break)
            },
            Token::Continue => {
                self.advance();
                let ghost b = self@.pos;
                self.skip_semicolons();
                proof {
                    lemma_skip_semis_bounds(self@.tokens, b);
                }
                Ok(Stmt::Continue)
            },
            Token::If => self.parse_if(),
            Token::While => self.parse_while(),
            Token::For => self.parse_for(),
            Token::Loop => self.parse_loop(),
            _ => self.parse_expr_or_assign(),
        }?;
        let ghost j = self@.pos;
        self.skip_semicolons();
        proof {
            lemma_skip_semis_bounds(self@.tokens, j);
        }
        Ok(stmt)
    }

    /// `if cond then ... [else if cond then ...]* [else [then] ...] end`.
    fn parse_if(&mut self) -> (r: Result<Stmt, ParseError>)
        requires
            old(self)@.pos < old(self)@.tokens.len(),
        ensures
            final(self)@.tokens == old(self)@.tokens,
            agrees(r, p_if(old(self)@.tokens, old(self)@.pos), final(self)@.pos),
            r is Ok ==> old(self)@.pos < final(self)@.pos,
        decreases old(self)@.tokens.len() - old(self)@.pos, 1int,
    {
        let ghost t = self@.tokens;
        let ghost start = self@.pos;
        self.advance();  // eat 'if'
        let condition = self.parse_expr()?;
        self.expect(&Token::Then)?;
        proof {
            use_type_invariant(&*self);
        }
        let body = self.parse_block()?;
        proof {
            use_type_invariant(&*self);
            lemma_views_empty();
        }
        let ghost m0 = self@.pos;
        let mut else_ifs: Vec<(Expr, Vec<Stmt>)> = Vec::new();
        let mut else_body: Option<Vec<Stmt>> = None;
        proof {
            if let Ok(((eis, eb), n)) = p_elses(t, m0) {
                assert(else_ifs_view(else_ifs@).add(eis) =~= eis);
            }
        }
        while matches!(self.current(), Token::Else)
            invariant_except_break
                else_body is None,
                p_elses(t, m0) == match p_elses(t, self@.pos) {
                    Ok(((eis, eb), n)) => Ok(((else_ifs_view(else_ifs@).add(eis), eb), n)),
                    Err(e) => Err::<((Seq<(ExprView, Seq<StmtView>)>, Option<Seq<StmtView>>), int), ParseError>(e),
                },
            invariant
                self@.tokens == t,
                t == old(self)@.tokens,
                start == old(self)@.pos,
                start < m0 <= self@.pos <= t.len(),
                p_if(t, start) == match p_elses(t, m0) {
                    Err(e) => Err(e),
                    Ok(((eis, eb), n)) => match p_expect(t, n, Token::End) {
                        Err(e) => Err(e),
                        Ok(q) => Ok(
                            (
                                StmtView::If {
                                    condition: condition@,
                                    body: stmts_view(body@),
                                    else_ifs: eis,
                                    else_body: eb,
                                },
                                q,
                            ),
                        ),
                    },
                },
            ensures
                self@.tokens == t,
                start < self@.pos <= t.len(),
                p_elses(t, m0) == Ok::<((Seq<(ExprView, Seq<StmtView>)>, Option<Seq<StmtView>>), int), ParseError>(
                    ((else_ifs_view(else_ifs@), opt_stmts_view(else_body)), self@.pos),
                ),
            decreases t.len() - self@.pos,
        {
            let ghost i = self@.pos;
            self.advance();  // eat 'else'
            if matches!(self.current(), Token::If) {
                self.advance();  // eat 'if'
                let ei_cond = self.parse_expr()?;
                self.expect(&Token::Then)?;
                proof {
                    use_type_invariant(&*self);
                }
                let ei_body = self.parse_block()?;
                proof {
                    use_type_invariant(&*self);
                    lemma_else_ifs_view_push(else_ifs@, (ei_cond, ei_body));
                    if let Ok(((eis, eb), n)) = p_elses(t, self@.pos) {
                        assert(else_ifs_view(else_ifs@).add(
                            seq![(ei_cond@, stmts_view(ei_body@))].add(eis),
                        ) =~= else_ifs_view(else_ifs@).push((ei_cond@, stmts_view(ei_body@))).add(
                            eis,
                        ));
                    }
                }
                else_ifs.push((ei_cond, ei_body));
            } else {
                // a plain else, which may be followed by 'then'
                if matches!(self.current(), Token::Then) {
                    self.advance();
                }
                let b = self.parse_block()?;
                proof {
                    use_type_invariant(&*self);
                    assert(else_ifs_view(else_ifs@).add(Seq::empty()) =~= else_ifs_view(else_ifs@));
                }
                else_body = Some(b);
                break;
            }
        }
        proof {
            assert(else_ifs_view(else_ifs@).add(Seq::empty()) =~= else_ifs_view(else_ifs@));
        }
        self.expect(&Token::End)?;
        Ok(Stmt::If { condition, body, else_ifs, else_body })
    }

    /// `while cond then ... end`.
    fn parse_while(&mut self) -> (r: Result<Stmt, ParseError>)
        requires
            old(self)@.pos < old(self)@.tokens.len(),
        ensures
            final(self)@.tokens == old(self)@.tokens,
            agrees(r, p_while(old(self)@.tokens, old(self)@.pos), final(self)@.pos),
            r is Ok ==> old(self)@.pos < final(self)@.pos,
        decreases old(self)@.tokens.len() - old(self)@.pos, 1int,
    {
        self.advance();  // eat 'while'
        let condition = self.parse_expr()?;
        self.expect(&Token::Then)?;
        proof {
            use_type_invariant(&*self);
        }
        let body = self.parse_block()?;
        self.expect(&Token::End)?;
        Ok(Stmt::While { condition, body })
    }

    /// `for [let] name[: type][= expr]; cond; step then ... end`.
    fn parse_for(&mut self) -> (r: Result<Stmt, ParseError>)
        requires
            old(self)@.pos < old(self)@.tokens.len(),
        ensures
            final(self)@.tokens == old(self)@.tokens,
            agrees(r, p_for(old(self)@.tokens, old(self)@.pos), final(self)@.pos),
            r is Ok ==> old(self)@.pos < final(self)@.pos,
        decreases old(self)@.tokens.len() - old(self)@.pos, 1int,
    {
        self.advance();  // eat 'for'
        proof {
            use_type_invariant(&*self);
        }
        if matches!(self.current(), Token::Let) {
            self.advance();
        }
        let init = self.parse_let_rest()?;
        self.expect(&Token::Semicolon)?;
        let condition = self.parse_expr()?;
        self.expect(&Token::Semicolon)?;
        let step = self.parse_expr_or_assign()?;
        self.expect(&Token::Then)?;
        proof {
            use_type_invariant(&*self);
        }
        let body = self.parse_block()?;
        self.expect(&Token::End)?;
        Ok(Stmt::For { init: Box::new(init), condition, step: Box::new(step), body })
    }

    /// `loop then ... end`.
    fn parse_loop(&mut self) -> (r: Result<Stmt, ParseError>)
        requires
            old(self)@.pos < old(self)@.tokens.len(),
        ensures
            final(self)@.tokens == old(self)@.tokens,
            agrees(r, p_loop(old(self)@.tokens, old(self)@.pos), final(self)@.pos),
            r is Ok ==> old(self)@.pos < final(self)@.pos,
        decreases old(self)@.tokens.len() - old(self)@.pos, 1int,
    {
        self.advance();  // eat 'loop'
        self.expect(&Token::Then)?;
        proof {
            use_type_invariant(&*self);
        }
        let body = self.parse_block()?;
        self.expect(&Token::End)?;
        Ok(Stmt::Loop { body })
    }

    /// A whole program: top-level items up to the first `Eof`.
    pub fn parse_program(&mut self) -> (r: Result<Vec<TopLevel>, ParseError>)
        ensures
            final(self)@.tokens == old(self)@.tokens,
            match p_items(old(self)@.tokens, old(self)@.pos) {
                Ok((items, j)) => r matches Ok(v) && top_levels_view(v@) == items && final(self)@.pos == j,
                Err(e) => r == Err::<Vec<TopLevel>, ParseError>(e),
            },
    {
        proof {
            use_type_invariant(&*self);
        }
        let ghost t = self@.tokens;
        let ghost start = self@.pos;
        let mut items: Vec<TopLevel> = Vec::new();
        proof {
            if let Ok((rest, m)) = p_items(t, start) {
                assert(top_levels_view(items@).add(rest) =~= rest);
            }
        }
        loop
            invariant
                self@.tokens == t,
                t == old(self)@.tokens,
                start == old(self)@.pos,
                start <= self@.pos <= t.len(),
                p_items(t, start) == match p_items(t, self@.pos) {
                    Ok((rest, m)) => Ok((top_levels_view(items@).add(rest), m)),
                    Err(e) => Err::<(Seq<TopLevelView>, int), ParseError>(e),
                },
            ensures
                self@.tokens == t,
                p_items(t, start) == Ok::<(Seq<TopLevelView>, int), ParseError>(
                    (top_levels_view(items@), self@.pos),
                ),
            decreases t.len() - self@.pos,
        {
            let ghost i = self@.pos;
            proof {
                lemma_skip_semis_bounds(t, i);
            }
            if matches!(self.current(), Token::Eof) {
                proof {
                    assert(top_levels_view(items@).add(Seq::empty()) =~= top_levels_view(items@));
                }
                break;
            }
            self.skip_semicolons();
            if matches!(self.current(), Token::Eof) {
                proof {
                    assert(top_levels_view(items@).add(Seq::empty()) =~= top_levels_view(items@));
                }
                break;
            }
            let item = self.parse_top_level()?;
            proof {
                use_type_invariant(&*self);
                assert(top_levels_view(items@.push(item)) =~= top_levels_view(items@).push(item@));
                if let Ok((rest, m)) = p_items(t, self@.pos) {
                    assert(top_levels_view(items@).add(seq![item@].add(rest)) =~= top_levels_view(
                        items@,
                    ).push(item@).add(rest));
                }
            }
            items.push(item);
        }
        Ok(items)
    }

    /// A top-level item.
    fn parse_top_level(&mut self) -> (r: Result<TopLevel, ParseError>)
        ensures
            final(self)@.tokens == old(self)@.tokens,
            agrees(r, p_top(old(self)@.tokens, old(self)@.pos), final(self)@.pos),
            r is Ok ==> old(self)@.pos < final(self)@.pos,
    {
        proof {
            use_type_invariant(&*self);
        }
        match self.current() {
            Token::Use => self.parse_use(),
            Token::Export => self.parse_export(),
            Token::Func => Ok(TopLevel::Func(self.parse_func(false)?)),
            Token::Struct => self.parse_struct(false),
            Token::Let => self.parse_top_let(false),
            Token::Const => self.parse_top_const(false),
            Token::Main => self.parse_main(),
            other => Err(ParseError::UnexpectedTopLevel(other.clone())),
        }
    }

    /// `use console;` or `use console.print;`.
    fn parse_use(&mut self) -> (r: Result<TopLevel, ParseError>)
        requires
            old(self)@.pos < old(self)@.tokens.len(),
        ensures
            final(self)@.tokens == old(self)@.tokens,
            agrees(r, p_use(old(self)@.tokens, old(self)@.pos), final(self)@.pos),
            r is Ok ==> old(self)@.pos < final(self)@.pos,
    {
        let ghost t = self@.tokens;
        self.advance();  // eat 'use'
        proof {
            use_type_invariant(&*self);
        }
        let mut path: Vec<String> = Vec::new();
        let first = match self.current() {
            Token::Identifier(name) => {
                let name = name.clone();
                self.advance();
                name
            },
            other => {
                return Err(ParseError::ExpectedModuleName(other.clone()));
            },
        };
        let ghost first_view = first@;
        path.push(first);
        let ghost s0 = self@.pos;
        let ghost mut segs: Seq<Seq<char>> = Seq::empty();
        proof {
            assert(path@.map_values(|s: String| s@) =~= seq![first_view].add(segs));
            if let Ok((rest, k)) = p_path_rest(t, s0) {
                assert(segs.add(rest) =~= rest);
            }
        }
        while matches!(self.current(), Token::Dot)
            invariant
                self@.tokens == t,
                t == old(self)@.tokens,
                old(self)@.pos < s0 <= self@.pos <= t.len(),
                path@.map_values(|s: String| s@) == seq![first_view].add(segs),
                p_use(t, old(self)@.pos) == match p_path_rest(t, s0) {
                    Ok((rest, k)) => Ok((TopLevelView::Use(seq![first_view].add(rest)), skip_semis(t, k))),
                    Err(e) => Err::<(TopLevelView, int), ParseError>(e),
                },
                p_path_rest(t, s0) == match p_path_rest(t, self@.pos) {
                    Ok((rest, k)) => Ok((segs.add(rest), k)),
                    Err(e) => Err::<(Seq<Seq<char>>, int), ParseError>(e),
                },
            decreases t.len() - self@.pos,
        {
            self.advance();  // eat '.'
            let seg = match self.current() {
                Token::Identifier(name) => {
                    let name = name.clone();
                    self.advance();
                    name
                },
                other => {
                    return Err(ParseError::ExpectedPathSegment(other.clone()));
                },
            };
            proof {
                let old_segs = segs;
                segs = segs.push(seg@);
                assert(path@.push(seg).map_values(|s: String| s@) =~= path@.map_values(|s: String| s@).push(seg@));
                assert(seq![first_view].add(old_segs).push(seg@) =~= seq![first_view].add(segs));
                if let Ok((rest, k)) = p_path_rest(t, self@.pos) {
                    assert(old_segs.add(seq![seg@].add(rest)) =~= segs.add(rest));
                }
            }
            path.push(seg);
        }
        proof {
            assert(segs.add(Seq::empty()) =~= segs);
        }
        let ghost k = self@.pos;
        self.skip_semicolons();
        proof {
            lemma_skip_semis_bounds(t, k);
        }
        Ok(TopLevel::Use(UseDecl { path }))
    }

    /// `export func`, `export struct`, `export let` or `export const`.
    fn parse_export(&mut self) -> (r: Result<TopLevel, ParseError>)
        requires
            old(self)@.pos < old(self)@.tokens.len(),
        ensures
            final(self)@.tokens == old(self)@.tokens,
            agrees(r, p_export(old(self)@.tokens, old(self)@.pos), final(self)@.pos),
            r is Ok ==> old(self)@.pos < final(self)@.pos,
    {
        self.advance();  // eat 'export'
        proof {
            use_type_invariant(&*self);
        }
        match self.current() {
            Token::Func => Ok(TopLevel::Func(self.parse_func(true)?)),
            Token::Struct => self.parse_struct(true),
            Token::Let => self.parse_top_let(true),
            Token::Const => self.parse_top_const(true),
            other => Err(ParseError::ExpectedExportable(other.clone())),
        }
    }

    /// One parameter `name: type`, and a comma after it if there is one.
    fn parse_param(&mut self) -> (r: Result<Param, ParseError>)
        ensures
            final(self)@.tokens == old(self)@.tokens,
            agrees(r, p_param(old(self)@.tokens, old(self)@.pos), final(self)@.pos),
            r is Ok ==> old(self)@.pos < final(self)@.pos,
    {
        proof {
            use_type_invariant(&*self);
        }
        let name = match self.current() {
            Token::Identifier(n) => {
                let n = n.clone();
                self.advance();
                n
            },
            other => {
                return Err(ParseError::ExpectedParamName(other.clone()));
            },
        };
        self.expect(&Token::Colon)?;
        let ty = self.parse_type()?;
        proof {
            use_type_invariant(&*self);
        }
        if matches!(self.current(), Token::Comma) {
            self.advance();
        }
        Ok(Param { name, ty })
    }

    /// Comma-separated parameters `name: type` up to a closing parenthesis.
    fn parse_params(&mut self) -> (r: Result<Vec<Param>, ParseError>)
        ensures
            final(self)@.tokens == old(self)@.tokens,
            match r {
                Ok(ps) => p_params(old(self)@.tokens, old(self)@.pos) == Ok::<(Seq<ParamView>, int), ParseError>(
                    (params_view(ps@), final(self)@.pos),
                ),
                Err(e) => p_params(old(self)@.tokens, old(self)@.pos) == Err::<(Seq<ParamView>, int), ParseError>(e),
            },
            r is Ok ==> old(self)@.pos <= final(self)@.pos,
    {
        proof {
            use_type_invariant(&*self);
        }
        let ghost t = self@.tokens;
        let ghost start = self@.pos;
        let mut params: Vec<Param> = Vec::new();
        proof {
            if let Ok((rest, m)) = p_params(t, start) {
                assert(params_view(params@).add(rest) =~= rest);
            }
        }
        while !matches!(self.current(), Token::RParen)
            invariant
                self@.tokens == t,
                t == old(self)@.tokens,
                start == old(self)@.pos,
                start <= self@.pos <= t.len(),
                p_params(t, start) == match p_params(t, self@.pos) {
                    Ok((rest, m)) => Ok((params_view(params@).add(rest), m)),
                    Err(e) => Err::<(Seq<ParamView>, int), ParseError>(e),
                },
            decreases t.len() - self@.pos,
        {
            let p = self.parse_param()?;
            proof {
                use_type_invariant(&*self);
                assert(params_view(params@.push(p)) =~= params_view(params@).push(p@));
                if let Ok((rest, m)) = p_params(t, self@.pos) {
                    assert(params_view(params@).add(seq![p@].add(rest)) =~= params_view(params@).push(
                        p@,
                    ).add(rest));
                }
            }
            params.push(p);
        }
        proof {
            assert(params_view(params@).add(Seq::empty()) =~= params_view(params@));
        }
        Ok(params)
    }

    /// Parameters `name: type` without parentheses, as long as a name follows.
    fn parse_bare_params(&mut self) -> (r: Result<Vec<Param>, ParseError>)
        ensures
            final(self)@.tokens == old(self)@.tokens,
            match r {
                Ok(ps) => p_bare_params(old(self)@.tokens, old(self)@.pos) == Ok::<(Seq<ParamView>, int), ParseError>(
                    (params_view(ps@), final(self)@.pos),
                ),
                Err(e) => p_bare_params(old(self)@.tokens, old(self)@.pos) == Err::<(Seq<ParamView>, int), ParseError>(e),
            },
            r is Ok ==> old(self)@.pos <= final(self)@.pos,
    {
        proof {
            use_type_invariant(&*self);
        }
        let ghost t = self@.tokens;
        let ghost start = self@.pos;
        let mut params: Vec<Param> = Vec::new();
        proof {
            if let Ok((rest, m)) = p_bare_params(t, start) {
                assert(params_view(params@).add(rest) =~= rest);
            }
        }
        while matches!(self.current(), Token::Identifier(_))
            invariant
                self@.tokens == t,
                t == old(self)@.tokens,
                start == old(self)@.pos,
                start <= self@.pos <= t.len(),
                p_bare_params(t, start) == match p_bare_params(t, self@.pos) {
                    Ok((rest, m)) => Ok((params_view(params@).add(rest), m)),
                    Err(e) => Err::<(Seq<ParamView>, int), ParseError>(e),
                },
            decreases t.len() - self@.pos,
        {
            let p = self.parse_param()?;
            proof {
                use_type_invariant(&*self);
                assert(params_view(params@.push(p)) =~= params_view(params@).push(p@));
                if let Ok((rest, m)) = p_bare_params(t, self@.pos) {
                    assert(params_view(params@).add(seq![p@].add(rest)) =~= params_view(params@).push(
                        p@,
                    ).add(rest));
                }
            }
            params.push(p);
        }
        proof {
            assert(params_view(params@).add(Seq::empty()) =~= params_view(params@));
        }
        Ok(params)
    }

    /// An optional return type: `: type` or `return: type`.
    fn parse_return_type(&mut self) -> (r: Result<Option<Type>, ParseError>)
        ensures
            final(self)@.tokens == old(self)@.tokens,
            match p_return_type(old(self)@.tokens, old(self)@.pos) {
                Ok((ty, j)) => r == Ok::<Option<Type>, ParseError>(ty) && final(self)@.pos == j,
                Err(e) => r == Err::<Option<Type>, ParseError>(e),
            },
            r is Ok ==> old(self)@.pos <= final(self)@.pos,
    {
        proof {
            use_type_invariant(&*self);
        }
        if matches!(self.current(), Token::Colon) {
            self.advance();
            Ok(Some(self.parse_type()?))
        } else if matches!(self.current(), Token::Return) {
            self.advance();
            self.expect(&Token::Colon)?;
            Ok(Some(self.parse_type()?))
        } else {
            Ok(None)
        }
    }

    /// A function definition; the position is at `func`.
    fn parse_func(&mut self, exported: bool) -> (r: Result<FuncDef, ParseError>)
        requires
            old(self)@.pos < old(self)@.tokens.len(),
        ensures
            final(self)@.tokens == old(self)@.tokens,
            agrees(r, p_func(old(self)@.tokens, old(self)@.pos, exported), final(self)@.pos),
            r is Ok ==> old(self)@.pos < final(self)@.pos,
    {
        self.advance();  // eat 'func'
        proof {
            use_type_invariant(&*self);
        }
        let name = match self.current() {
            Token::Identifier(n) => {
                let n = n.clone();
                self.advance();
                n
            },
            other => {
                return Err(ParseError::ExpectedFunctionName(other.clone()));
            },
        };
        proof {
            use_type_invariant(&*self);
        }
        let params = if matches!(self.current(), Token::LParen) {
            self.advance();
            let params = self.parse_params()?;
            self.expect(&Token::RParen)?;
            params
        } else {
            self.parse_bare_params()?
        };
        let return_type = self.parse_return_type()?;
        self.expect(&Token::Then)?;
        let body = self.parse_block()?;
        self.expect(&Token::End)?;
        Ok(FuncDef { exported, name, params, return_type, body })
    }

    /// A top-level `let`; the position is at `let`.
    fn parse_top_let(&mut self, exported: bool) -> (r: Result<TopLevel, ParseError>)
        requires
            old(self)@.pos < old(self)@.tokens.len(),
        ensures
            final(self)@.tokens == old(self)@.tokens,
            agrees(r, p_top_let(old(self)@.tokens, old(self)@.pos, exported), final(self)@.pos),
            r is Ok ==> old(self)@.pos < final(self)@.pos,
    {
        self.advance();  // eat 'let'
        proof {
            use_type_invariant(&*self);
        }
        let name = match self.current() {
            Token::Identifier(n) => {
                let n = n.clone();
                self.advance();
                n
            },
            other => {
                return Err(ParseError::ExpectedName(other.clone()));
            },
        };
        let ty = self.parse_type_annotation()?;
        let value = self.parse_initializer()?;
        let ghost k = self@.pos;
        self.skip_semicolons();
        proof {
            lemma_skip_semis_bounds(self@.tokens, k);
        }
        Ok(TopLevel::Let { exported, name, ty, value })
    }

    /// A top-level `const`; the position is at `const`.
    fn parse_top_const(&mut self, exported: bool) -> (r: Result<TopLevel, ParseError>)
        requires
            old(self)@.pos < old(self)@.tokens.len(),
        ensures
            final(self)@.tokens == old(self)@.tokens,
            agrees(r, p_top_const(old(self)@.tokens, old(self)@.pos, exported), final(self)@.pos),
            r is Ok ==> old(self)@.pos < final(self)@.pos,
    {
        self.advance();  // eat 'const'
        proof {
            use_type_invariant(&*self);
        }
        let name = match self.current() {
            Token::Identifier(n) => {
                let n = n.clone();
                self.advance();
                n
            },
            other => {
                return Err(ParseError::ExpectedName(other.clone()));
            },
        };
        let ty = self.parse_type_annotation()?;
        self.expect(&Token::Assign)?;
        let value = self.parse_expr()?;
        let ghost k = self@.pos;
        self.skip_semicolons();
        proof {
            lemma_skip_semis_bounds(self@.tokens, k);
        }
        Ok(TopLevel::Const { exported, name, ty, value })
    }

    /// Fields `name: type` as long as a name follows, skipping the semicolons
    /// before each of them and after the last.
    fn parse_fields(&mut self) -> (r: Result<Vec<Param>, ParseError>)
        ensures
            final(self)@.tokens == old(self)@.tokens,
            match r {
                Ok(ps) => p_fields(old(self)@.tokens, old(self)@.pos) == Ok::<(Seq<ParamView>, int), ParseError>(
                    (params_view(ps@), final(self)@.pos),
                ),
                Err(e) => p_fields(old(self)@.tokens, old(self)@.pos) == Err::<(Seq<ParamView>, int), ParseError>(e),
            },
            r is Ok ==> old(self)@.pos <= final(self)@.pos,
    {
        proof {
            use_type_invariant(&*self);
        }
        let ghost t = self@.tokens;
        let ghost start = self@.pos;
        let mut fields: Vec<Param> = Vec::new();
        proof {
            if let Ok((rest, m)) = p_fields(t, start) {
                assert(params_view(fields@).add(rest) =~= rest);
            }
        }
        loop
            invariant
                self@.tokens == t,
                t == old(self)@.tokens,
                start == old(self)@.pos,
                start <= self@.pos <= t.len(),
                p_fields(t, start) == match p_fields(t, self@.pos) {
                    Ok((rest, m)) => Ok((params_view(fields@).add(rest), m)),
                    Err(e) => Err::<(Seq<ParamView>, int), ParseError>(e),
                },
            decreases t.len() - self@.pos,
        {
            let ghost before = self@.pos;
            self.skip_semicolons();
            proof {
                lemma_skip_semis_bounds(t, before);
            }
            if !matches!(self.current(), Token::Identifier(_)) {
                proof {
                    assert(params_view(fields@).add(Seq::empty()) =~= params_view(fields@));
                }
                return Ok(fields);
            }
            let p = self.parse_param()?;
            proof {
                use_type_invariant(&*self);
                assert(params_view(fields@.push(p)) =~= params_view(fields@).push(p@));
                if let Ok((rest, m)) = p_fields(t, self@.pos) {
                    assert(params_view(fields@).add(seq![p@].add(rest)) =~= params_view(fields@).push(
                        p@,
                    ).add(rest));
                }
            }
            fields.push(p);
        }
    }

    /// A struct definition `struct Name [then] fields end`; the position is
    /// at `struct`.
    fn parse_struct(&mut self, exported: bool) -> (r: Result<TopLevel, ParseError>)
        requires
            old(self)@.pos < old(self)@.tokens.len(),
        ensures
            final(self)@.tokens == old(self)@.tokens,
            agrees(r, p_struct(old(self)@.tokens, old(self)@.pos, exported), final(self)@.pos),
            r is Ok ==> old(self)@.pos < final(self)@.pos,
    {
        self.advance();  // eat 'struct'
        proof {
            use_type_invariant(&*self);
        }
        let name = match self.current() {
            Token::Identifier(n) => {
                let n = n.clone();
                self.advance();
                n
            },
            other => {
                return Err(ParseError::ExpectedStructName(other.clone()));
            },
        };
        proof {
            use_type_invariant(&*self);
        }
        if matches!(self.current(), Token::Then) {
            self.advance();
        }
        let fields = self.parse_fields()?;
        self.expect(&Token::End)?;
        Ok(TopLevel::Struct(StructDef { exported, name, fields }))
    }

    /// The entry block `main then ... end`; the position is at `main`.
    fn parse_main(&mut self) -> (r: Result<TopLevel, ParseError>)
        requires
            old(self)@.pos < old(self)@.tokens.len(),
        ensures
            final(self)@.tokens == old(self)@.tokens,
            agrees(r, p_main(old(self)@.tokens, old(self)@.pos), final(self)@.pos),
            r is Ok ==> old(self)@.pos < final(self)@.pos,
    {
        self.advance();  // eat 'main'
        self.expect(&Token::Then)?;
        let body = self.parse_block()?;
        self.expect(&Token::End)?;
        Ok(TopLevel::Main(body))
    }
}

// ---------------------------------------------------------------------------
// Laws
// ---------------------------------------------------------------------------

/// Exactly the binary operator tokens have a precedence: a token binds as an
/// operator (precedence at least 0) if and only if it stands for a binary
/// operator.  This is why the operator of a token taken by precedence
/// climbing always exists.
pub proof fn law_operator_tokens(k: Token)
    ensures
        (precedence(k) >= 0) <==> (binop_of(k) is Some),
        precedence(k) >= 0 ==> 1 <= precedence(k) <= 6,
{
}

/// A token that is a complete expression by itself.
pub open spec fn is_atom(k: Token) -> bool {
    k is Int || k is Identifier
}

/// The expression that an atom token stands for.
pub open spec fn atom_view(k: Token) -> ExprView {
    match k {
        Token::Int(n) => ExprView::IntLit(n),
        Token::Identifier(name) => ExprView::Identifier(name@),
        _ => ExprView::IntLit(0),
    }
}

/// Grouping of two binary operators: in `a o1 b o2 c`, the first operator
/// groups first when it binds at least as tightly as the second (so
/// operators of equal precedence associate to the left); otherwise the
/// second operator groups first.
pub proof fn law_binary_grouping(a: Token, o1: Token, b: Token, o2: Token, c: Token)
    requires
        is_atom(a),
        is_atom(b),
        is_atom(c),
        binop_of(o1) is Some,
        binop_of(o2) is Some,
    ensures
        ({
            let t = seq![a, o1, b, o2, c];
            let op1 = binop_of(o1)->Some_0;
            let op2 = binop_of(o2)->Some_0;
            let (x, y, z) = (atom_view(a), atom_view(b), atom_view(c));
            p_expr(t, 0) == Ok::<(ExprView, int), ParseError>(
                (
                    if precedence(o1) >= precedence(o2) {
                        ExprView::BinaryOp {
                            op: op2,
                            lhs: Box::new(ExprView::BinaryOp { op: op1, lhs: Box::new(x), rhs: Box::new(y) }),
                            rhs: Box::new(z),
                        }
                    } else {
                        ExprView::BinaryOp {
                            op: op1,
                            lhs: Box::new(x),
                            rhs: Box::new(ExprView::BinaryOp { op: op2, lhs: Box::new(y), rhs: Box::new(z) }),
                        }
                    },
                    5,
                ),
            )
        }),
{
    let t = seq![a, o1, b, o2, c];
    assert(tok(t, 0) == a && tok(t, 1) == o1 && tok(t, 2) == b && tok(t, 3) == o2 && tok(t, 4) == c);
    assert(tok(t, 5) == Token::Eof);
    law_operator_tokens(o1);
    law_operator_tokens(o2);
    assert(o1 != Token::LParen && o1 != Token::Dot && o2 != Token::LParen && o2 != Token::Dot);
    assert(p_primary(t, 0) == Ok::<(ExprView, int), ParseError>((atom_view(a), 1)));
    assert(p_primary(t, 2) == Ok::<(ExprView, int), ParseError>((atom_view(b), 3)));
    assert(p_primary(t, 4) == Ok::<(ExprView, int), ParseError>((atom_view(c), 5)));
    assert(p_unary(t, 0) == Ok::<(ExprView, int), ParseError>((atom_view(a), 1)));
    assert(p_unary(t, 2) == Ok::<(ExprView, int), ParseError>((atom_view(b), 3)));
    assert(p_unary(t, 4) == Ok::<(ExprView, int), ParseError>((atom_view(c), 5)));
    let op1 = binop_of(o1)->Some_0;
    let op2 = binop_of(o2)->Some_0;
    let (x, y, z) = (atom_view(a), atom_view(b), atom_view(c));
    if precedence(o1) >= precedence(o2) {
        let xy = ExprView::BinaryOp { op: op1, lhs: Box::new(x), rhs: Box::new(y) };
        let xyz = ExprView::BinaryOp { op: op2, lhs: Box::new(xy), rhs: Box::new(z) };
        assert(p_binop(t, 5, 0, xyz) == Ok::<(ExprView, int), ParseError>((xyz, 5)));
        assert(p_binop(t, 3, 0, xy) == Ok::<(ExprView, int), ParseError>((xyz, 5)));
        assert(p_binop(t, 1, 0, x) == Ok::<(ExprView, int), ParseError>((xyz, 5)));
    } else {
        let yz = ExprView::BinaryOp { op: op2, lhs: Box::new(y), rhs: Box::new(z) };
        let xyz = ExprView::BinaryOp { op: op1, lhs: Box::new(x), rhs: Box::new(yz) };
        let p1 = precedence(o1) + 1;
        assert(p_binop(t, 5, p1, yz) == Ok::<(ExprView, int), ParseError>((yz, 5)));
        assert(p_binop(t, 3, p1, y) == Ok::<(ExprView, int), ParseError>((yz, 5)));
        assert(p_binop(t, 5, 0, xyz) == Ok::<(ExprView, int), ParseError>((xyz, 5)));
        assert(p_binop(t, 1, 0, x) == Ok::<(ExprView, int), ParseError>((xyz, 5)));
    }
}

/// `a o1 b o2 c`, with `op1` and `op2` the operators of `o1` and `o2`,
/// parses as `(a op1 b) op2 c` when `left` holds, else as `a op1 (b op2 c)`.
pub open spec fn groups(a: Token, o1: Token, b: Token, o2: Token, c: Token, op1: BinOp, op2: BinOp, left: bool) -> bool {
    let (x, y, z) = (atom_view(a), atom_view(b), atom_view(c));
    p_expr(seq![a, o1, b, o2, c], 0) == Ok::<(ExprView, int), ParseError>(
        (
            if left {
                ExprView::BinaryOp {
                    op: op2,
                    lhs: Box::new(ExprView::BinaryOp { op: op1, lhs: Box::new(x), rhs: Box::new(y) }),
                    rhs: Box::new(z),
                }
            } else {
                ExprView::BinaryOp {
                    op: op1,
                    lhs: Box::new(x),
                    rhs: Box::new(ExprView::BinaryOp { op: op2, lhs: Box::new(y), rhs: Box::new(z) }),
                }
            },
            5,
        ),
    )
}

/// The grouping of `a o1 b o2 c` that the precedence of the two operators
/// decides.
pub proof fn lemma_groups(a: Token, o1: Token, b: Token, o2: Token, c: Token)
    requires
        is_atom(a),
        is_atom(b),
        is_atom(c),
        binop_of(o1) is Some,
        binop_of(o2) is Some,
    ensures
        groups(a, o1, b, o2, c, binop_of(o1)->Some_0, binop_of(o2)->Some_0, precedence(o1) >= precedence(o2)),
{
    law_binary_grouping(a, o1, b, o2, c);
}

/// The precedence ladder, rung 1 of 6 from the loosest: `or` is the loosest operator: `a or b or c` is `(a or b) or c`, and
/// `and` groups first beside it, on either side.
pub proof fn law_or_rung(a: Token, b: Token, c: Token)
    requires
        is_atom(a),
        is_atom(b),
        is_atom(c),
    ensures
        groups(a, Token::Or, b, Token::Or, c, BinOp::Or, BinOp::Or, true),
        groups(a, Token::Or, b, Token::And, c, BinOp::Or, BinOp::And, false),
        groups(a, Token::And, b, Token::Or, c, BinOp::And, BinOp::Or, true),
{
    lemma_groups(a, Token::Or, b, Token::Or, c);
    lemma_groups(a, Token::Or, b, Token::And, c);
    lemma_groups(a, Token::And, b, Token::Or, c);
}

/// The precedence ladder, rung 2 of 6 from the loosest: `and` binds tighter than `or` and looser than `==` and `!=`: `a and b and c`
/// is `(a and b) and c`, and `==` and `!=` group first beside it, on either
/// side.
pub proof fn law_and_rung(a: Token, b: Token, c: Token)
    requires
        is_atom(a),
        is_atom(b),
        is_atom(c),
    ensures
        groups(a, Token::And, b, Token::And, c, BinOp::And, BinOp::And, true),
        groups(a, Token::And, b, Token::Eq, c, BinOp::And, BinOp::Eq, false),
        groups(a, Token::Eq, b, Token::And, c, BinOp::Eq, BinOp::And, true),
        groups(a, Token::And, b, Token::NotEq, c, BinOp::And, BinOp::NotEq, false),
        groups(a, Token::NotEq, b, Token::And, c, BinOp::NotEq, BinOp::And, true),
{
    lemma_groups(a, Token::And, b, Token::And, c);
    lemma_groups(a, Token::And, b, Token::Eq, c);
    lemma_groups(a, Token::Eq, b, Token::And, c);
    lemma_groups(a, Token::And, b, Token::NotEq, c);
    lemma_groups(a, Token::NotEq, b, Token::And, c);
}

/// The precedence ladder, rung 3 of 6 from the loosest: `==` and `!=` share a rung and associate to the left; `<`, `>`, `<=` and
/// `>=` group first beside them, on either side.
pub proof fn law_equality_rung(a: Token, b: Token, c: Token)
    requires
        is_atom(a),
        is_atom(b),
        is_atom(c),
    ensures
        groups(a, Token::Eq, b, Token::Eq, c, BinOp::Eq, BinOp::Eq, true),
        groups(a, Token::Eq, b, Token::NotEq, c, BinOp::Eq, BinOp::NotEq, true),
        groups(a, Token::NotEq, b, Token::Eq, c, BinOp::NotEq, BinOp::Eq, true),
        groups(a, Token::NotEq, b, Token::NotEq, c, BinOp::NotEq, BinOp::NotEq, true),
        groups(a, Token::Eq, b, Token::Lt, c, BinOp::Eq, BinOp::Lt, false),
        groups(a, Token::Lt, b, Token::Eq, c, BinOp::Lt, BinOp::Eq, true),
        groups(a, Token::Eq, b, Token::Gt, c, BinOp::Eq, BinOp::Gt, false),
        groups(a, Token::Gt, b, Token::Eq, c, BinOp::Gt, BinOp::Eq, true),
        groups(a, Token::Eq, b, Token::LtEq, c, BinOp::Eq, BinOp::LtEq, false),
        groups(a, Token::LtEq, b, Token::Eq, c, BinOp::LtEq, BinOp::Eq, true),
        groups(a, Token::Eq, b, Token::GtEq, c, BinOp::Eq, BinOp::GtEq, false),
        groups(a, Token::GtEq, b, Token::Eq, c, BinOp::GtEq, BinOp::Eq, true),
        groups(a, Token::NotEq, b, Token::Lt, c, BinOp::NotEq, BinOp::Lt, false),
        groups(a, Token::Lt, b, Token::NotEq, c, BinOp::Lt, BinOp::NotEq, true),
        groups(a, Token::NotEq, b, Token::Gt, c, BinOp::NotEq, BinOp::Gt, false),
        groups(a, Token::Gt, b, Token::NotEq, c, BinOp::Gt, BinOp::NotEq, true),
        groups(a, Token::NotEq, b, Token::LtEq, c, BinOp::NotEq, BinOp::LtEq, false),
        groups(a, Token::LtEq, b, Token::NotEq, c, BinOp::LtEq, BinOp::NotEq, true),
        groups(a, Token::NotEq, b, Token::GtEq, c, BinOp::NotEq, BinOp::GtEq, false),
        groups(a, Token::GtEq, b, Token::NotEq, c, BinOp::GtEq, BinOp::NotEq, true),
{
    lemma_groups(a, Token::Eq, b, Token::Eq, c);
    lemma_groups(a, Token::Eq, b, Token::NotEq, c);
    lemma_groups(a, Token::NotEq, b, Token::Eq, c);
    lemma_groups(a, Token::NotEq, b, Token::NotEq, c);
    lemma_groups(a, Token::Eq, b, Token::Lt, c);
    lemma_groups(a, Token::Lt, b, Token::Eq, c);
    lemma_groups(a, Token::Eq, b, Token::Gt, c);
    lemma_groups(a, Token::Gt, b, Token::Eq, c);
    lemma_groups(a, Token::Eq, b, Token::LtEq, c);
    lemma_groups(a, Token::LtEq, b, Token::Eq, c);
    lemma_groups(a, Token::Eq, b, Token::GtEq, c);
    lemma_groups(a, Token::GtEq, b, Token::Eq, c);
    lemma_groups(a, Token::NotEq, b, Token::Lt, c);
    lemma_groups(a, Token::Lt, b, Token::NotEq, c);
    lemma_groups(a, Token::NotEq, b, Token::Gt, c);
    lemma_groups(a, Token::Gt, b, Token::NotEq, c);
    lemma_groups(a, Token::NotEq, b, Token::LtEq, c);
    lemma_groups(a, Token::LtEq, b, Token::NotEq, c);
    lemma_groups(a, Token::NotEq, b, Token::GtEq, c);
    lemma_groups(a, Token::GtEq, b, Token::NotEq, c);
}

/// The precedence ladder, rung 4 of 6 from the loosest: `<`, `>`, `<=` and `>=` share a rung and associate to the left; `+` and
/// `-` group first beside them, on either side.
pub proof fn law_comparison_rung(a: Token, b: Token, c: Token)
    requires
        is_atom(a),
        is_atom(b),
        is_atom(c),
    ensures
        groups(a, Token::Lt, b, Token::Lt, c, BinOp::Lt, BinOp::Lt, true),
        groups(a, Token::Lt, b, Token::Gt, c, BinOp::Lt, BinOp::Gt, true),
        groups(a, Token::Lt, b, Token::LtEq, c, BinOp::Lt, BinOp::LtEq, true),
        groups(a, Token::Lt, b, Token::GtEq, c, BinOp::Lt, BinOp::GtEq, true),
        groups(a, Token::Gt, b, Token::Lt, c, BinOp::Gt, BinOp::Lt, true),
        groups(a, Token::Gt, b, Token::Gt, c, BinOp::Gt, BinOp::Gt, true),
        groups(a, Token::Gt, b, Token::LtEq, c, BinOp::Gt, BinOp::LtEq, true),
        groups(a, Token::Gt, b, Token::GtEq, c, BinOp::Gt, BinOp::GtEq, true),
        groups(a, Token::LtEq, b, Token::Lt, c, BinOp::LtEq, BinOp::Lt, true),
        groups(a, Token::LtEq, b, Token::Gt, c, BinOp::LtEq, BinOp::Gt, true),
        groups(a, Token::LtEq, b, Token::LtEq, c, BinOp::LtEq, BinOp::LtEq, true),
        groups(a, Token::LtEq, b, Token::GtEq, c, BinOp::LtEq, BinOp::GtEq, true),
        groups(a, Token::GtEq, b, Token::Lt, c, BinOp::GtEq, BinOp::Lt, true),
        groups(a, Token::GtEq, b, Token::Gt, c, BinOp::GtEq, BinOp::Gt, true),
        groups(a, Token::GtEq, b, Token::LtEq, c, BinOp::GtEq, BinOp::LtEq, true),
        groups(a, Token::GtEq, b, Token::GtEq, c, BinOp::GtEq, BinOp::GtEq, true),
        groups(a, Token::Lt, b, Token::Plus, c, BinOp::Lt, BinOp::Add, false),
        groups(a, Token::Plus, b, Token::Lt, c, BinOp::Add, BinOp::Lt, true),
        groups(a, Token::Lt, b, Token::Minus, c, BinOp::Lt, BinOp::Sub, false),
        groups(a, Token::Minus, b, Token::Lt, c, BinOp::Sub, BinOp::Lt, true),
        groups(a, Token::Gt, b, Token::Plus, c, BinOp::Gt, BinOp::Add, false),
        groups(a, Token::Plus, b, Token::Gt, c, BinOp::Add, BinOp::Gt, true),
        groups(a, Token::Gt, b, Token::Minus, c, BinOp::Gt, BinOp::Sub, false),
        groups(a, Token::Minus, b, Token::Gt, c, BinOp::Sub, BinOp::Gt, true),
        groups(a, Token::LtEq, b, Token::Plus, c, BinOp::LtEq, BinOp::Add, false),
        groups(a, Token::Plus, b, Token::LtEq, c, BinOp::Add, BinOp::LtEq, true),
        groups(a, Token::LtEq, b, Token::Minus, c, BinOp::LtEq, BinOp::Sub, false),
        groups(a, Token::Minus, b, Token::LtEq, c, BinOp::Sub, BinOp::LtEq, true),
        groups(a, Token::GtEq, b, Token::Plus, c, BinOp::GtEq, BinOp::Add, false),
        groups(a, Token::Plus, b, Token::GtEq, c, BinOp::Add, BinOp::GtEq, true),
        groups(a, Token::GtEq, b, Token::Minus, c, BinOp::GtEq, BinOp::Sub, false),
        groups(a, Token::Minus, b, Token::GtEq, c, BinOp::Sub, BinOp::GtEq, true),
{
    lemma_groups(a, Token::Lt, b, Token::Lt, c);
    lemma_groups(a, Token::Lt, b, Token::Gt, c);
    lemma_groups(a, Token::Lt, b, Token::LtEq, c);
    lemma_groups(a, Token::Lt, b, Token::GtEq, c);
    lemma_groups(a, Token::Gt, b, Token::Lt, c);
    lemma_groups(a, Token::Gt, b, Token::Gt, c);
    lemma_groups(a, Token::Gt, b, Token::LtEq, c);
    lemma_groups(a, Token::Gt, b, Token::GtEq, c);
    lemma_groups(a, Token::LtEq, b, Token::Lt, c);
    lemma_groups(a, Token::LtEq, b, Token::Gt, c);
    lemma_groups(a, Token::LtEq, b, Token::LtEq, c);
    lemma_groups(a, Token::LtEq, b, Token::GtEq, c);
    lemma_groups(a, Token::GtEq, b, Token::Lt, c);
    lemma_groups(a, Token::GtEq, b, Token::Gt, c);
    lemma_groups(a, Token::GtEq, b, Token::LtEq, c);
    lemma_groups(a, Token::GtEq, b, Token::GtEq, c);
    lemma_groups(a, Token::Lt, b, Token::Plus, c);
    lemma_groups(a, Token::Plus, b, Token::Lt, c);
    lemma_groups(a, Token::Lt, b, Token::Minus, c);
    lemma_groups(a, Token::Minus, b, Token::Lt, c);
    lemma_groups(a, Token::Gt, b, Token::Plus, c);
    lemma_groups(a, Token::Plus, b, Token::Gt, c);
    lemma_groups(a, Token::Gt, b, Token::Minus, c);
    lemma_groups(a, Token::Minus, b, Token::Gt, c);
    lemma_groups(a, Token::LtEq, b, Token::Plus, c);
    lemma_groups(a, Token::Plus, b, Token::LtEq, c);
    lemma_groups(a, Token::LtEq, b, Token::Minus, c);
    lemma_groups(a, Token::Minus, b, Token::LtEq, c);
    lemma_groups(a, Token::GtEq, b, Token::Plus, c);
    lemma_groups(a, Token::Plus, b, Token::GtEq, c);
    lemma_groups(a, Token::GtEq, b, Token::Minus, c);
    lemma_groups(a, Token::Minus, b, Token::GtEq, c);
}

/// The precedence ladder, rung 5 of 6 from the loosest: `+` and `-` share a rung and associate to the left (`a - b + c` is
/// `(a - b) + c`); `*`, `/` and `%` group first beside them, on either side
/// (`a + b % c` is `a + (b % c)`, `a % b + c` is `(a % b) + c`).
pub proof fn law_additive_rung(a: Token, b: Token, c: Token)
    requires
        is_atom(a),
        is_atom(b),
        is_atom(c),
    ensures
        groups(a, Token::Plus, b, Token::Plus, c, BinOp::Add, BinOp::Add, true),
        groups(a, Token::Plus, b, Token::Minus, c, BinOp::Add, BinOp::Sub, true),
        groups(a, Token::Minus, b, Token::Plus, c, BinOp::Sub, BinOp::Add, true),
        groups(a, Token::Minus, b, Token::Minus, c, BinOp::Sub, BinOp::Sub, true),
        groups(a, Token::Plus, b, Token::Star, c, BinOp::Add, BinOp::Mul, false),
        groups(a, Token::Star, b, Token::Plus, c, BinOp::Mul, BinOp::Add, true),
        groups(a, Token::Plus, b, Token::Slash, c, BinOp::Add, BinOp::Div, false),
        groups(a, Token::Slash, b, Token::Plus, c, BinOp::Div, BinOp::Add, true),
        groups(a, Token::Plus, b, Token::Percent, c, BinOp::Add, BinOp::Mod, false),
        groups(a, Token::Percent, b, Token::Plus, c, BinOp::Mod, BinOp::Add, true),
        groups(a, Token::Minus, b, Token::Star, c, BinOp::Sub, BinOp::Mul, false),
        groups(a, Token::Star, b, Token::Minus, c, BinOp::Mul, BinOp::Sub, true),
        groups(a, Token::Minus, b, Token::Slash, c, BinOp::Sub, BinOp::Div, false),
        groups(a, Token::Slash, b, Token::Minus, c, BinOp::Div, BinOp::Sub, true),
        groups(a, Token::Minus, b, Token::Percent, c, BinOp::Sub, BinOp::Mod, false),
        groups(a, Token::Percent, b, Token::Minus, c, BinOp::Mod, BinOp::Sub, true),
{
    lemma_groups(a, Token::Plus, b, Token::Plus, c);
    lemma_groups(a, Token::Plus, b, Token::Minus, c);
    lemma_groups(a, Token::Minus, b, Token::Plus, c);
    lemma_groups(a, Token::Minus, b, Token::Minus, c);
    lemma_groups(a, Token::Plus, b, Token::Star, c);
    lemma_groups(a, Token::Star, b, Token::Plus, c);
    lemma_groups(a, Token::Plus, b, Token::Slash, c);
    lemma_groups(a, Token::Slash, b, Token::Plus, c);
    lemma_groups(a, Token::Plus, b, Token::Percent, c);
    lemma_groups(a, Token::Percent, b, Token::Plus, c);
    lemma_groups(a, Token::Minus, b, Token::Star, c);
    lemma_groups(a, Token::Star, b, Token::Minus, c);
    lemma_groups(a, Token::Minus, b, Token::Slash, c);
    lemma_groups(a, Token::Slash, b, Token::Minus, c);
    lemma_groups(a, Token::Minus, b, Token::Percent, c);
    lemma_groups(a, Token::Percent, b, Token::Minus, c);
}

/// The precedence ladder, rung 6 of 6 from the loosest: `*`, `/` and `%` share the tightest rung and associate to the left
/// (`a * b % c` is `(a * b) % c`, `a % b * c` is `(a % b) * c`).
pub proof fn law_multiplicative_rung(a: Token, b: Token, c: Token)
    requires
        is_atom(a),
        is_atom(b),
        is_atom(c),
    ensures
        groups(a, Token::Star, b, Token::Star, c, BinOp::Mul, BinOp::Mul, true),
        groups(a, Token::Star, b, Token::Slash, c, BinOp::Mul, BinOp::Div, true),
        groups(a, Token::Star, b, Token::Percent, c, BinOp::Mul, BinOp::Mod, true),
        groups(a, Token::Slash, b, Token::Star, c, BinOp::Div, BinOp::Mul, true),
        groups(a, Token::Slash, b, Token::Slash, c, BinOp::Div, BinOp::Div, true),
        groups(a, Token::Slash, b, Token::Percent, c, BinOp::Div, BinOp::Mod, true),
        groups(a, Token::Percent, b, Token::Star, c, BinOp::Mod, BinOp::Mul, true),
        groups(a, Token::Percent, b, Token::Slash, c, BinOp::Mod, BinOp::Div, true),
        groups(a, Token::Percent, b, Token::Percent, c, BinOp::Mod, BinOp::Mod, true),
{
    lemma_groups(a, Token::Star, b, Token::Star, c);
    lemma_groups(a, Token::Star, b, Token::Slash, c);
    lemma_groups(a, Token::Star, b, Token::Percent, c);
    lemma_groups(a, Token::Slash, b, Token::Star, c);
    lemma_groups(a, Token::Slash, b, Token::Slash, c);
    lemma_groups(a, Token::Slash, b, Token::Percent, c);
    lemma_groups(a, Token::Percent, b, Token::Star, c);
    lemma_groups(a, Token::Percent, b, Token::Slash, c);
    lemma_groups(a, Token::Percent, b, Token::Percent, c);
}

/// A declaration keeps what it read: in `const name: T = e` and in
/// `let name: T = e`, as a statement or at the top level, the parsed item
/// has that name, the type that `T` parses to and the expression that `e`
/// parses to.
pub proof fn law_declarations_keep_annotations(t: Seq<Token>, i: int, n: Seq<char>, ty: Type, j: int, v: ExprView, m: int)
    requires
        0 <= i,
        tok(t, i) == Token::Const || tok(t, i) == Token::Let,
        tok(t, i + 1) matches Token::Identifier(s) && s@ == n,
        tok(t, i + 2) == Token::Colon,
        p_type(t, i + 3) == Ok::<(Type, int), ParseError>((ty, j)),
        tok(t, j) == Token::Assign,
        p_expr(t, j + 1) == Ok::<(ExprView, int), ParseError>((v, m)),
    ensures
        tok(t, i) == Token::Const ==> p_stmt(t, i) == Ok::<(StmtView, int), ParseError>(
            (StmtView::Const { name: n, ty: Some(ty), value: v }, skip_semis(t, m)),
        ),
        tok(t, i) == Token::Const ==> p_top(t, i) == Ok::<(TopLevelView, int), ParseError>(
            (TopLevelView::Const { exported: false, name: n, ty: Some(ty), value: v }, skip_semis(t, m)),
        ),
        tok(t, i) == Token::Let ==> p_stmt(t, i) == Ok::<(StmtView, int), ParseError>(
            (StmtView::Let { name: n, ty: Some(ty), value: Some(v) }, skip_semis(t, m)),
        ),
        tok(t, i) == Token::Let ==> p_top(t, i) == Ok::<(TopLevelView, int), ParseError>(
            (TopLevelView::Let { exported: false, name: n, ty: Some(ty), value: Some(v) }, skip_semis(t, m)),
        ),
{
}

/// A declaration without an annotation has no type: in `const name = e`
/// and in `let name = e`, as a statement or at the top level, the parsed
/// item has that name, no type and the expression that `e` parses to.
pub proof fn law_declarations_without_annotation(t: Seq<Token>, i: int, n: Seq<char>, v: ExprView, m: int)
    requires
        0 <= i,
        tok(t, i) == Token::Const || tok(t, i) == Token::Let,
        tok(t, i + 1) matches Token::Identifier(s) && s@ == n,
        tok(t, i + 2) == Token::Assign,
        p_expr(t, i + 3) == Ok::<(ExprView, int), ParseError>((v, m)),
    ensures
        tok(t, i) == Token::Const ==> p_stmt(t, i) == Ok::<(StmtView, int), ParseError>(
            (StmtView::Const { name: n, ty: None, value: v }, skip_semis(t, m)),
        ),
        tok(t, i) == Token::Const ==> p_top(t, i) == Ok::<(TopLevelView, int), ParseError>(
            (TopLevelView::Const { exported: false, name: n, ty: None, value: v }, skip_semis(t, m)),
        ),
        tok(t, i) == Token::Let ==> p_stmt(t, i) == Ok::<(StmtView, int), ParseError>(
            (StmtView::Let { name: n, ty: None, value: Some(v) }, skip_semis(t, m)),
        ),
        tok(t, i) == Token::Let ==> p_top(t, i) == Ok::<(TopLevelView, int), ParseError>(
            (TopLevelView::Let { exported: false, name: n, ty: None, value: Some(v) }, skip_semis(t, m)),
        ),
{
}

// ---------------------------------------------------------------------------
// Progress: every part that succeeds moves forward within the tokens
// ---------------------------------------------------------------------------

/// A result that moved forward from `i` and stays within the tokens.
pub open spec fn advances<A>(t: Seq<Token>, i: int, r: Result<(A, int), ParseError>) -> bool {
    r matches Ok((a, j)) ==> 0 <= i < j <= t.len()
}

/// A result that did not move back and stays within the tokens.
pub open spec fn stays<A>(t: Seq<Token>, i: int, r: Result<(A, int), ParseError>) -> bool {
    r matches Ok((a, j)) ==> i <= j && (0 <= i <= t.len() ==> j <= t.len())
}

pub proof fn lemma_expect_advances(t: Seq<Token>, i: int, e: Token)
    requires
        e != Token::Eof,
    ensures
        p_expect(t, i, e) matches Ok(j) ==> 0 <= i && j == i + 1 && j <= t.len(),
{
}

pub proof fn lemma_type_advances(t: Seq<Token>, i: int)
    ensures
        advances(t, i, p_type(t, i)),
{
}

pub proof fn lemma_expr_advances(t: Seq<Token>, i: int)
    ensures
        advances(t, i, p_expr(t, i)),
    decreases t.len() - i, 3int,
{
    lemma_unary_advances(t, i);
    if let Ok((lhs, j)) = p_unary(t, i) {
        lemma_binop_stays(t, j, 0, lhs);
    }
}

pub proof fn lemma_unary_advances(t: Seq<Token>, i: int)
    ensures
        advances(t, i, p_unary(t, i)),
    decreases t.len() - i, 2int,
{
    if tok(t, i) == Token::Not || tok(t, i) == Token::Minus {
        lemma_unary_advances(t, i + 1);
    } else {
        lemma_primary_advances(t, i);
    }
}

pub proof fn lemma_args_stays(t: Seq<Token>, i: int)
    ensures
        p_args(t, i) matches Ok((a, j)) ==> 0 <= i <= j <= t.len(),
    decreases t.len() - i, 4int,
{
    if tok(t, i) != Token::RParen {
        lemma_expr_advances(t, i);
        if let Ok((e, j)) = p_expr(t, i) {
            let j2 = if tok(t, j) == Token::Comma {
                j + 1
            } else {
                j
            };
            if moved(t, i, j2) {
                lemma_args_stays(t, j2);
            }
        }
    }
}

pub proof fn lemma_call_advances(t: Seq<Token>, i: int, callee: Seq<char>)
    ensures
        advances(t, i, p_call(t, i, callee)),
    decreases t.len() - i, 5int,
{
    lemma_args_stays(t, i);
}

pub proof fn lemma_primary_advances(t: Seq<Token>, i: int)
    ensures
        advances(t, i, p_primary(t, i)),
    decreases t.len() - i, 1int,
{
    match tok(t, i) {
        Token::Identifier(name) => {
            if tok(t, i + 1) == Token::LParen {
                lemma_call_advances(t, i + 2, name@);
            } else if tok(t, i + 1) == Token::Dot {
                if let Token::Identifier(field) = tok(t, i + 2) {
                    if tok(t, i + 3) == Token::LParen {
                        lemma_call_advances(t, i + 4, name@.add(seq!['.']).add(field@));
                    }
                }
            }
        },
        Token::LParen => {
            lemma_expr_advances(t, i + 1);
        },
        _ => {},
    }
}

pub proof fn lemma_binop_stays(t: Seq<Token>, i: int, min: int, lhs: ExprView)
    ensures
        stays(t, i, p_binop(t, i, min, lhs)),
    decreases t.len() - i, 0int,
{
    let prec = precedence(tok(t, i));
    if !(prec < min || prec < 0) {
        let op = binop_of(tok(t, i))->Some_0;
        lemma_unary_advances(t, i + 1);
        if let Ok((rhs, j)) = p_unary(t, i + 1) {
            if moved(t, i, j) {
                if precedence(tok(t, j)) > prec {
                    lemma_binop_stays(t, j, prec + 1, rhs);
                    if let Ok((rhs2, k)) = p_binop(t, j, prec + 1, rhs) {
                        if moved(t, i, k) {
                            lemma_binop_stays(
                                t,
                                k,
                                min,
                                ExprView::BinaryOp { op, lhs: Box::new(lhs), rhs: Box::new(rhs2) },
                            );
                        }
                    }
                } else {
                    lemma_binop_stays(
                        t,
                        j,
                        min,
                        ExprView::BinaryOp { op, lhs: Box::new(lhs), rhs: Box::new(rhs) },
                    );
                }
            }
        }
    }
}

pub proof fn lemma_opt_type_stays(t: Seq<Token>, i: int)
    ensures
        stays(t, i, p_opt_type(t, i)),
{
    lemma_type_advances(t, i + 1);
}

pub proof fn lemma_opt_value_stays(t: Seq<Token>, i: int)
    ensures
        stays(t, i, p_opt_value(t, i)),
{
    lemma_expr_advances(t, i + 1);
}

pub proof fn lemma_let_rest_advances(t: Seq<Token>, i: int)
    ensures
        advances(t, i, p_let_rest(t, i)),
{
    lemma_opt_type_stays(t, i + 1);
    if let Ok((ty, j)) = p_opt_type(t, i + 1) {
        lemma_opt_value_stays(t, j);
    }
}

pub proof fn lemma_simple_stmts_advance(t: Seq<Token>, i: int)
    requires
        0 <= i,
    ensures
        advances(t, i, p_let(t, i)),
        advances(t, i, p_const(t, i)),
        advances(t, i, p_return(t, i)),
        advances(t, i, p_expr_or_assign(t, i)),
{
    lemma_let_rest_advances(t, i + 1);
    lemma_opt_type_stays(t, i + 2);
    if let Ok((ty, j)) = p_opt_type(t, i + 2) {
        lemma_expect_advances(t, j, Token::Assign);
        if let Ok(k) = p_expect(t, j, Token::Assign) {
            lemma_expr_advances(t, k);
        }
    }
    lemma_expr_advances(t, i + 1);
    lemma_expr_advances(t, i);
    if let Ok((target, j)) = p_expr(t, i) {
        lemma_expr_advances(t, j + 1);
    }
}

pub proof fn lemma_block_stays(t: Seq<Token>, i: int)
    ensures
        stays(t, i, p_block(t, i)),
    decreases t.len() - i, 3int,
{
    let j = skip_semis(t, i);
    lemma_skip_semis_bounds(t, i);
    if !ends_block(tok(t, j)) {
        lemma_stmt_advances(t, j);
        if let Ok((st, m)) = p_stmt(t, j) {
            if moved(t, j, m) {
                lemma_block_stays(t, m);
            }
        }
    }
}

pub proof fn lemma_stmt_advances(t: Seq<Token>, i: int)
    ensures
        advances(t, i, p_stmt(t, i)),
    decreases t.len() - i, 2int,
{
    if 0 <= i {
        lemma_simple_stmts_advance(t, i);
    } else {
        lemma_expr_advances(t, i);
    }
    if tok(t, i) == Token::If {
        lemma_if_advances(t, i);
    } else if tok(t, i) == Token::While {
        lemma_while_advances(t, i);
    } else if tok(t, i) == Token::For {
        lemma_for_advances(t, i);
    } else if tok(t, i) == Token::Loop {
        lemma_loop_advances(t, i);
    }
    lemma_skip_semis_bounds(t, i + 1);
    let r = match tok(t, i) {
        Token::Let => p_let(t, i),
        Token::Const => p_const(t, i),
        Token::Return => p_return(t, i),
        Token::Break => Ok((StmtView::Break, i + 1)),
        Token::Continue => Ok((StmtView::Continue, i + 1)),
        Token::If => p_if(t, i),
        Token::While => p_while(t, i),
        Token::For => p_for(t, i),
        Token::Loop => p_loop(t, i),
        _ => p_expr_or_assign(t, i),
    };
    if let Ok((st, j)) = r {
        lemma_skip_semis_bounds(t, j);
    }
}

pub proof fn lemma_if_advances(t: Seq<Token>, i: int)
    requires
        0 <= i,
    ensures
        advances(t, i, p_if(t, i)),
    decreases t.len() - i, 1int,
{
    lemma_expr_advances(t, i + 1);
    if let Ok((c, j)) = p_expr(t, i + 1) {
        lemma_expect_advances(t, j, Token::Then);
        if let Ok(k) = p_expect(t, j, Token::Then) {
            if moved(t, i, k) {
                lemma_block_stays(t, k);
                if let Ok((b, m)) = p_block(t, k) {
                    if moved(t, i, m) {
                        lemma_elses_stays(t, m);
                        if let Ok((x, n)) = p_elses(t, m) {
                            lemma_expect_advances(t, n, Token::End);
                        }
                    }
                }
            }
        }
    }
}

pub proof fn lemma_elses_stays(t: Seq<Token>, i: int)
    ensures
        stays(t, i, p_elses(t, i)),
    decreases t.len() - i, 0int,
{
    if tok(t, i) == Token::Else {
        if tok(t, i + 1) == Token::If {
            lemma_expr_advances(t, i + 2);
            if let Ok((c, j)) = p_expr(t, i + 2) {
                lemma_expect_advances(t, j, Token::Then);
                if let Ok(k) = p_expect(t, j, Token::Then) {
                    if moved(t, i, k) {
                        lemma_block_stays(t, k);
                        if let Ok((b, m)) = p_block(t, k) {
                            if moved(t, i, m) {
                                lemma_elses_stays(t, m);
                            }
                        }
                    }
                }
            }
        } else {
            let k = if tok(t, i + 1) == Token::Then {
                i + 2
            } else {
                i + 1
            };
            lemma_block_stays(t, k);
        }
    }
}

pub proof fn lemma_while_advances(t: Seq<Token>, i: int)
    requires
        0 <= i,
    ensures
        advances(t, i, p_while(t, i)),
    decreases t.len() - i, 1int,
{
    lemma_expr_advances(t, i + 1);
    if let Ok((c, j)) = p_expr(t, i + 1) {
        lemma_expect_advances(t, j, Token::Then);
        if let Ok(k) = p_expect(t, j, Token::Then) {
            if moved(t, i, k) {
                lemma_block_stays(t, k);
                if let Ok((b, m)) = p_block(t, k) {
                    lemma_expect_advances(t, m, Token::End);
                }
            }
        }
    }
}

pub proof fn lemma_loop_advances(t: Seq<Token>, i: int)
    requires
        0 <= i,
    ensures
        advances(t, i, p_loop(t, i)),
    decreases t.len() - i, 1int,
{
    lemma_expect_advances(t, i + 1, Token::Then);
    if let Ok(k) = p_expect(t, i + 1, Token::Then) {
        if moved(t, i, k) {
            lemma_block_stays(t, k);
            if let Ok((b, m)) = p_block(t, k) {
                lemma_expect_advances(t, m, Token::End);
            }
        }
    }
}

pub proof fn lemma_for_advances(t: Seq<Token>, i: int)
    requires
        0 <= i,
    ensures
        advances(t, i, p_for(t, i)),
    decreases t.len() - i, 1int,
{
    let j0 = if tok(t, i + 1) == Token::Let {
        i + 2
    } else {
        i + 1
    };
    lemma_let_rest_advances(t, j0);
    if let Ok((init, a)) = p_let_rest(t, j0) {
        lemma_expect_advances(t, a, Token::Semicolon);
        if let Ok(b) = p_expect(t, a, Token::Semicolon) {
            lemma_expr_advances(t, b);
            if let Ok((c0, c)) = p_expr(t, b) {
                lemma_expect_advances(t, c, Token::Semicolon);
                if let Ok(d) = p_expect(t, c, Token::Semicolon) {
                    lemma_simple_stmts_advance(t, d);
                    lemma_expr_advances(t, d);
                    if let Ok((st, f)) = p_expr_or_assign(t, d) {
                        lemma_expect_advances(t, f, Token::Then);
                        if let Ok(g) = p_expect(t, f, Token::Then) {
                            if moved(t, i, g) {
                                lemma_block_stays(t, g);
                                if let Ok((b2, h)) = p_block(t, g) {
                                    lemma_expect_advances(t, h, Token::End);
                                }
                            }
                        }
                    }
                }
            }
        }
    }
}

pub proof fn lemma_path_rest_stays(t: Seq<Token>, i: int)
    ensures
        stays(t, i, p_path_rest(t, i)),
    decreases t.len() - i,
{
    if tok(t, i) == Token::Dot {
        if let Token::Identifier(n) = tok(t, i + 1) {
            lemma_path_rest_stays(t, i + 2);
        }
    }
}

pub proof fn lemma_param_advances(t: Seq<Token>, i: int)
    ensures
        advances(t, i, p_param(t, i)),
{
    lemma_expect_advances(t, i + 1, Token::Colon);
    if let Ok(j) = p_expect(t, i + 1, Token::Colon) {
        lemma_type_advances(t, j);
    }
}

pub proof fn lemma_params_stay(t: Seq<Token>, i: int)
    ensures
        stays(t, i, p_params(t, i)),
        stays(t, i, p_bare_params(t, i)),
    decreases t.len() - i,
{
    lemma_param_advances(t, i);
    if let Ok((p, k)) = p_param(t, i) {
        if moved(t, i, k) {
            lemma_params_stay(t, k);
        }
    }
}

pub proof fn lemma_return_type_stays(t: Seq<Token>, i: int)
    ensures
        stays(t, i, p_return_type(t, i)),
{
    lemma_type_advances(t, i + 1);
    lemma_expect_advances(t, i + 1, Token::Colon);
    if let Ok(j) = p_expect(t, i + 1, Token::Colon) {
        lemma_type_advances(t, j);
    }
}

pub proof fn lemma_func_advances(t: Seq<Token>, i: int, exported: bool)
    requires
        0 <= i,
    ensures
        advances(t, i, p_func(t, i, exported)),
{
    lemma_params_stay(t, i + 3);
    lemma_params_stay(t, i + 2);
    if let Ok((ps, j)) = p_params(t, i + 3) {
        lemma_expect_advances(t, j, Token::RParen);
    }
    let ps = if tok(t, i + 2) == Token::LParen {
        match p_params(t, i + 3) {
            Err(e) => Err(e),
            Ok((ps, j)) => match p_expect(t, j, Token::RParen) {
                Err(e) => Err(e),
                Ok(k) => Ok((ps, k)),
            },
        }
    } else {
        p_bare_params(t, i + 2)
    };
    if let Ok((params, j)) = ps {
        lemma_return_type_stays(t, j);
        if let Ok((rt, k)) = p_return_type(t, j) {
            lemma_expect_advances(t, k, Token::Then);
            if let Ok(m) = p_expect(t, k, Token::Then) {
                lemma_block_stays(t, m);
                if let Ok((body, n)) = p_block(t, m) {
                    lemma_expect_advances(t, n, Token::End);
                }
            }
        }
    }
}

pub proof fn lemma_fields_stay(t: Seq<Token>, i: int)
    ensures
        stays(t, i, p_fields(t, i)),
    decreases t.len() - i,
{
    let j = skip_semis(t, i);
    lemma_skip_semis_bounds(t, i);
    lemma_param_advances(t, j);
    if tok(t, j) is Identifier {
        if let Ok((p, k)) = p_param(t, j) {
            if moved(t, i, k) {
                lemma_fields_stay(t, k);
            }
        }
    }
}

pub proof fn lemma_struct_advances(t: Seq<Token>, i: int, exported: bool)
    requires
        0 <= i,
    ensures
        advances(t, i, p_struct(t, i, exported)),
{
    let j = if tok(t, i + 2) == Token::Then {
        i + 3
    } else {
        i + 2
    };
    lemma_fields_stay(t, j);
    if let Ok((fields, k)) = p_fields(t, j) {
        lemma_expect_advances(t, k, Token::End);
    }
}

pub proof fn lemma_top_advances(t: Seq<Token>, i: int)
    ensures
        advances(t, i, p_top(t, i)),
{
    if 0 <= i < t.len() {
        lemma_struct_advances(t, i, false);
        lemma_struct_advances(t, i + 1, true);
        lemma_path_rest_stays(t, i + 2);
        if let Ok((rest, k)) = p_path_rest(t, i + 2) {
            lemma_skip_semis_bounds(t, k);
        }
        lemma_func_advances(t, i, false);
        lemma_func_advances(t, i + 1, true);
        lemma_opt_type_stays(t, i + 2);
        lemma_opt_type_stays(t, i + 3);
        if let Ok((ty, j)) = p_opt_type(t, i + 2) {
            lemma_opt_value_stays(t, j);
            if let Ok((v, k)) = p_opt_value(t, j) {
                lemma_skip_semis_bounds(t, k);
            }
            lemma_expect_advances(t, j, Token::Assign);
            if let Ok(k) = p_expect(t, j, Token::Assign) {
                lemma_expr_advances(t, k);
                if let Ok((v, m)) = p_expr(t, k) {
                    lemma_skip_semis_bounds(t, m);
                }
            }
        }
        if let Ok((ty, j)) = p_opt_type(t, i + 3) {
            lemma_opt_value_stays(t, j);
            if let Ok((v, k)) = p_opt_value(t, j) {
                lemma_skip_semis_bounds(t, k);
            }
            lemma_expect_advances(t, j, Token::Assign);
            if let Ok(k) = p_expect(t, j, Token::Assign) {
                lemma_expr_advances(t, k);
                if let Ok((v, m)) = p_expr(t, k) {
                    lemma_skip_semis_bounds(t, m);
                }
            }
        }
        lemma_expect_advances(t, i + 1, Token::Then);
        if let Ok(k) = p_expect(t, i + 1, Token::Then) {
            lemma_block_stays(t, k);
            if let Ok((b, m)) = p_block(t, k) {
                lemma_expect_advances(t, m, Token::End);
            }
        }
    }
}

/// Every part of the parser that succeeds moves forward and stays within the
/// tokens; so the `moved` tests in the specification always pass where the
/// part before them succeeded, and parsing always ends.
pub proof fn law_parsing_moves_forward(t: Seq<Token>, i: int)
    ensures
        advances(t, i, p_expr(t, i)),
        advances(t, i, p_stmt(t, i)),
        advances(t, i, p_top(t, i)),
        stays(t, i, p_block(t, i)),
        stays(t, i, p_items(t, i)),
{
    lemma_expr_advances(t, i);
    lemma_stmt_advances(t, i);
    lemma_top_advances(t, i);
    lemma_block_stays(t, i);
    lemma_items_stay(t, i);
}

pub proof fn lemma_items_stay(t: Seq<Token>, i: int)
    ensures
        stays(t, i, p_items(t, i)),
    decreases t.len() - i,
{
    let j = skip_semis(t, i);
    lemma_skip_semis_bounds(t, i);
    if tok(t, j) != Token::Eof {
        lemma_top_advances(t, j);
        if let Ok((item, k)) = p_top(t, j) {
            if moved(t, i, k) {
                lemma_items_stay(t, k);
            }
        }
    }
}

} // verus!

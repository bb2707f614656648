//! The debug runner: renders expression statements as text, to check what
//! the parser produced.  It is not an evaluator.
//!
//! Integer literals are written in decimal, names as they are, and binary
//! operations as `(lhs op rhs)`.  Other expressions have no rendering.

use vstd::prelude::*;
use crate::ast::{BinOp, Expr, ExprView, Stmt, StmtView};
use crate::text::push_char;
use crate::lexer::{
    all_digits, decimal_value, lex_all, lex_step, denotes, keyword_token, ident_end, skip_whitespace_from,
    Lexeme, LexError,
};
use crate::parser::binop_of;
use crate::token::Token;

verus! {

/// The text of a binary operator.
pub open spec fn binop_text(op: BinOp) -> Seq<char> {
    match op {
        BinOp::Add => "+"@,
        BinOp::Sub => "-"@,
        BinOp::Mul => "*"@,
        BinOp::Div => "/"@,
        BinOp::Mod => "%"@,
        BinOp::Eq => "=="@,
        BinOp::NotEq => "!="@,
        BinOp::Lt => "<"@,
        BinOp::Gt => ">"@,
        BinOp::LtEq => "<="@,
        BinOp::GtEq => ">="@,
        BinOp::And => "and"@,
        BinOp::Or => "or"@,
    }
}

/// The character of a decimal digit.
pub open spec fn digit_char(d: int) -> char {
    if d == 0 {
        '0'
    } else if d == 1 {
        '1'
    } else if d == 2 {
        '2'
    } else if d == 3 {
        '3'
    } else if d == 4 {
        '4'
    } else if d == 5 {
        '5'
    } else if d == 6 {
        '6'
    } else if d == 7 {
        '7'
    } else if d == 8 {
        '8'
    } else {
        '9'
    }
}

/// The decimal digits of a natural number, most significant first.
pub open spec fn digits_of(m: nat) -> Seq<char>
    decreases m,
{
    if m < 10 {
        seq![digit_char(m as int)]
    } else {
        digits_of(m / 10).push(digit_char((m % 10) as int))
    }
}

/// The decimal text of an integer, with a leading `-` when it is negative.
pub open spec fn decimal_text(n: int) -> Seq<char> {
    if n < 0 {
        seq!['-'].add(digits_of((-n) as nat))
    } else {
        digits_of(n as nat)
    }
}

/// The rendering of an expression, if it has one.
pub open spec fn render(e: ExprView) -> Option<Seq<char>>
    decreases e,
{
    match e {
        ExprView::IntLit(n) => Some(decimal_text(n as int)),
        ExprView::Identifier(name) => Some(name),
        ExprView::BinaryOp { op, lhs, rhs } => match (render(*lhs), render(*rhs)) {
            (Some(l), Some(r)) => Some(
                "("@.add(l).add(" "@).add(binop_text(op)).add(" "@).add(r).add(")"@),
            ),
            _ => None,
        },
        _ => None,
    }
}

/// The line that the debug runner prints for a statement, if any: the
/// rendering of an expression statement.
pub open spec fn stmt_line(s: StmtView) -> Option<Seq<char>> {
    match s {
        StmtView::ExprStmt(e) => render(e),
        _ => None,
    }
}

/// The view of an optional string.
pub open spec fn opt_text(r: Option<String>) -> Option<Seq<char>> {
    match r {
        Some(s) => Some(s@),
        None => None,
    }
}

/// Appends the decimal digits of `m`.
fn push_digits(s: &mut String, m: u64)
    ensures
        final(s)@ == old(s)@.add(digits_of(m as nat)),
    decreases m,
{
    if m >= 10 {
        push_digits(s, m / 10);
    }
    let d = m % 10;
    let c = if d == 0 {
        '0'
    } else if d == 1 {
        '1'
    } else if d == 2 {
        '2'
    } else if d == 3 {
        '3'
    } else if d == 4 {
        '4'
    } else if d == 5 {
        '5'
    } else if d == 6 {
        '6'
    } else if d == 7 {
        '7'
    } else if d == 8 {
        '8'
    } else {
        '9'
    };
    let ghost before = s@;
    push_char(s, c);
    proof {
        if m >= 10 {
            assert(s@ =~= old(s)@.add(digits_of(m as nat)));
        } else {
            assert(s@ =~= old(s)@.add(digits_of(m as nat)));
        }
    }
}

/// The decimal text of an integer.
pub fn decimal_string(n: i64) -> (s: String)
    ensures
        s@ == decimal_text(n as int),
{
    let mut s = String::new();
    if n < 0 {
        push_char(&mut s, '-');
        let m = (0i128 - n as i128) as u64;
        push_digits(&mut s, m);
        assert(s@ =~= seq!['-'].add(digits_of((-n) as nat)));
    } else {
        push_digits(&mut s, n as u64);
        assert(s@ =~= digits_of(n as nat));
    }
    s
}

/// The text of a binary operator.
fn binop_str(op: BinOp) -> (r: &'static str)
    ensures
        r@ == binop_text(op),
{
    match op {
        BinOp::Add => "+",
        BinOp::Sub => "-",
        BinOp::Mul => "*",
        BinOp::Div => "/",
        BinOp::Mod => "%",
        BinOp::Eq => "==",
        BinOp::NotEq => "!=",
        BinOp::Lt => "<",
        BinOp::Gt => ">",
        BinOp::LtEq => "<=",
        BinOp::GtEq => ">=",
        BinOp::And => "and",
        BinOp::Or => "or",
    }
}

/// The debug runner.
pub struct Interpreter;

impl Interpreter {
    /// The rendering of an expression, if it has one.
    pub fn eval(expr: &Expr) -> (r: Option<String>)
        ensures
            opt_text(r) == render(expr@),
        decreases expr,
    {
        match expr {
            Expr::IntLit(n) => Some(decimal_string(*n)),
            Expr::Identifier(name) => Some(name.clone()),
            Expr::BinaryOp { op, lhs, rhs } => {
                let l = Self::eval(lhs);
                let r = Self::eval(rhs);
                match (l, r) {
                    (Some(l), Some(r)) => {
                        let mut out = String::new();
                        out.append("(");
                        out.append(l.as_str());
                        out.append(" ");
                        out.append(binop_str(*op));
                        out.append(" ");
                        out.append(r.as_str());
                        out.append(")");
                        Some(out)
                    },
                    _ => None,
                }
            },
            _ => None,
        }
    }

    /// The line printed for a statement, if any.
    pub fn execute(stmt: &Stmt) -> (r: Option<String>)
        ensures
            opt_text(r) == stmt_line(stmt@),
    {
        match stmt {
            Stmt::ExprStmt(expr) => Self::eval(expr),
            _ => None,
        }
    }
}

/// The runner writes an integer the way the lexer reads it: the decimal
/// digits of a natural number are all ASCII digits, and their value is the
/// number.
pub proof fn law_decimal_text_reads_back(m: nat)
    ensures
        all_digits(digits_of(m)),
        decimal_value(digits_of(m)) == m,
    decreases m,
{
    if m < 10 {
        let d = digits_of(m);
        assert(d.drop_last() =~= Seq::<char>::empty());
        assert(decimal_value(Seq::<char>::empty()) == 0);
    } else {
        law_decimal_text_reads_back(m / 10);
        let d = digits_of(m);
        let q = digits_of(m / 10);
        assert(d.drop_last() =~= q);
        assert(d.last() == digit_char((m % 10) as int));
        assert(m == (m / 10) * 10 + m % 10);
        assert forall|k: int| 0 <= k < d.len() implies crate::text::is_ascii_digit(#[trigger] d[k]) by {
            if k < q.len() {
                assert(d[k] == q[k]);
            }
        }
    }
}


/// A text that lexes as the one lexeme `l` and then the end of the text.
pub proof fn lemma_one_lexeme(s: Seq<char>, l: Lexeme)
    requires
        !(l is End),
        lex_step(s, 0) == Ok::<(Lexeme, nat), LexError>((l, s.len())),
    ensures
        lex_all(s, 0) == Ok::<(Seq<Lexeme>, nat), LexError>((seq![l, Lexeme::End], s.len())),
{
    assert(skip_whitespace_from(s, s.len()) == s.len());
    assert(lex_all(s, s.len()) == Ok::<(Seq<Lexeme>, nat), LexError>((seq![Lexeme::End], s.len())));
    assert(seq![l].add(seq![Lexeme::End]) =~= seq![l, Lexeme::End]);
}

/// The runner writes each operator as it is spelled in source text: lexing
/// the text of `op` gives one token, whose operator is `op`, and then the end
/// of the text.
pub proof fn law_operator_text_reads_back(op: BinOp)
    ensures
        lex_all(binop_text(op), 0) matches Ok((ls, e)) && ls.len() == 2 && ls[1] is End && (forall|t: Token|
            denotes(t, ls[0]) ==> binop_of(t) == Some(op)),
{
    let s = binop_text(op);
    match op {
        BinOp::Add => {
            reveal_strlit("+");
            assert(s.len() == 1 && s[0] == '+');
            assert(skip_whitespace_from(s, 0) == 0);
            lemma_one_lexeme(s, Lexeme::Symbol(Token::Plus));
        },
        BinOp::Sub => {
            reveal_strlit("-");
            assert(s.len() == 1 && s[0] == '-');
            assert(skip_whitespace_from(s, 0) == 0);
            lemma_one_lexeme(s, Lexeme::Symbol(Token::Minus));
        },
        BinOp::Mul => {
            reveal_strlit("*");
            assert(s.len() == 1 && s[0] == '*');
            assert(skip_whitespace_from(s, 0) == 0);
            lemma_one_lexeme(s, Lexeme::Symbol(Token::Star));
        },
        BinOp::Div => {
            reveal_strlit("/");
            assert(s.len() == 1 && s[0] == '/');
            assert(skip_whitespace_from(s, 0) == 0);
            lemma_one_lexeme(s, Lexeme::Symbol(Token::Slash));
        },
        BinOp::Mod => {
            reveal_strlit("%");
            assert(s.len() == 1 && s[0] == '%');
            assert(skip_whitespace_from(s, 0) == 0);
            lemma_one_lexeme(s, Lexeme::Symbol(Token::Percent));
        },
        BinOp::Eq => {
            reveal_strlit("==");
            assert(s.len() == 2 && s[0] == '=' && s[1] == '=');
            assert(skip_whitespace_from(s, 0) == 0);
            lemma_one_lexeme(s, Lexeme::Symbol(Token::Eq));
        },
        BinOp::NotEq => {
            reveal_strlit("!=");
            assert(s.len() == 2 && s[0] == '!' && s[1] == '=');
            assert(skip_whitespace_from(s, 0) == 0);
            lemma_one_lexeme(s, Lexeme::Symbol(Token::NotEq));
        },
        BinOp::Lt => {
            reveal_strlit("<");
            assert(s.len() == 1 && s[0] == '<');
            assert(skip_whitespace_from(s, 0) == 0);
            lemma_one_lexeme(s, Lexeme::Symbol(Token::Lt));
        },
        BinOp::Gt => {
            reveal_strlit(">");
            assert(s.len() == 1 && s[0] == '>');
            assert(skip_whitespace_from(s, 0) == 0);
            lemma_one_lexeme(s, Lexeme::Symbol(Token::Gt));
        },
        BinOp::LtEq => {
            reveal_strlit("<=");
            assert(s.len() == 2 && s[0] == '<' && s[1] == '=');
            assert(skip_whitespace_from(s, 0) == 0);
            lemma_one_lexeme(s, Lexeme::Symbol(Token::LtEq));
        },
        BinOp::GtEq => {
            reveal_strlit(">=");
            assert(s.len() == 2 && s[0] == '>' && s[1] == '=');
            assert(skip_whitespace_from(s, 0) == 0);
            lemma_one_lexeme(s, Lexeme::Symbol(Token::GtEq));
        },
        BinOp::And => {
            reveal_strlit("main");
            reveal_strlit("func");
            reveal_strlit("let");
            reveal_strlit("const");
            reveal_strlit("export");
            reveal_strlit("use");
            reveal_strlit("struct");
            reveal_strlit("return");
            reveal_strlit("if");
            reveal_strlit("else");
            reveal_strlit("then");
            reveal_strlit("end");
            reveal_strlit("while");
            reveal_strlit("for");
            reveal_strlit("loop");
            reveal_strlit("break");
            reveal_strlit("continue");
            reveal_strlit("and");
            reveal_strlit("or");
            assert(s.len() == 3 && s[0] == 'a' && s[1] == 'n' && s[2] == 'd');
            assert(skip_whitespace_from(s, 0) == 0);
            assert(ident_end(s, 3) == 3);
            assert(ident_end(s, 2) == 3);
            assert(ident_end(s, 1) == 3);
            assert(s.subrange(0, 3) =~= s);
            assert(keyword_token(s) == Some(Token::And));
            lemma_one_lexeme(s, Lexeme::Word(s));
        },
        BinOp::Or => {
            reveal_strlit("main");
            reveal_strlit("func");
            reveal_strlit("let");
            reveal_strlit("const");
            reveal_strlit("export");
            reveal_strlit("use");
            reveal_strlit("struct");
            reveal_strlit("return");
            reveal_strlit("if");
            reveal_strlit("else");
            reveal_strlit("then");
            reveal_strlit("end");
            reveal_strlit("while");
            reveal_strlit("for");
            reveal_strlit("loop");
            reveal_strlit("break");
            reveal_strlit("continue");
            reveal_strlit("and");
            reveal_strlit("or");
            assert(s.len() == 2 && s[0] == 'o' && s[1] == 'r');
            assert(skip_whitespace_from(s, 0) == 0);
            assert(ident_end(s, 2) == 2);
            assert(ident_end(s, 1) == 2);
            assert(s.subrange(0, 2) =~= s);
            assert(keyword_token(s) == Some(Token::Or));
            lemma_one_lexeme(s, Lexeme::Word(s));
        },
    }
}

} // verus!

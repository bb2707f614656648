//! The abstract syntax tree of Kiln programs, and its view.
//!
//! The view of a tree is the same tree with every `String` replaced by the
//! characters it holds; the parser's contracts are stated over views.

use vstd::prelude::*;

verus! {

/// A type annotation.
#[derive(Debug, PartialEq)]
pub enum Type {
    Int,
    Float,
    Bool,
    StringType,
    Byte,
    Ptr,
    /// e.g. `int[10]`
    Array(Box<Type>, usize),
    /// e.g. `int[10][10]`
    Array2D(Box<Type>, usize, usize),
}

impl Clone for Type {
    fn clone(&self) -> (r: Self)
        ensures
            r == *self,
        decreases self,
    {
        match self {
            Type::Int => Type::Int,
            Type::Float => Type::Float,
            Type::Bool => Type::Bool,
            Type::StringType => Type::StringType,
            Type::Byte => Type::Byte,
            Type::Ptr => Type::Ptr,
            Type::Array(inner, n) => Type::Array(Box::new((**inner).clone()), *n),
            Type::Array2D(inner, rows, cols) => Type::Array2D(Box::new((**inner).clone()), *rows, *cols),
        }
    }
}

/// A binary operator.
#[derive(Debug, PartialEq, Eq, Structural, Clone, Copy)]
pub enum BinOp {
    Add,
    Sub,
    Mul,
    Div,
    Mod,
    Eq,
    NotEq,
    Lt,
    Gt,
    LtEq,
    GtEq,
    And,
    Or,
}

/// A unary operator.
#[derive(Debug, PartialEq, Eq, Structural, Clone, Copy)]
pub enum UnaryOp {
    Not,
    Neg,
}

/// An expression.  A floating-point literal holds the text it was written as.
#[derive(Debug, PartialEq)]
pub enum Expr {
    IntLit(i64),
    FloatLit(String),
    BoolLit(bool),
    StringLit(String),
    Identifier(String),
    BinaryOp { op: BinOp, lhs: Box<Expr>, rhs: Box<Expr> },
    UnaryOp { op: UnaryOp, expr: Box<Expr> },
    Call { callee: String, args: Vec<Expr> },
    FieldAccess { object: Box<Expr>, field: String },
    Index { array: Box<Expr>, index: Box<Expr> },
}

/// A statement.
#[derive(Debug, PartialEq)]
pub enum Stmt {
    Let { name: String, ty: Option<Type>, value: Option<Expr> },
    Const { name: String, ty: Option<Type>, value: Expr },
    Assign { target: String, value: Expr },
    Return(Option<Expr>),
    Break,
    Continue,
    ExprStmt(Expr),
    If {
        condition: Expr,
        body: Vec<Stmt>,
        else_ifs: Vec<(Expr, Vec<Stmt>)>,
        else_body: Option<Vec<Stmt>>,
    },
    While { condition: Expr, body: Vec<Stmt> },
    For { init: Box<Stmt>, condition: Expr, step: Box<Stmt>, body: Vec<Stmt> },
    Loop { body: Vec<Stmt> },
}

/// A parameter or a struct field: a name and its type.
#[derive(Debug, PartialEq)]
pub struct Param {
    pub name: String,
    pub ty: Type,
}

/// A function definition.
#[derive(Debug, PartialEq)]
pub struct FuncDef {
    pub exported: bool,
    pub name: String,
    pub params: Vec<Param>,
    pub return_type: Option<Type>,
    pub body: Vec<Stmt>,
}

/// A struct definition.
#[derive(Debug, PartialEq)]
pub struct StructDef {
    pub exported: bool,
    pub name: String,
    pub fields: Vec<Param>,
}

/// A `use` declaration: `["console"]` or `["console", "print"]`.
#[derive(Debug, PartialEq)]
pub struct UseDecl {
    pub path: Vec<String>,
}

/// An item at the top level of a program.
#[derive(Debug, PartialEq)]
pub enum TopLevel {
    Use(UseDecl),
    Func(FuncDef),
    Struct(StructDef),
    Let { exported: bool, name: String, ty: Option<Type>, value: Option<Expr> },
    Const { exported: bool, name: String, ty: Option<Type>, value: Expr },
    /// The `main then ... end` entry block.
    Main(Vec<Stmt>),
}

// ---------------------------------------------------------------------------
// Views
// ---------------------------------------------------------------------------

/// The view of an expression.
pub enum ExprView {
    IntLit(i64),
    FloatLit(Seq<char>),
    BoolLit(bool),
    StringLit(Seq<char>),
    Identifier(Seq<char>),
    BinaryOp { op: BinOp, lhs: Box<ExprView>, rhs: Box<ExprView> },
    UnaryOp { op: UnaryOp, expr: Box<ExprView> },
    Call { callee: Seq<char>, args: Seq<ExprView> },
    FieldAccess { object: Box<ExprView>, field: Seq<char> },
    Index { array: Box<ExprView>, index: Box<ExprView> },
}

/// The view of a statement.
pub enum StmtView {
    Let { name: Seq<char>, ty: Option<Type>, value: Option<ExprView> },
    Const { name: Seq<char>, ty: Option<Type>, value: ExprView },
    Assign { target: Seq<char>, value: ExprView },
    Return(Option<ExprView>),
    Break,
    Continue,
    ExprStmt(ExprView),
    If {
        condition: ExprView,
        body: Seq<StmtView>,
        else_ifs: Seq<(ExprView, Seq<StmtView>)>,
        else_body: Option<Seq<StmtView>>,
    },
    While { condition: ExprView, body: Seq<StmtView> },
    For { init: Box<StmtView>, condition: ExprView, step: Box<StmtView>, body: Seq<StmtView> },
    Loop { body: Seq<StmtView> },
}

/// The view of a parameter.
pub struct ParamView {
    pub name: Seq<char>,
    pub ty: Type,
}

/// The view of a function definition.
pub struct FuncView {
    pub exported: bool,
    pub name: Seq<char>,
    pub params: Seq<ParamView>,
    pub return_type: Option<Type>,
    pub body: Seq<StmtView>,
}

/// The view of a top-level item.
pub enum TopLevelView {
    Use(Seq<Seq<char>>),
    Func(FuncView),
    Struct { exported: bool, name: Seq<char>, fields: Seq<ParamView> },
    Let { exported: bool, name: Seq<char>, ty: Option<Type>, value: Option<ExprView> },
    Const { exported: bool, name: Seq<char>, ty: Option<Type>, value: ExprView },
    Main(Seq<StmtView>),
}

pub open spec fn expr_view(e: Expr) -> ExprView
    decreases e,
{
    match e {
        Expr::IntLit(n) => ExprView::IntLit(n),
        Expr::FloatLit(s) => ExprView::FloatLit(s@),
        Expr::BoolLit(b) => ExprView::BoolLit(b),
        Expr::StringLit(s) => ExprView::StringLit(s@),
        Expr::Identifier(s) => ExprView::Identifier(s@),
        Expr::BinaryOp { op, lhs, rhs } => ExprView::BinaryOp {
            op,
            lhs: Box::new(expr_view(*lhs)),
            rhs: Box::new(expr_view(*rhs)),
        },
        Expr::UnaryOp { op, expr } => ExprView::UnaryOp { op, expr: Box::new(expr_view(*expr)) },
        Expr::Call { callee, args } => ExprView::Call { callee: callee@, args: exprs_view(args@) },
        Expr::FieldAccess { object, field } => ExprView::FieldAccess {
            object: Box::new(expr_view(*object)),
            field: field@,
        },
        Expr::Index { array, index } => ExprView::Index {
            array: Box::new(expr_view(*array)),
            index: Box::new(expr_view(*index)),
        },
    }
}

pub open spec fn exprs_view(s: Seq<Expr>) -> Seq<ExprView>
    decreases s,
{
    if s.len() == 0 {
        Seq::empty()
    } else {
        seq![expr_view(s[0])].add(exprs_view(s.subrange(1, s.len() as int)))
    }
}

pub open spec fn stmt_view(st: Stmt) -> StmtView
    decreases st,
{
    match st {
        Stmt::Let { name, ty, value } => StmtView::Let {
            name: name@,
            ty,
            value: match value {
                Some(v) => Some(expr_view(v)),
                None => None,
            },
        },
        Stmt::Const { name, ty, value } => StmtView::Const { name: name@, ty, value: expr_view(value) },
        Stmt::Assign { target, value } => StmtView::Assign { target: target@, value: expr_view(value) },
        Stmt::Return(v) => StmtView::Return(
            match v {
                Some(v) => Some(expr_view(v)),
                None => None,
            },
        ),
        Stmt::Break => StmtView::Break,
        Stmt::Continue => StmtView::Continue,
        Stmt::ExprStmt(e) => StmtView::ExprStmt(expr_view(e)),
        Stmt::If { condition, body, else_ifs, else_body } => StmtView::If {
            condition: expr_view(condition),
            body: stmts_view(body@),
            else_ifs: else_ifs_view(else_ifs@),
            else_body: match else_body {
                Some(b) => Some(stmts_view(b@)),
                None => None,
            },
        },
        Stmt::While { condition, body } => StmtView::While {
            condition: expr_view(condition),
            body: stmts_view(body@),
        },
        Stmt::For { init, condition, step, body } => StmtView::For {
            init: Box::new(stmt_view(*init)),
            condition: expr_view(condition),
            step: Box::new(stmt_view(*step)),
            body: stmts_view(body@),
        },
        Stmt::Loop { body } => StmtView::Loop { body: stmts_view(body@) },
    }
}

pub open spec fn stmts_view(s: Seq<Stmt>) -> Seq<StmtView>
    decreases s,
{
    if s.len() == 0 {
        Seq::empty()
    } else {
        seq![stmt_view(s[0])].add(stmts_view(s.subrange(1, s.len() as int)))
    }
}

pub open spec fn else_ifs_view(s: Seq<(Expr, Vec<Stmt>)>) -> Seq<(ExprView, Seq<StmtView>)>
    decreases s,
{
    if s.len() == 0 {
        Seq::empty()
    } else {
        seq![(expr_view(s[0].0), stmts_view(s[0].1@))].add(
            else_ifs_view(s.subrange(1, s.len() as int)),
        )
    }
}

pub open spec fn param_view(p: Param) -> ParamView {
    ParamView { name: p.name@, ty: p.ty }
}

pub open spec fn params_view(s: Seq<Param>) -> Seq<ParamView> {
    s.map_values(|p: Param| param_view(p))
}

pub open spec fn func_view(f: FuncDef) -> FuncView {
    FuncView {
        exported: f.exported,
        name: f.name@,
        params: params_view(f.params@),
        return_type: f.return_type,
        body: stmts_view(f.body@),
    }
}

pub open spec fn top_level_view(t: TopLevel) -> TopLevelView {
    match t {
        TopLevel::Use(u) => TopLevelView::Use(u.path@.map_values(|s: String| s@)),
        TopLevel::Func(f) => TopLevelView::Func(func_view(f)),
        TopLevel::Struct(s) => TopLevelView::Struct {
            exported: s.exported,
            name: s.name@,
            fields: params_view(s.fields@),
        },
        TopLevel::Let { exported, name, ty, value } => TopLevelView::Let {
            exported,
            name: name@,
            ty,
            value: match value {
                Some(v) => Some(expr_view(v)),
                None => None,
            },
        },
        TopLevel::Const { exported, name, ty, value } => TopLevelView::Const {
            exported,
            name: name@,
            ty,
            value: expr_view(value),
        },
        TopLevel::Main(body) => TopLevelView::Main(stmts_view(body@)),
    }
}

pub open spec fn top_levels_view(s: Seq<TopLevel>) -> Seq<TopLevelView> {
    s.map_values(|t: TopLevel| top_level_view(t))
}

impl View for Expr {
    type V = ExprView;

    open spec fn view(&self) -> ExprView {
        expr_view(*self)
    }
}

impl View for Param {
    type V = ParamView;

    open spec fn view(&self) -> ParamView {
        param_view(*self)
    }
}

impl View for FuncDef {
    type V = FuncView;

    open spec fn view(&self) -> FuncView {
        func_view(*self)
    }
}

impl View for TopLevel {
    type V = TopLevelView;

    open spec fn view(&self) -> TopLevelView {
        top_level_view(*self)
    }
}

impl View for Stmt {
    type V = StmtView;

    open spec fn view(&self) -> StmtView {
        stmt_view(*self)
    }
}

pub proof fn lemma_exprs_view_push(s: Seq<Expr>, e: Expr)
    ensures
        exprs_view(s.push(e)) == exprs_view(s).push(expr_view(e)),
    decreases s.len(),
{
    if s.len() == 0 {
        let q = s.push(e);
        assert(q[0] == e);
        assert(q.subrange(1, 1) =~= Seq::<Expr>::empty());
        assert(exprs_view(q.subrange(1, 1)) =~= Seq::empty());
        assert(exprs_view(q) =~= seq![expr_view(e)]);
    } else {
        assert(s.push(e).subrange(1, s.len() as int + 1) =~= s.subrange(1, s.len() as int).push(e));
        lemma_exprs_view_push(s.subrange(1, s.len() as int), e);
        assert(exprs_view(s.push(e)) =~= exprs_view(s).push(expr_view(e)));
    }
}

pub proof fn lemma_stmts_view_push(s: Seq<Stmt>, st: Stmt)
    ensures
        stmts_view(s.push(st)) == stmts_view(s).push(stmt_view(st)),
    decreases s.len(),
{
    if s.len() == 0 {
        let q = s.push(st);
        assert(q[0] == st);
        assert(q.subrange(1, 1) =~= Seq::<Stmt>::empty());
        assert(stmts_view(q.subrange(1, 1)) =~= Seq::empty());
        assert(stmts_view(q) =~= seq![stmt_view(st)]);
    } else {
        assert(s.push(st).subrange(1, s.len() as int + 1) =~= s.subrange(1, s.len() as int).push(st));
        lemma_stmts_view_push(s.subrange(1, s.len() as int), st);
        assert(stmts_view(s.push(st)) =~= stmts_view(s).push(stmt_view(st)));
    }
}

pub proof fn lemma_else_ifs_view_push(s: Seq<(Expr, Vec<Stmt>)>, x: (Expr, Vec<Stmt>))
    ensures
        else_ifs_view(s.push(x)) == else_ifs_view(s).push((expr_view(x.0), stmts_view(x.1@))),
    decreases s.len(),
{
    if s.len() == 0 {
        let q = s.push(x);
        assert(q[0] == x);
        assert(q.subrange(1, 1) =~= Seq::<(Expr, Vec<Stmt>)>::empty());
        assert(else_ifs_view(q.subrange(1, 1)) =~= Seq::empty());
        assert(else_ifs_view(q) =~= seq![(expr_view(x.0), stmts_view(x.1@))]);
    } else {
        assert(s.push(x).subrange(1, s.len() as int + 1) =~= s.subrange(1, s.len() as int).push(x));
        lemma_else_ifs_view_push(s.subrange(1, s.len() as int), x);
        assert(else_ifs_view(s.push(x)) =~= else_ifs_view(s).push(
            (expr_view(x.0), stmts_view(x.1@)),
        ));
    }
}

pub proof fn lemma_views_empty()
    ensures
        exprs_view(Seq::<Expr>::empty()) == Seq::<ExprView>::empty(),
        stmts_view(Seq::<Stmt>::empty()) == Seq::<StmtView>::empty(),
        else_ifs_view(Seq::<(Expr, Vec<Stmt>)>::empty()) == Seq::<(ExprView, Seq<StmtView>)>::empty(),
{
}

} // verus!

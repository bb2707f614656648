//! The decisions of code generation: which machine type a Kiln type lowers
//! to, and which instruction a binary operator becomes.  The program that
//! drives LLVM carries these decisions out.

use vstd::prelude::*;
use crate::ast::{BinOp, Type};

verus! {

/// An LLVM type.
#[derive(Debug, PartialEq)]
pub enum LlvmType {
    /// 64-bit integer
    I64,
    /// 64-bit float
    F64,
    /// 1-bit boolean
    I1,
    /// 8-bit integer
    I8,
    /// Pointer to 8-bit integers
    I8Ptr,
    /// Array of a length of elements of a type
    Array(Box<LlvmType>, u32),
}

/// The LLVM type of a Kiln type.  Array lengths are taken modulo 2^32, as an
/// LLVM array length is 32 bits wide; a two-dimensional array is an array of
/// rows, each an array of columns.
pub open spec fn lowered(ty: Type) -> LlvmType
    decreases ty,
{
    match ty {
        Type::Int => LlvmType::I64,
        Type::Float => LlvmType::F64,
        Type::Bool => LlvmType::I1,
        Type::Byte => LlvmType::I8,
        Type::Ptr => LlvmType::I8Ptr,
        Type::StringType => LlvmType::I8Ptr,
        Type::Array(inner, size) => LlvmType::Array(Box::new(lowered(*inner)), size as u32),
        Type::Array2D(inner, rows, cols) => LlvmType::Array(
            Box::new(LlvmType::Array(Box::new(lowered(*inner)), cols as u32)),
            rows as u32,
        ),
    }
}

/// The LLVM type of a Kiln type.
pub fn lower_type(ty: &Type) -> (r: LlvmType)
    ensures
        r == lowered(*ty),
    decreases ty,
{
    match ty {
        Type::Int => LlvmType::I64,
        Type::Float => LlvmType::F64,
        Type::Bool => LlvmType::I1,
        Type::Byte => LlvmType::I8,
        Type::Ptr => LlvmType::I8Ptr,
        Type::StringType => LlvmType::I8Ptr,
        Type::Array(inner, size) => {
            let inner_ty = lower_type(inner);
            LlvmType::Array(Box::new(inner_ty), *size as u32)
        },
        Type::Array2D(inner, rows, cols) => {
            let inner_ty = lower_type(inner);
            LlvmType::Array(Box::new(LlvmType::Array(Box::new(inner_ty), *cols as u32)), *rows as u32)
        },
    }
}

/// What kind of value an operand is.
#[derive(Debug, PartialEq, Eq, Structural, Clone, Copy)]
pub enum ValueKind {
    Int,
    Float,
    Other,
}

/// A signed integer comparison.
#[derive(Debug, PartialEq, Eq, Structural, Clone, Copy)]
pub enum IntPredicate {
    EQ,
    NE,
    SLT,
    SGT,
    SLE,
    SGE,
}

/// The instruction that a binary operation becomes.
#[derive(Debug, PartialEq, Eq, Structural, Clone, Copy)]
pub enum Instruction {
    IntAdd,
    IntSub,
    IntMul,
    IntSignedDiv,
    IntSignedRem,
    IntCompare(IntPredicate),
    And,
    Or,
    FloatAdd,
    FloatSub,
    FloatMul,
    FloatDiv,
}

/// Why a binary operation has no instruction.
#[derive(Debug, PartialEq, Eq, Structural, Clone, Copy)]
pub enum CodegenError {
    /// Float operands with an operator other than `+`, `-`, `*`, `/`.
    UnsupportedFloatOperator,
    /// Operands that are not both integers or both floats.
    TypeMismatch,
}

/// The instruction for a binary operator on integer operands.
pub open spec fn int_instruction(op: BinOp) -> Instruction {
    match op {
        BinOp::Add => Instruction::IntAdd,
        BinOp::Sub => Instruction::IntSub,
        BinOp::Mul => Instruction::IntMul,
        BinOp::Div => Instruction::IntSignedDiv,
        BinOp::Mod => Instruction::IntSignedRem,
        BinOp::Eq => Instruction::IntCompare(IntPredicate::EQ),
        BinOp::NotEq => Instruction::IntCompare(IntPredicate::NE),
        BinOp::Lt => Instruction::IntCompare(IntPredicate::SLT),
        BinOp::Gt => Instruction::IntCompare(IntPredicate::SGT),
        BinOp::LtEq => Instruction::IntCompare(IntPredicate::SLE),
        BinOp::GtEq => Instruction::IntCompare(IntPredicate::SGE),
        BinOp::And => Instruction::And,
        BinOp::Or => Instruction::Or,
    }
}

/// The instruction for a binary operator on operands of the given kinds.
pub open spec fn instruction_for(op: BinOp, l: ValueKind, r: ValueKind) -> Result<Instruction, CodegenError> {
    if l == ValueKind::Int && r == ValueKind::Int {
        Ok(int_instruction(op))
    } else if l == ValueKind::Float && r == ValueKind::Float {
        match op {
            BinOp::Add => Ok(Instruction::FloatAdd),
            BinOp::Sub => Ok(Instruction::FloatSub),
            BinOp::Mul => Ok(Instruction::FloatMul),
            BinOp::Div => Ok(Instruction::FloatDiv),
            _ => Err(CodegenError::UnsupportedFloatOperator),
        }
    } else {
        Err(CodegenError::TypeMismatch)
    }
}

/// The instruction for a binary operator on operands of the given kinds.
pub fn select_instruction(op: BinOp, l: ValueKind, r: ValueKind) -> (res: Result<Instruction, CodegenError>)
    ensures
        res == instruction_for(op, l, r),
{
    if l == ValueKind::Int && r == ValueKind::Int {
        let instr = match op {
            BinOp::Add => Instruction::IntAdd,
            BinOp::Sub => Instruction::IntSub,
            BinOp::Mul => Instruction::IntMul,
            BinOp::Div => Instruction::IntSignedDiv,
            BinOp::Mod => Instruction::IntSignedRem,
            BinOp::Eq => Instruction::IntCompare(IntPredicate::EQ),
            BinOp::NotEq => Instruction::IntCompare(IntPredicate::NE),
            BinOp::Lt => Instruction::IntCompare(IntPredicate::SLT),
            BinOp::Gt => Instruction::IntCompare(IntPredicate::SGT),
            BinOp::LtEq => Instruction::IntCompare(IntPredicate::SLE),
            BinOp::GtEq => Instruction::IntCompare(IntPredicate::SGE),
            BinOp::And => Instruction::And,
            BinOp::Or => Instruction::Or,
        };
        Ok(instr)
    } else if l == ValueKind::Float && r == ValueKind::Float {
        match op {
            BinOp::Add => Ok(Instruction::FloatAdd),
            BinOp::Sub => Ok(Instruction::FloatSub),
            BinOp::Mul => Ok(Instruction::FloatMul),
            BinOp::Div => Ok(Instruction::FloatDiv),
            _ => Err(CodegenError::UnsupportedFloatOperator),
        }
    } else {
        Err(CodegenError::TypeMismatch)
    }
}


// ---------------------------------------------------------------------------
// Laws
// ---------------------------------------------------------------------------

/// Lowering is compositional: an array lowers to an array of the lowered
/// element type, of the same length (a two-dimensional array to an array of
/// rows, each an array of columns); the base types lower to their machine
/// types: `int` to a 64-bit integer, `float` to a 64-bit float, `bool` to
/// one bit, `byte` to 8 bits, `ptr` and `string` to a byte pointer.
pub proof fn law_lowering_composes(inner: Type, n: usize, m: usize)
    ensures
        lowered(Type::Array(Box::new(inner), n)) == LlvmType::Array(Box::new(lowered(inner)), n as u32),
        lowered(Type::Array2D(Box::new(inner), n, m)) == LlvmType::Array(
            Box::new(LlvmType::Array(Box::new(lowered(inner)), m as u32)),
            n as u32,
        ),
        lowered(Type::Array2D(Box::new(inner), n, m)) == lowered(
            Type::Array(Box::new(Type::Array(Box::new(inner), m)), n),
        ),
        lowered(Type::Int) == LlvmType::I64,
        lowered(Type::Float) == LlvmType::F64,
        lowered(Type::Bool) == LlvmType::I1,
        lowered(Type::Byte) == LlvmType::I8,
        lowered(Type::Ptr) == LlvmType::I8Ptr,
        lowered(Type::StringType) == LlvmType::I8Ptr,
{
    let row = Type::Array(Box::new(inner), m);
    assert(lowered(row) == LlvmType::Array(Box::new(lowered(inner)), m as u32));
    assert(lowered(Type::Array(Box::new(row), n)) == LlvmType::Array(Box::new(lowered(row)), n as u32));
}

/// Whether a signed integer comparison holds of two values, as LLVM's
/// `icmp` defines each predicate.
pub open spec fn predicate_holds(p: IntPredicate, x: int, y: int) -> bool {
    match p {
        IntPredicate::EQ => x == y,
        IntPredicate::NE => x != y,
        IntPredicate::SLT => x < y,
        IntPredicate::SGT => x > y,
        IntPredicate::SLE => x <= y,
        IntPredicate::SGE => x >= y,
    }
}

/// Division rounded toward zero, as LLVM's `sdiv` divides.
pub open spec fn div_toward_zero(x: int, y: int) -> int {
    let q = abs(x) / abs(y);
    if (x < 0) != (y < 0) {
        -q
    } else {
        q
    }
}

pub open spec fn abs(x: int) -> int {
    if x < 0 {
        -x
    } else {
        x
    }
}

/// The value that an integer instruction computes from two values (before
/// wrapping to 64 bits), as LLVM defines it: `add`, `sub`, `mul`, `sdiv`,
/// `srem` (the remainder of `sdiv`, with the sign of the dividend), `icmp`
/// (1 when the predicate holds, else 0), and `and` / `or` on truth values
/// (nonzero is true).  A float instruction computes no integer.
pub open spec fn int_result(i: Instruction, x: int, y: int) -> Option<int> {
    match i {
        Instruction::IntAdd => Some(x + y),
        Instruction::IntSub => Some(x - y),
        Instruction::IntMul => Some(x * y),
        Instruction::IntSignedDiv => Some(div_toward_zero(x, y)),
        Instruction::IntSignedRem => Some(x - y * div_toward_zero(x, y)),
        Instruction::IntCompare(p) => Some(if predicate_holds(p, x, y) { 1 } else { 0 }),
        Instruction::And => Some(if x != 0 && y != 0 { 1 } else { 0 }),
        Instruction::Or => Some(if x != 0 || y != 0 { 1 } else { 0 }),
        _ => None,
    }
}

/// The integer instruction that a float instruction stands beside.
pub open spec fn integer_counterpart(i: Instruction) -> Instruction {
    match i {
        Instruction::FloatAdd => Instruction::IntAdd,
        Instruction::FloatSub => Instruction::IntSub,
        Instruction::FloatMul => Instruction::IntMul,
        Instruction::FloatDiv => Instruction::IntSignedDiv,
        other => other,
    }
}

/// The value that the instruction selected for `op` on integer operands
/// computes from `x` and `y`.
pub open spec fn int_value_of(op: BinOp, x: int, y: int) -> Option<int> {
    match instruction_for(op, ValueKind::Int, ValueKind::Int) {
        Ok(i) => int_result(i, x, y),
        Err(e) => None,
    }
}

/// On integer operands each operator compiles to an instruction that
/// computes what the operator means: `+`, `-`, `*` their sum, difference and
/// product; `/` and `%` a quotient and remainder with `x == y * q + r`, the
/// remainder smaller than the divisor and never of the opposite sign to the
/// dividend; each comparison 1 exactly when its relation holds; `and` and
/// `or` the truth of both or of either.
pub proof fn law_int_instructions_mean_their_operators(x: int, y: int)
    ensures
        int_value_of(BinOp::Add, x, y) == Some(x + y),
        int_value_of(BinOp::Sub, x, y) == Some(x - y),
        int_value_of(BinOp::Mul, x, y) == Some(x * y),
        y != 0 ==> (int_value_of(BinOp::Div, x, y) matches Some(q) && int_value_of(BinOp::Mod, x, y) matches Some(r)
            && x == y * q + r && abs(r) < abs(y) && (r == 0 || (r < 0) == (x < 0))),
        int_value_of(BinOp::Eq, x, y) == Some(if x == y { 1int } else { 0 }),
        int_value_of(BinOp::NotEq, x, y) == Some(if x != y { 1int } else { 0 }),
        int_value_of(BinOp::Lt, x, y) == Some(if x < y { 1int } else { 0 }),
        int_value_of(BinOp::Gt, x, y) == Some(if x > y { 1int } else { 0 }),
        int_value_of(BinOp::LtEq, x, y) == Some(if x <= y { 1int } else { 0 }),
        int_value_of(BinOp::GtEq, x, y) == Some(if x >= y { 1int } else { 0 }),
        int_value_of(BinOp::And, x, y) == Some(if x != 0 && y != 0 { 1int } else { 0 }),
        int_value_of(BinOp::Or, x, y) == Some(if x != 0 || y != 0 { 1int } else { 0 }),
{
    if y != 0 {
        lemma_div_toward_zero(x, y);
    }
}

pub proof fn lemma_div_toward_zero(x: int, y: int)
    requires
        y != 0,
    ensures
        ({
            let q = div_toward_zero(x, y);
            let r = x - y * q;
            abs(r) < abs(y) && (r == 0 || (r < 0) == (x < 0))
        }),
{
    let (ax, ay) = (abs(x), abs(y));
    let q0 = ax / ay;
    let r0 = ax % ay;
    assert(ax == q0 * ay + r0 && 0 <= r0 < ay) by (nonlinear_arith)
        requires
            ax >= 0,
            ay > 0,
            q0 == ax / ay,
            r0 == ax % ay,
    ;
    let q = div_toward_zero(x, y);
    let r = x - y * q;
    if x >= 0 && y > 0 {
        assert(r == r0) by (nonlinear_arith)
            requires
                x == ax, y == ay, q == q0, r == x - y * q, ax == q0 * ay + r0,
        ;
    } else if x >= 0 && y < 0 {
        assert(r == r0) by (nonlinear_arith)
            requires
                x == ax, y == -ay, q == -q0, r == x - y * q, ax == q0 * ay + r0,
        ;
    } else if x < 0 && y > 0 {
        assert(r == -r0) by (nonlinear_arith)
            requires
                x == -ax, y == ay, q == -q0, r == x - y * q, ax == q0 * ay + r0,
        ;
    } else {
        assert(r == -r0) by (nonlinear_arith)
            requires
                x == -ax, y == -ay, q == q0, r == x - y * q, ax == q0 * ay + r0,
        ;
    }
}

/// On float operands `+`, `-`, `*` and `/` compile to the float instruction
/// that stands beside the integer instruction for the same operator, and the
/// other operators are refused; operands of different kinds are refused.
pub proof fn law_float_instructions_match_integer_ones(op: BinOp, l: ValueKind, r: ValueKind)
    ensures
        (op == BinOp::Add || op == BinOp::Sub || op == BinOp::Mul || op == BinOp::Div) ==> (instruction_for(
            op,
            ValueKind::Float,
            ValueKind::Float,
        ) matches Ok(i) && int_result(i, 0, 1) is None && integer_counterpart(i) == instruction_for(
            op,
            ValueKind::Int,
            ValueKind::Int,
        )->Ok_0),
        !(op == BinOp::Add || op == BinOp::Sub || op == BinOp::Mul || op == BinOp::Div) ==> instruction_for(
            op,
            ValueKind::Float,
            ValueKind::Float,
        ) == Err::<Instruction, CodegenError>(CodegenError::UnsupportedFloatOperator),
        l != r ==> instruction_for(op, l, r) == Err::<Instruction, CodegenError>(CodegenError::TypeMismatch),
        l == ValueKind::Other ==> instruction_for(op, l, r) == Err::<Instruction, CodegenError>(CodegenError::TypeMismatch),
{
}

} // verus!

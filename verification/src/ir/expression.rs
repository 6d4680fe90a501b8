//! The expression tree shared by the lifter, the structuring engine and the
//! symbol layer. Arithmetic on two known constants is folded as soon as the
//! node is built.
use crate::address::Address;
use crate::ir::pcode::Storage;
use crate::ir::type_system::{InstructionSize, VariableType};
use vstd::prelude::*;

verus! {

/// What a name can be attached to: an address of the image, or a storage
/// slot inside a function.
#[derive(Clone, Copy, Debug, PartialEq, Eq, Structural, Hash)]
pub enum VariableSymbol {
    Ram(Address),
    Slot(Storage),
}

/// An operation on one operand.
#[derive(Clone, Copy, Debug, PartialEq, Eq, Structural, Hash)]
pub enum UnaryOp {
    /// Two's complement negation.
    Negate,
    /// Bitwise complement.
    Not,
    /// Truth negation: zero becomes one, anything else zero.
    LogicalNot,
}

/// An operation on two operands.
#[derive(Clone, Copy, Debug, PartialEq, Eq, Structural, Hash)]
pub enum BinaryOp {
    Add,
    Sub,
    Mul,
    And,
    Or,
    Xor,
    ShiftLeft,
    ShiftRight,
    Equal,
    NotEqual,
    Less,
    LessEqual,
    SignedLess,
    SignedLessEqual,
    LogicalAnd,
    LogicalOr,
}

impl BinaryOp {
    /// Whether the operation compares its operands.
    pub open spec fn is_comparison(self) -> bool {
        self == BinaryOp::Equal || self == BinaryOp::NotEqual || self == BinaryOp::Less || self
            == BinaryOp::LessEqual || self == BinaryOp::SignedLess || self
            == BinaryOp::SignedLessEqual
    }

    /// Whether the result is a truth value, zero or one.
    pub open spec fn yields_boolean(self) -> bool {
        self.is_comparison() || self == BinaryOp::LogicalAnd || self == BinaryOp::LogicalOr
    }

    pub fn gives_boolean(self) -> (b: bool)
        ensures
            b == self.yields_boolean(),
    {
        match self {
            BinaryOp::Equal
            | BinaryOp::NotEqual
            | BinaryOp::Less
            | BinaryOp::LessEqual
            | BinaryOp::SignedLess
            | BinaryOp::SignedLessEqual
            | BinaryOp::LogicalAnd
            | BinaryOp::LogicalOr => true,
            _ => false,
        }
    }
}

/// The shape of one node of an expression.
#[derive(Debug, PartialEq, Eq)]
pub enum ExpressionOp {
    /// A known constant.
    Value(u64),
    /// The content of a storage slot: a register or a temporary.
    Register(Storage),
    /// The content of memory at the address the operand stands for.
    Memory(Box<Expression>),
    Unary(UnaryOp, Box<Expression>),
    Binary(BinaryOp, Box<Expression>, Box<Expression>),
    /// A value about which nothing is known.
    Unknown,
}

/// A tree of operations. Each node carries the width and the kind of the
/// value it stands for.
#[derive(Debug, PartialEq, Eq)]
pub struct Expression {
    pub op: ExpressionOp,
    pub size: InstructionSize,
    pub kind: VariableType,
}

/// One as the truth value of `b`, zero otherwise.
pub open spec fn truth_value(b: bool) -> u64 {
    if b {
        1
    } else {
        0
    }
}

/// The value of `op` applied to `v`, a number of width `size`.
pub open spec fn fold_unary(op: UnaryOp, v: u64, size: InstructionSize) -> u64 {
    match op {
        UnaryOp::Negate => size.truncated(0u64.wrapping_sub(v)),
        UnaryOp::Not => size.truncated(!v),
        UnaryOp::LogicalNot => truth_value(v == 0),
    }
}

/// The value of `op` applied to `a` and `b`, numbers of width `size`.
/// Arithmetic wraps at the width; a shift by 64 or more gives zero.
pub open spec fn fold_binary(op: BinaryOp, a: u64, b: u64, size: InstructionSize) -> u64 {
    match op {
        BinaryOp::Add => size.truncated(a.wrapping_add(b)),
        BinaryOp::Sub => size.truncated(a.wrapping_sub(b)),
        BinaryOp::Mul => size.truncated(a.wrapping_mul(b)),
        BinaryOp::And => size.truncated(a & b),
        BinaryOp::Or => size.truncated(a | b),
        BinaryOp::Xor => size.truncated(a ^ b),
        BinaryOp::ShiftLeft => if b < 64 {
            size.truncated(a << b)
        } else {
            0
        },
        BinaryOp::ShiftRight => if b < 64 {
            size.truncated(a >> b)
        } else {
            0
        },
        BinaryOp::Equal => truth_value(a == b),
        BinaryOp::NotEqual => truth_value(a != b),
        BinaryOp::Less => truth_value(a < b),
        BinaryOp::LessEqual => truth_value(a <= b),
        BinaryOp::SignedLess => truth_value(size.signed(a) < size.signed(b)),
        BinaryOp::SignedLessEqual => truth_value(size.signed(a) <= size.signed(b)),
        BinaryOp::LogicalAnd => truth_value(a != 0 && b != 0),
        BinaryOp::LogicalOr => truth_value(a != 0 || b != 0),
    }
}

/// The width of the result of `op` on operands of width `operand`.
pub open spec fn binary_size(op: BinaryOp, operand: InstructionSize) -> InstructionSize {
    if op.yields_boolean() {
        InstructionSize::U8
    } else {
        operand
    }
}

/// The kind of the result of `op`.
pub open spec fn binary_kind(op: BinaryOp) -> VariableType {
    if op.yields_boolean() {
        VariableType::Boolean
    } else {
        VariableType::Integer
    }
}

/// The width of the result of the unary `op` on an operand of width `operand`.
pub open spec fn unary_size(op: UnaryOp, operand: InstructionSize) -> InstructionSize {
    if op == UnaryOp::LogicalNot {
        InstructionSize::U8
    } else {
        operand
    }
}

/// The kind of the result of the unary `op`.
pub open spec fn unary_kind(op: UnaryOp) -> VariableType {
    if op == UnaryOp::LogicalNot {
        VariableType::Boolean
    } else {
        VariableType::Integer
    }
}

pub fn fold_unary_value(op: UnaryOp, v: u64, size: InstructionSize) -> (r: u64)
    ensures
        r == fold_unary(op, v, size),
{
    match op {
        UnaryOp::Negate => size.truncate(0u64.wrapping_sub(v)),
        UnaryOp::Not => size.truncate(!v),
        UnaryOp::LogicalNot => if v == 0 {
            1
        } else {
            0
        },
    }
}

pub fn fold_binary_value(op: BinaryOp, a: u64, b: u64, size: InstructionSize) -> (r: u64)
    requires
        a < size.modulus(),
        b < size.modulus(),
    ensures
        r == fold_binary(op, a, b, size),
{
    match op {
        BinaryOp::Add => size.truncate(a.wrapping_add(b)),
        BinaryOp::Sub => size.truncate(a.wrapping_sub(b)),
        BinaryOp::Mul => size.truncate(a.wrapping_mul(b)),
        BinaryOp::And => size.truncate(a & b),
        BinaryOp::Or => size.truncate(a | b),
        BinaryOp::Xor => size.truncate(a ^ b),
        BinaryOp::ShiftLeft => if b < 64 {
            size.truncate(a << b)
        } else {
            0
        },
        BinaryOp::ShiftRight => if b < 64 {
            size.truncate(a >> b)
        } else {
            0
        },
        BinaryOp::Equal => if a == b {
            1
        } else {
            0
        },
        BinaryOp::NotEqual => if a != b {
            1
        } else {
            0
        },
        BinaryOp::Less => if a < b {
            1
        } else {
            0
        },
        BinaryOp::LessEqual => if a <= b {
            1
        } else {
            0
        },
        BinaryOp::SignedLess => if size.signed_less(a, b) {
            1
        } else {
            0
        },
        BinaryOp::SignedLessEqual => if size.signed_less(b, a) {
            0
        } else {
            1
        },
        BinaryOp::LogicalAnd => if a != 0 && b != 0 {
            1
        } else {
            0
        },
        BinaryOp::LogicalOr => if a != 0 || b != 0 {
            1
        } else {
            0
        },
    }
}

impl Expression {
    /// The constant `v` at width `size`.
    pub open spec fn value_spec(v: u64, size: InstructionSize) -> Expression {
        Expression { op: ExpressionOp::Value(size.truncated(v)), size, kind: VariableType::Integer }
    }

    /// The content of the storage slot `slot`, at the slot's width.
    pub open spec fn register_spec(slot: Storage) -> Expression {
        Expression {
            op: ExpressionOp::Register(slot),
            size: InstructionSize::of_bytes(slot.size as u64),
            kind: VariableType::Unknown,
        }
    }

    /// The content of memory at `address`, read at width `size`.
    pub open spec fn memory_spec(address: Expression, size: InstructionSize) -> Expression {
        Expression { op: ExpressionOp::Memory(Box::new(address)), size, kind: VariableType::Unknown }
    }

    /// A value of width `size` about which nothing is known.
    pub open spec fn unknown_spec(size: InstructionSize) -> Expression {
        Expression { op: ExpressionOp::Unknown, size, kind: VariableType::Unknown }
    }

    /// `op` applied to `operand`: the folded constant where the operand is
    /// one, the new node otherwise.
    pub open spec fn unary_spec(op: UnaryOp, operand: Expression) -> Expression {
        let size = unary_size(op, operand.size);
        let kind = unary_kind(op);
        match operand.op {
            ExpressionOp::Value(v) => Expression {
                op: ExpressionOp::Value(fold_unary(op, operand.size.truncated(v), operand.size)),
                size,
                kind,
            },
            _ => Expression { op: ExpressionOp::Unary(op, Box::new(operand)), size, kind },
        }
    }

    /// `op` applied to `left` and `right`: the folded constant where both are
    /// constants, the new node otherwise. The operands are taken at the
    /// width of the left one.
    pub open spec fn binary_spec(op: BinaryOp, left: Expression, right: Expression) -> Expression {
        let size = binary_size(op, left.size);
        let kind = binary_kind(op);
        match (left.op, right.op) {
            (ExpressionOp::Value(a), ExpressionOp::Value(b)) => Expression {
                op: ExpressionOp::Value(
                    fold_binary(op, left.size.truncated(a), left.size.truncated(b), left.size),
                ),
                size,
                kind,
            },
            _ => Expression {
                op: ExpressionOp::Binary(op, Box::new(left), Box::new(right)),
                size,
                kind,
            },
        }
    }

    /// The expression that stands for the address itself.
    pub open spec fn address_spec(address: Address) -> Expression {
        Expression {
            op: ExpressionOp::Value(address.0),
            size: InstructionSize::U64,
            kind: VariableType::Pointer,
        }
    }

    pub fn value(v: u64, size: InstructionSize) -> (e: Expression)
        ensures
            e == Expression::value_spec(v, size),
    {
        Expression { op: ExpressionOp::Value(size.truncate(v)), size, kind: VariableType::Integer }
    }

    pub fn register(slot: Storage) -> (e: Expression)
        ensures
            e == Expression::register_spec(slot),
    {
        Expression {
            op: ExpressionOp::Register(slot),
            size: InstructionSize::from_bytes(slot.size as u64),
            kind: VariableType::Unknown,
        }
    }

    pub fn memory(address: Expression, size: InstructionSize) -> (e: Expression)
        ensures
            e == Expression::memory_spec(address, size),
    {
        Expression { op: ExpressionOp::Memory(Box::new(address)), size, kind: VariableType::Unknown }
    }

    pub fn unknown(size: InstructionSize) -> (e: Expression)
        ensures
            e == Expression::unknown_spec(size),
    {
        Expression { op: ExpressionOp::Unknown, size, kind: VariableType::Unknown }
    }

    pub fn from_address(address: Address) -> (e: Expression)
        ensures
            e == Expression::address_spec(address),
    {
        Expression {
            op: ExpressionOp::Value(address.0),
            size: InstructionSize::U64,
            kind: VariableType::Pointer,
        }
    }

    pub fn unary(op: UnaryOp, operand: Expression) -> (e: Expression)
        ensures
            e == Expression::unary_spec(op, operand),
    {
        let size = match op {
            UnaryOp::LogicalNot => InstructionSize::U8,
            _ => operand.size,
        };
        let kind = match op {
            UnaryOp::LogicalNot => VariableType::Boolean,
            _ => VariableType::Integer,
        };
        match operand.op {
            ExpressionOp::Value(v) => {
                let folded: u64 = fold_unary_value(op, operand.size.truncate(v), operand.size);
                Expression { op: ExpressionOp::Value(folded), size, kind }
            },
            _ => Expression { op: ExpressionOp::Unary(op, Box::new(operand)), size, kind },
        }
    }

    pub fn binary(op: BinaryOp, left: Expression, right: Expression) -> (e: Expression)
        ensures
            e == Expression::binary_spec(op, left, right),
    {
        let boolean = op.gives_boolean();
        let size = if boolean {
            InstructionSize::U8
        } else {
            left.size
        };
        let kind = if boolean {
            VariableType::Boolean
        } else {
            VariableType::Integer
        };
        let constants: Option<(u64, u64)> = match (&left.op, &right.op) {
            (ExpressionOp::Value(a), ExpressionOp::Value(b)) => Some((*a, *b)),
            _ => None,
        };
        match constants {
            Some((a, b)) => {
                let folded: u64 = fold_binary_value(
                    op,
                    left.size.truncate(a),
                    left.size.truncate(b),
                    left.size,
                );
                Expression { op: ExpressionOp::Value(folded), size, kind }
            },
            None => Expression {
                op: ExpressionOp::Binary(op, Box::new(left), Box::new(right)),
                size,
                kind,
            },
        }
    }

    /// The operation at the root of the tree.
    pub fn root_op(&self) -> (op: &ExpressionOp)
        ensures
            *op == self.op,
    {
        &self.op
    }

    /// The constant that the expression is, if it is one.
    pub fn as_constant(&self) -> (v: Option<u64>)
        ensures
            v == match self.op {
                ExpressionOp::Value(c) => Some(c),
                _ => None,
            },
    {
        match self.op {
            ExpressionOp::Value(c) => Some(c),
            _ => None,
        }
    }

    /// A copy of the whole tree.
    pub fn duplicate(&self) -> (e: Expression)
        ensures
            e == *self,
        decreases *self,
    {
        let op = match &self.op {
            ExpressionOp::Value(v) => ExpressionOp::Value(*v),
            ExpressionOp::Register(id) => ExpressionOp::Register(*id),
            ExpressionOp::Memory(a) => ExpressionOp::Memory(Box::new(a.duplicate())),
            ExpressionOp::Unary(u, a) => ExpressionOp::Unary(*u, Box::new(a.duplicate())),
            ExpressionOp::Binary(b, l, r) => ExpressionOp::Binary(
                *b,
                Box::new(l.duplicate()),
                Box::new(r.duplicate()),
            ),
            ExpressionOp::Unknown => ExpressionOp::Unknown,
        };
        Expression { op, size: self.size, kind: self.kind }
    }

    /// Whether two trees are the same, node for node.
    pub fn same(&self, other: &Expression) -> (b: bool)
        ensures
            b == (*self == *other),
        decreases *self,
    {
        if !(self.size == other.size && self.kind == other.kind) {
            return false;
        }
        match (&self.op, &other.op) {
            (ExpressionOp::Value(a), ExpressionOp::Value(b)) => *a == *b,
            (ExpressionOp::Register(a), ExpressionOp::Register(b)) => *a == *b,
            (ExpressionOp::Memory(a), ExpressionOp::Memory(b)) => a.same(b),
            (ExpressionOp::Unary(u, a), ExpressionOp::Unary(v, b)) => *u == *v && a.same(b),
            (ExpressionOp::Binary(o, a, b), ExpressionOp::Binary(p, c, d)) => *o == *p && a.same(c)
                && b.same(d),
            (ExpressionOp::Unknown, ExpressionOp::Unknown) => true,
            _ => false,
        }
    }
}

/// The comparison that holds exactly when `op` on the operands the other
/// way round does not, if `op` is an ordering.
pub open spec fn reversed_ordering(op: BinaryOp) -> Option<BinaryOp> {
    match op {
        BinaryOp::Less => Some(BinaryOp::LessEqual),
        BinaryOp::LessEqual => Some(BinaryOp::Less),
        BinaryOp::SignedLess => Some(BinaryOp::SignedLessEqual),
        BinaryOp::SignedLessEqual => Some(BinaryOp::SignedLess),
        _ => None,
    }
}

/// The condition that holds exactly when `e` does not: a negation is taken
/// off, an equality becomes an inequality and the other way round, an
/// ordering becomes the opposite ordering of the operands exchanged, a
/// constant is negated, and anything else gets a negation in front.
pub open spec fn negated(e: Expression) -> Expression {
    match e.op {
        ExpressionOp::Unary(UnaryOp::LogicalNot, inner) => *inner,
        ExpressionOp::Binary(BinaryOp::Equal, a, b) => Expression {
            op: ExpressionOp::Binary(BinaryOp::NotEqual, a, b),
            size: e.size,
            kind: e.kind,
        },
        ExpressionOp::Binary(BinaryOp::NotEqual, a, b) => Expression {
            op: ExpressionOp::Binary(BinaryOp::Equal, a, b),
            size: e.size,
            kind: e.kind,
        },
        ExpressionOp::Binary(op, a, b) => match reversed_ordering(op) {
            Some(other) => Expression {
                op: ExpressionOp::Binary(other, b, a),
                size: e.size,
                kind: e.kind,
            },
            None => Expression::unary_spec(UnaryOp::LogicalNot, e),
        },
        _ => Expression::unary_spec(UnaryOp::LogicalNot, e),
    }
}

/// Whether `e` is the constant zero.
pub open spec fn is_zero(e: Expression) -> bool {
    e.op == ExpressionOp::Value(0)
}

/// The condition `e` in a simpler form, as far as the known identities
/// reach: a negation is pushed into what it negates; a truth value compared
/// with zero is the truth value itself, or its negation; and both sides of
/// a conjunction or disjunction are simplified, where that leaves them of
/// one width. Anything else stays as it is.
pub open spec fn simplified(e: Expression) -> Expression
    decreases e,
{
    match e.op {
        ExpressionOp::Unary(UnaryOp::LogicalNot, inner) => negated(simplified(*inner)),
        ExpressionOp::Binary(BinaryOp::Equal, a, b) => if is_zero(*b) && a.kind
            == VariableType::Boolean {
            negated(simplified(*a))
        } else {
            e
        },
        ExpressionOp::Binary(BinaryOp::NotEqual, a, b) => if is_zero(*b) && a.kind
            == VariableType::Boolean {
            simplified(*a)
        } else {
            e
        },
        ExpressionOp::Binary(BinaryOp::LogicalAnd, a, b) => if simplified(*a).size == simplified(
            *b,
        ).size {
            Expression::binary_spec(BinaryOp::LogicalAnd, simplified(*a), simplified(*b))
        } else {
            e
        },
        ExpressionOp::Binary(BinaryOp::LogicalOr, a, b) => if simplified(*a).size == simplified(
            *b,
        ).size {
            Expression::binary_spec(BinaryOp::LogicalOr, simplified(*a), simplified(*b))
        } else {
            e
        },
        _ => e,
    }
}

fn reverse_ordering(op: BinaryOp) -> (r: Option<BinaryOp>)
    ensures
        r == reversed_ordering(op),
{
    match op {
        BinaryOp::Less => Some(BinaryOp::LessEqual),
        BinaryOp::LessEqual => Some(BinaryOp::Less),
        BinaryOp::SignedLess => Some(BinaryOp::SignedLessEqual),
        BinaryOp::SignedLessEqual => Some(BinaryOp::SignedLess),
        _ => None,
    }
}

/// The condition that holds exactly when `e` does not.
pub fn negate(e: Expression) -> (r: Expression)
    ensures
        r == negated(e),
{
    let Expression { op, size, kind } = e;
    match op {
        ExpressionOp::Unary(UnaryOp::LogicalNot, inner) => *inner,
        ExpressionOp::Binary(BinaryOp::Equal, a, b) => Expression {
            op: ExpressionOp::Binary(BinaryOp::NotEqual, a, b),
            size,
            kind,
        },
        ExpressionOp::Binary(BinaryOp::NotEqual, a, b) => Expression {
            op: ExpressionOp::Binary(BinaryOp::Equal, a, b),
            size,
            kind,
        },
        ExpressionOp::Binary(o, a, b) => match reverse_ordering(o) {
            Some(other) => Expression { op: ExpressionOp::Binary(other, b, a), size, kind },
            None => Expression::unary(
                UnaryOp::LogicalNot,
                Expression { op: ExpressionOp::Binary(o, a, b), size, kind },
            ),
        },
        other => Expression::unary(UnaryOp::LogicalNot, Expression { op: other, size, kind }),
    }
}

/// The condition `e` in a simpler form.
pub fn simplify(e: &Expression) -> (r: Expression)
    ensures
        r == simplified(*e),
    decreases *e,
{
    match &e.op {
        ExpressionOp::Unary(UnaryOp::LogicalNot, inner) => negate(simplify(inner)),
        ExpressionOp::Binary(BinaryOp::Equal, a, b) => {
            let zero = match b.op {
                ExpressionOp::Value(v) => v == 0,
                _ => false,
            };
            if zero && a.kind == VariableType::Boolean {
                negate(simplify(a))
            } else {
                e.duplicate()
            }
        },
        ExpressionOp::Binary(BinaryOp::NotEqual, a, b) => {
            let zero = match b.op {
                ExpressionOp::Value(v) => v == 0,
                _ => false,
            };
            if zero && a.kind == VariableType::Boolean {
                simplify(a)
            } else {
                e.duplicate()
            }
        },
        ExpressionOp::Binary(BinaryOp::LogicalAnd, a, b) => {
            let left = simplify(a);
            let right = simplify(b);
            if left.size == right.size {
                Expression::binary(BinaryOp::LogicalAnd, left, right)
            } else {
                e.duplicate()
            }
        },
        ExpressionOp::Binary(BinaryOp::LogicalOr, a, b) => {
            let left = simplify(a);
            let right = simplify(b);
            if left.size == right.size {
                Expression::binary(BinaryOp::LogicalOr, left, right)
            } else {
                e.duplicate()
            }
        },
        _ => e.duplicate(),
    }
}

impl Clone for Expression {
    fn clone(&self) -> (e: Expression)
        ensures
            e == *self,
    {
        self.duplicate()
    }
}

} // verus!

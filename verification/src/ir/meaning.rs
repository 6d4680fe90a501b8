//! What an expression stands for: its value in a state of the machine.
//! Folding and simplifying change the form of a condition, not whether it
//! holds.
use crate::ir::expression::{
    binary_kind, binary_size, fold_binary, fold_unary, is_zero, negated, reversed_ordering,
    simplified, unary_kind, unary_size, BinaryOp, Expression, ExpressionOp, UnaryOp,
};
use crate::ir::pcode::Storage;
use crate::ir::type_system::{InstructionSize, VariableType};
use vstd::prelude::*;

verus! {

/// A state of the machine: what each slot holds, what memory holds at each
/// address, and the value that stands for what is unknown.
pub struct State {
    pub slots: spec_fn(Storage) -> u64,
    pub memory: spec_fn(u64) -> u64,
    pub unknown: u64,
}

/// The value of `e` in `state`.
pub open spec fn value_in(e: Expression, state: State) -> u64
    decreases e,
{
    match e.op {
        ExpressionOp::Value(v) => v,
        ExpressionOp::Register(slot) => e.size.truncated((state.slots)(slot)),
        ExpressionOp::Memory(address) => e.size.truncated((state.memory)(value_in(*address, state))),
        ExpressionOp::Unary(op, operand) => fold_unary(op, value_in(*operand, state), operand.size),
        ExpressionOp::Binary(op, left, right) => fold_binary(
            op,
            value_in(*left, state),
            value_in(*right, state),
            left.size,
        ),
        ExpressionOp::Unknown => e.size.truncated(state.unknown),
    }
}

/// Whether the condition `e` holds in `state`.
pub open spec fn holds_in(e: Expression, state: State) -> bool {
    value_in(e, state) != 0
}

/// Whether the widths of `e` fit together: a constant fits its width, the
/// two operands of an operation have one width, and each node has the width
/// that its operation gives.
pub open spec fn sized(e: Expression) -> bool
    decreases e,
{
    match e.op {
        ExpressionOp::Value(v) => v < e.size.modulus(),
        ExpressionOp::Memory(address) => sized(*address),
        ExpressionOp::Unary(op, operand) => sized(*operand) && e.size == unary_size(
            op,
            operand.size,
        ),
        ExpressionOp::Binary(op, left, right) => sized(*left) && sized(*right) && left.size
            == right.size && e.size == binary_size(op, left.size),
        _ => true,
    }
}

/// The value of an expression whose widths fit together fits the width of
/// the expression.
pub proof fn value_fits(e: Expression, state: State)
    requires
        sized(e),
    ensures
        value_in(e, state) < e.size.modulus(),
    decreases e,
{
    match e.op {
        ExpressionOp::Unary(op, operand) => {
            value_fits(*operand, state);
        },
        ExpressionOp::Binary(op, left, right) => {
            value_fits(*left, state);
            value_fits(*right, state);
        },
        _ => {},
    }
}

/// Folding keeps the value: an operation built from two operands has the
/// value of the operation on the values of the operands, whether it was
/// folded to a constant or not.
pub proof fn folding_keeps_the_value(op: BinaryOp, left: Expression, right: Expression, state: State)
    requires
        sized(left),
        sized(right),
        left.size == right.size,
    ensures
        sized(Expression::binary_spec(op, left, right)),
        value_in(Expression::binary_spec(op, left, right), state) == fold_binary(
            op,
            value_in(left, state),
            value_in(right, state),
            left.size,
        ),
{
}

/// Folding keeps the value of an operation on one operand.
pub proof fn unary_folding_keeps_the_value(op: UnaryOp, operand: Expression, state: State)
    requires
        sized(operand),
    ensures
        sized(Expression::unary_spec(op, operand)),
        value_in(Expression::unary_spec(op, operand), state) == fold_unary(
            op,
            value_in(operand, state),
            operand.size,
        ),
{
}

/// The negated condition holds exactly when the condition does not.
pub proof fn negation_means_not(e: Expression, state: State)
    requires
        sized(e),
    ensures
        sized(negated(e)),
        holds_in(negated(e), state) == !holds_in(e, state),
{
    match e.op {
        ExpressionOp::Unary(UnaryOp::LogicalNot, inner) => {},
        ExpressionOp::Binary(op, a, b) => {
            value_fits(*a, state);
            value_fits(*b, state);
            if op != BinaryOp::Equal && op != BinaryOp::NotEqual && reversed_ordering(op) is None {
                unary_folding_keeps_the_value(UnaryOp::LogicalNot, e, state);
            }
        },
        _ => {
            unary_folding_keeps_the_value(UnaryOp::LogicalNot, e, state);
        },
    }
}

/// The simplified condition holds exactly when the condition does.
pub proof fn simplification_keeps_the_meaning(e: Expression, state: State)
    requires
        sized(e),
    ensures
        sized(simplified(e)),
        holds_in(simplified(e), state) == holds_in(e, state),
    decreases e,
{
    match e.op {
        ExpressionOp::Unary(UnaryOp::LogicalNot, inner) => {
            simplification_keeps_the_meaning(*inner, state);
            negation_means_not(simplified(*inner), state);
            assert(simplified(e) == negated(simplified(*inner)));
            assert(value_in(e, state) == fold_unary(
                UnaryOp::LogicalNot,
                value_in(*inner, state),
                inner.size,
            ));
        },
        ExpressionOp::Binary(BinaryOp::Equal, a, b) => {
            if is_zero(*b) && a.kind == VariableType::Boolean {
                simplification_keeps_the_meaning(*a, state);
                negation_means_not(simplified(*a), state);
                assert(value_in(*b, state) == 0);
                assert(value_in(e, state) == fold_binary(
                    BinaryOp::Equal,
                    value_in(*a, state),
                    value_in(*b, state),
                    a.size,
                ));
                assert(simplified(e) == negated(simplified(*a)));
            } else {
                assert(simplified(e) == e);
            }
        },
        ExpressionOp::Binary(BinaryOp::NotEqual, a, b) => {
            if is_zero(*b) && a.kind == VariableType::Boolean {
                simplification_keeps_the_meaning(*a, state);
                assert(value_in(*b, state) == 0);
                assert(value_in(e, state) == fold_binary(
                    BinaryOp::NotEqual,
                    value_in(*a, state),
                    value_in(*b, state),
                    a.size,
                ));
                assert(simplified(e) == simplified(*a));
            } else {
                assert(simplified(e) == e);
            }
        },
        ExpressionOp::Binary(BinaryOp::LogicalAnd, a, b) => {
            simplification_keeps_the_meaning(*a, state);
            simplification_keeps_the_meaning(*b, state);
            if simplified(*a).size == simplified(*b).size {
                folding_keeps_the_value(BinaryOp::LogicalAnd, simplified(*a), simplified(*b), state);
            }
        },
        ExpressionOp::Binary(BinaryOp::LogicalOr, a, b) => {
            simplification_keeps_the_meaning(*a, state);
            simplification_keeps_the_meaning(*b, state);
            if simplified(*a).size == simplified(*b).size {
                folding_keeps_the_value(BinaryOp::LogicalOr, simplified(*a), simplified(*b), state);
            }
        },
        _ => {},
    }
}

} // verus!

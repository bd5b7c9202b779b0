//! The rules the operators of the language apply to the kinds of their operands:
//! truthiness, which operands an operator accepts and the error it gives otherwise, and
//! when `and` and `or` stop after their left operand.
use crate::error::Error;
use crate::parse::{BinaryOperator, UnaryOperator};
use vstd::prelude::*;
use vstd::string::StringExecFns;

verus! {

/// A value as the operator rules see it: its kind, and for a boolean its truth.
/// Numbers, strings and functions carry nothing these rules read.
#[derive(Debug, Clone, Copy, PartialEq, Eq, Structural)]
pub enum Kind {
    Number,
    Str,
    Bool(bool),
    Function,
    Nil,
}

/// `nil` and `false` are false; every other value is true.
pub open spec fn truth(v: Kind) -> bool {
    match v {
        Kind::Nil => false,
        Kind::Bool(b) => b,
        _ => true,
    }
}

/// Two values can be compared when both are numbers or both are `nil` (of two
/// numbers, a NaN still has no order; that is for whoever holds the numbers to see).
pub open spec fn comparable(l: Kind, r: Kind) -> bool {
    (l == Kind::Number && r == Kind::Number) || (l == Kind::Nil && r == Kind::Nil)
}

/// The message of the error `op` gives for operands of kinds `l` and `r`, or `None`
/// when it accepts them.
pub open spec fn binary_refusal(op: BinaryOperator, l: Kind, r: Kind) -> Option<Seq<char>> {
    match op {
        BinaryOperator::Add => if (l == Kind::Number && r == Kind::Number) || (l == Kind::Str && r
            == Kind::Str) {
            None
        } else {
            Some("Operands must be number or string."@)
        },
        BinaryOperator::Minus | BinaryOperator::Multiply | BinaryOperator::Divide => if l
            == Kind::Number && r == Kind::Number {
            None
        } else {
            Some("Operands must be number."@)
        },
        BinaryOperator::Or | BinaryOperator::And => None,
        _ => if comparable(l, r) {
            None
        } else {
            Some("Uncomparable."@)
        },
    }
}

/// Which operand kinds each operator accepts, stated without the messages: `+` exactly
/// two numbers or two strings, `-`, `*` and `/` exactly two numbers, the comparisons
/// exactly two numbers or two `nil`s, `and` and `or` anything. In particular every
/// operator accepts `l, r` exactly when it accepts `r, l`.
pub proof fn law_accepted_operands(op: BinaryOperator, l: Kind, r: Kind)
    ensures
        op == BinaryOperator::Add ==> (binary_refusal(op, l, r) is None <==> (l == r && (l
            == Kind::Number || l == Kind::Str))),
        (op == BinaryOperator::Minus || op == BinaryOperator::Multiply || op
            == BinaryOperator::Divide) ==> (binary_refusal(op, l, r) is None <==> (l == Kind::Number
            && r == Kind::Number)),
        (op == BinaryOperator::Equal || op == BinaryOperator::NotEqual || op == BinaryOperator::Less
            || op == BinaryOperator::LessEqual || op == BinaryOperator::Greater || op
            == BinaryOperator::GreaterEqual) ==> (binary_refusal(op, l, r) is None <==> (l == r && (l
            == Kind::Number || l == Kind::Nil))),
        (op == BinaryOperator::And || op == BinaryOperator::Or) ==> binary_refusal(op, l, r) is None,
        binary_refusal(op, l, r) == binary_refusal(op, r, l),
{
}

/// The truth of a value: whether `if` and `while` take their branch on it.
pub fn truthy(v: Kind) -> (b: bool)
    ensures
        b == truth(v),
        !b <==> (v == Kind::Nil || v == Kind::Bool(false)),
{
    match v {
        Kind::Nil => false,
        Kind::Bool(b) => b,
        _ => true,
    }
}

/// Whether a unary operator accepts an operand of kind `v`: negation takes only a
/// number, `!` takes anything.
pub fn check_unary(op: UnaryOperator, v: Kind) -> (r: Result<(), Error>)
    ensures
        (op == UnaryOperator::Negative && v != Kind::Number) <==> (r matches Err(
            Error::RuntimeError(m),
        ) && m@ == "Operand must be boolean."@),
        r is Err ==> (op == UnaryOperator::Negative && v != Kind::Number),
{
    match (op, v) {
        (UnaryOperator::Negative, Kind::Number) | (UnaryOperator::Not, _) => Ok(()),
        _ => Err(Error::RuntimeError(String::from_str("Operand must be boolean."))),
    }
}

/// Whether a binary operator accepts operands of kinds `l` and `r`: `+` takes two
/// numbers or two strings, `-`, `*` and `/` two numbers, the comparisons two numbers or
/// two `nil`s, and `and` and `or` anything.
pub fn check_binary(op: BinaryOperator, l: Kind, r: Kind) -> (res: Result<(), Error>)
    ensures
        match binary_refusal(op, l, r) {
            None => res is Ok,
            Some(msg) => res matches Err(Error::RuntimeError(m)) && m@ == msg,
        },
        op == BinaryOperator::Add ==> (res is Ok <==> (l == r && (l == Kind::Number || l
            == Kind::Str))),
        (op == BinaryOperator::Minus || op == BinaryOperator::Multiply || op
            == BinaryOperator::Divide) ==> (res is Ok <==> (l == Kind::Number && r == Kind::Number)),
        (op == BinaryOperator::Equal || op == BinaryOperator::NotEqual || op == BinaryOperator::Less
            || op == BinaryOperator::LessEqual || op == BinaryOperator::Greater || op
            == BinaryOperator::GreaterEqual) ==> (res is Ok <==> (l == r && (l == Kind::Number || l
            == Kind::Nil))),
        (op == BinaryOperator::And || op == BinaryOperator::Or) ==> res is Ok,
{
    let both_numbers = l == Kind::Number && r == Kind::Number;
    match op {
        BinaryOperator::Add => {
            if both_numbers || (l == Kind::Str && r == Kind::Str) {
                Ok(())
            } else {
                Err(Error::RuntimeError(String::from_str("Operands must be number or string.")))
            }
        },
        BinaryOperator::Minus | BinaryOperator::Multiply | BinaryOperator::Divide => {
            if both_numbers {
                Ok(())
            } else {
                Err(Error::RuntimeError(String::from_str("Operands must be number.")))
            }
        },
        BinaryOperator::Or | BinaryOperator::And => Ok(()),
        _ => {
            if both_numbers || (l == Kind::Nil && r == Kind::Nil) {
                Ok(())
            } else {
                Err(Error::RuntimeError(String::from_str("Uncomparable.")))
            }
        },
    }
}

/// Whether `op` gives its left operand `l` as its value without looking at its right
/// one: `or` on a true left operand, `and` on a false one.
pub fn short_circuits(op: BinaryOperator, l: Kind) -> (b: bool)
    ensures
        b == ((op == BinaryOperator::Or && truth(l)) || (op == BinaryOperator::And && !truth(l))),
{
    match op {
        BinaryOperator::Or => truthy(l),
        BinaryOperator::And => !truthy(l),
        _ => false,
    }
}

} // verus!

//! The operators which can appear in a parsed expression tree.

use vstd::prelude::*;

verus! {

/// A binary operator joining the two operands of a binary expression node:
/// a comparison, a membership test, or an arithmetic operation.
///
/// The short-circuiting logical operators live in [`LogicalOperator`]
/// instead, and `like`/`like_cs`/`matches` are expression nodes of their own
/// (they carry a compiled pattern).
#[derive(Debug, Clone, Copy, PartialEq, Eq, Hash, Structural)]
pub enum BinaryOperator {
    /// Equality, `==`.
    Equals,
    /// Inequality, `!=`.
    NotEquals,
    /// Greater-than, `>`.
    GreaterThan,
    /// Less-than, `<`.
    SmallerThan,
    /// Greater-than-or-equal, `>=`.
    GreaterEqual,
    /// Less-than-or-equal, `<=`.
    SmallerEqual,
    /// Substring / tuple membership, `contains` (case-insensitive).
    Contains,
    /// Substring / tuple membership, `contains_cs` (case-sensitive).
    ContainsCs,
    /// Inverse membership, `in` (case-insensitive).
    In,
    /// Inverse membership, `in_cs` (case-sensitive).
    InCs,
    /// Prefix test, `startswith` (case-insensitive).
    StartsWith,
    /// Prefix test, `startswith_cs` (case-sensitive).
    StartsWithCs,
    /// Suffix test, `endswith` (case-insensitive).
    EndsWith,
    /// Suffix test, `endswith_cs` (case-sensitive).
    EndsWithCs,
    /// Addition, `+`.
    Plus,
    /// Subtraction, `-`.
    Minus,
}

impl BinaryOperator {
    /// The text this operator is written as in a filter expression.
    pub open spec fn text(self) -> Seq<char> {
        match self {
            BinaryOperator::Equals => "=="@,
            BinaryOperator::NotEquals => "!="@,
            BinaryOperator::GreaterThan => ">"@,
            BinaryOperator::SmallerThan => "<"@,
            BinaryOperator::GreaterEqual => ">="@,
            BinaryOperator::SmallerEqual => "<="@,
            BinaryOperator::Contains => "contains"@,
            BinaryOperator::ContainsCs => "contains_cs"@,
            BinaryOperator::In => "in"@,
            BinaryOperator::InCs => "in_cs"@,
            BinaryOperator::StartsWith => "startswith"@,
            BinaryOperator::StartsWithCs => "startswith_cs"@,
            BinaryOperator::EndsWith => "endswith"@,
            BinaryOperator::EndsWithCs => "endswith_cs"@,
            BinaryOperator::Plus => "+"@,
            BinaryOperator::Minus => "-"@,
        }
    }

    /// Returns the textual symbol or keyword this operator is written as in a
    /// filter expression (e.g. `"=="`, `"contains"`).
    pub fn symbol(&self) -> (r: &'static str)
        ensures
            r@ == self.text(),
    {
        match self {
            BinaryOperator::Equals => "==",
            BinaryOperator::NotEquals => "!=",
            BinaryOperator::GreaterThan => ">",
            BinaryOperator::SmallerThan => "<",
            BinaryOperator::GreaterEqual => ">=",
            BinaryOperator::SmallerEqual => "<=",
            BinaryOperator::Contains => "contains",
            BinaryOperator::ContainsCs => "contains_cs",
            BinaryOperator::In => "in",
            BinaryOperator::InCs => "in_cs",
            BinaryOperator::StartsWith => "startswith",
            BinaryOperator::StartsWithCs => "startswith_cs",
            BinaryOperator::EndsWith => "endswith",
            BinaryOperator::EndsWithCs => "endswith_cs",
            BinaryOperator::Plus => "+",
            BinaryOperator::Minus => "-",
        }
    }
}

/// A short-circuiting logical operator joining the two operands of a logical expression node.
#[derive(Debug, Clone, Copy, PartialEq, Eq, Hash, Structural)]
pub enum LogicalOperator {
    /// Logical AND, `&&`: the right operand is evaluated only if the left is truthy.
    And,
    /// Logical OR, `||`: the right operand is evaluated only if the left is falsy.
    Or,
}

impl LogicalOperator {
    /// The text this operator is written as in a filter expression.
    pub open spec fn text(self) -> Seq<char> {
        match self {
            LogicalOperator::And => "&&"@,
            LogicalOperator::Or => "||"@,
        }
    }

    /// Returns the textual symbol this operator is written as (`"&&"` or `"||"`).
    pub fn symbol(&self) -> (r: &'static str)
        ensures
            r@ == self.text(),
    {
        match self {
            LogicalOperator::And => "&&",
            LogicalOperator::Or => "||",
        }
    }
}

/// A unary operator applied to the single operand of a unary expression node.
#[derive(Debug, Clone, Copy, PartialEq, Eq, Hash, Structural)]
pub enum UnaryOperator {
    /// Logical NOT, `!`.
    Not,
}

impl UnaryOperator {
    /// The text this operator is written as in a filter expression.
    pub open spec fn text(self) -> Seq<char> {
        match self {
            UnaryOperator::Not => "!"@,
        }
    }

    /// Returns the textual symbol this operator is written as (`"!"`).
    pub fn symbol(&self) -> (r: &'static str)
        ensures
            r@ == self.text(),
    {
        match self {
            UnaryOperator::Not => "!",
        }
    }
}

} // verus!

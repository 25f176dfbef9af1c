//! The parsed form of a filter expression.

use vstd::prelude::*;

use crate::operator::{BinaryOperator, LogicalOperator, UnaryOperator};
use crate::pattern::{CompiledRegex, Glob};

verus! {

/// A literal value written in a filter expression.
///
/// Numbers and durations keep the text they were written as; the evaluator
/// turns that text into its numeric value.
#[derive(Debug)]
pub enum Literal {
    /// `null`.
    Null,
    /// `true` or `false`.
    Bool(bool),
    /// A number, as written: the text of a float (see [`float_text`](crate::parser::float_text)).
    Number(String),
    /// A string, with its escape sequences processed.
    String(String),
    /// A tuple of literals, written `[a, b, c]`.
    Tuple(Vec<Literal>),
    /// A duration such as `5m` or `1h30m`, as written.
    Duration(String),
}

/// The mathematical view of a [`Literal`].
pub enum LiteralView {
    Null,
    Bool(bool),
    Number(Seq<char>),
    String(Seq<char>),
    Tuple(Seq<LiteralView>),
    Duration(Seq<char>),
}

impl Literal {
    /// The mathematical view of this literal.
    pub open spec fn literal_view(&self) -> LiteralView
        decreases self,
    {
        match self {
            Literal::Null => LiteralView::Null,
            Literal::Bool(b) => LiteralView::Bool(*b),
            Literal::Number(n) => LiteralView::Number(n@),
            Literal::String(s) => LiteralView::String(s@),
            Literal::Tuple(items) => LiteralView::Tuple(
                Seq::new(
                    items.len() as nat,
                    |i: int|
                        {
                            if 0 <= i < items.len() {
                                proof {
                                    assert(decreases_to!(items => items@));
                                    assert(decreases_to!(items@ => items@[i]));
                                }
                                items@[i].literal_view()
                            } else {
                                LiteralView::Null
                            }
                        },
                ),
            ),
            Literal::Duration(d) => LiteralView::Duration(d@),
        }
    }
}

impl View for Literal {
    type V = LiteralView;

    open spec fn view(&self) -> LiteralView {
        self.literal_view()
    }
}

/// A node in a parsed filter expression tree.
#[derive(Debug)]
pub enum Expr {
    /// A literal value such as `42`, `"text"`, `true`, or `["a", "b"]`.
    Literal(Literal),
    /// A reference to a property (e.g. `repo.name`), resolved at evaluation time.
    Property(String),
    /// A call to a function, carrying the function's name and its argument expressions.
    FunctionCall(String, Vec<Expr>),
    /// A binary operation (comparison, membership, or arithmetic).
    Binary(Box<Expr>, BinaryOperator, Box<Expr>),
    /// A short-circuiting logical operation.
    Logical(Box<Expr>, LogicalOperator, Box<Expr>),
    /// A unary operation.
    Unary(UnaryOperator, Box<Expr>),
    /// A `like` / `like_cs` glob match against the left-hand operand.
    Like(Box<Expr>, Glob),
    /// A `matches` regular-expression match against the left-hand operand.
    Matches(Box<Expr>, CompiledRegex),
}

/// The mathematical view of an [`Expr`]: globs and regular expressions are
/// seen through their patterns (and, for globs, case sensitivity).
pub enum ExprView {
    Literal(LiteralView),
    Property(Seq<char>),
    FunctionCall(Seq<char>, Seq<ExprView>),
    Binary(Box<ExprView>, BinaryOperator, Box<ExprView>),
    Logical(Box<ExprView>, LogicalOperator, Box<ExprView>),
    Unary(UnaryOperator, Box<ExprView>),
    Like(Box<ExprView>, Seq<char>, bool),
    Matches(Box<ExprView>, Seq<char>),
}

impl Expr {
    /// The mathematical view of this expression tree.
    pub open spec fn tree(&self) -> ExprView
        decreases self,
    {
        match self {
            Expr::Literal(v) => ExprView::Literal(v.literal_view()),
            Expr::Property(name) => ExprView::Property(name@),
            Expr::FunctionCall(name, args) => ExprView::FunctionCall(
                name@,
                Seq::new(
                    args.len() as nat,
                    |i: int|
                        {
                            if 0 <= i < args.len() {
                                proof {
                                    assert(decreases_to!(args => args@));
                                    assert(decreases_to!(args@ => args@[i]));
                                }
                                args@[i].tree()
                            } else {
                                ExprView::Property(Seq::empty())
                            }
                        },
                ),
            ),
            Expr::Binary(l, op, r) => ExprView::Binary(Box::new(l.tree()), *op, Box::new(r.tree())),
            Expr::Logical(l, op, r) => ExprView::Logical(Box::new(l.tree()), *op, Box::new(r.tree())),
            Expr::Unary(op, r) => ExprView::Unary(*op, Box::new(r.tree())),
            Expr::Like(l, g) => ExprView::Like(Box::new(l.tree()), g.spec_pattern(), g.spec_case_sensitive()),
            Expr::Matches(l, re) => ExprView::Matches(Box::new(l.tree()), re.spec_pattern()),
        }
    }
}

impl View for Expr {
    type V = ExprView;

    open spec fn view(&self) -> ExprView {
        self.tree()
    }
}

/// A visitor over [`Expr`] trees, folding a tree into a value of type `T`.
///
/// Implement the `visit_*` methods for the node kinds and run the visitor with
/// [`Filter::visit`](crate::Filter::visit). [`ExprVisitor::visit_expr`]
/// hands each node to the method for its kind; composite nodes are handed
/// their children, so a visitor recurses into them with `self.visit_expr(child)`.
/// The `'a` lifetime lets the values it produces borrow from the tree.
pub trait ExprVisitor<'a, T>: Sized {
    /// Hands `expr` to the `visit_*` method for its kind, with the node's own
    /// fields in order: the result is what that method returns when run on
    /// this visitor, from its state before the call to its state after it.
    fn visit_expr(&mut self, expr: &'a Expr) -> (r: T)
        default_ensures
            expr matches Expr::Literal(value) ==> exists|m: &mut Self|
                #[trigger] call_ensures(Self::visit_literal, (m, value), r) && mut_ref_current(m) == *old(self)
                    && mut_ref_future(m) == *final(self),
            expr matches Expr::Property(name) ==> exists|m: &mut Self, n: &str|
                #[trigger] call_ensures(Self::visit_property, (m, n), r) && n@ == name@ && mut_ref_current(m) == *old(self)
                    && mut_ref_future(m) == *final(self),
            expr matches Expr::FunctionCall(name, args) ==> exists|m: &mut Self, n: &str, a: &[Expr]|
                #[trigger] call_ensures(Self::visit_function_call, (m, n, a), r) && n@ == name@ && a@ == args@
                    && mut_ref_current(m) == *old(self) && mut_ref_future(m) == *final(self),
            expr matches Expr::Binary(left, operator, right) ==> exists|m: &mut Self|
                #[trigger] call_ensures(Self::visit_binary, (m, &**left, *operator, &**right), r) && mut_ref_current(m) == *old(self)
                    && mut_ref_future(m) == *final(self),
            expr matches Expr::Logical(left, operator, right) ==> exists|m: &mut Self|
                #[trigger] call_ensures(Self::visit_logical, (m, &**left, *operator, &**right), r) && mut_ref_current(m) == *old(self)
                    && mut_ref_future(m) == *final(self),
            expr matches Expr::Unary(operator, right) ==> exists|m: &mut Self|
                #[trigger] call_ensures(Self::visit_unary, (m, *operator, &**right), r) && mut_ref_current(m) == *old(self)
                    && mut_ref_future(m) == *final(self),
            expr matches Expr::Like(left, glob) ==> exists|m: &mut Self|
                #[trigger] call_ensures(Self::visit_like, (m, &**left, glob), r) && mut_ref_current(m) == *old(self)
                    && mut_ref_future(m) == *final(self),
            expr matches Expr::Matches(left, regex) ==> exists|m: &mut Self|
                #[trigger] call_ensures(Self::visit_matches, (m, &**left, regex), r) && mut_ref_current(m) == *old(self)
                    && mut_ref_future(m) == *final(self),
    {
        match expr {
            Expr::Literal(value) => {
                let f = Self::visit_literal;
                f(self, value)
            },
            Expr::Property(name) => {
                let f = Self::visit_property;
                f(self, name.as_str())
            },
            Expr::FunctionCall(name, args) => {
                let f = Self::visit_function_call;
                f(self, name.as_str(), args.as_slice())
            },
            Expr::Binary(left, operator, right) => {
                let f = Self::visit_binary;
                f(self, left, *operator, right)
            },
            Expr::Logical(left, operator, right) => {
                let f = Self::visit_logical;
                f(self, left, *operator, right)
            },
            Expr::Unary(operator, right) => {
                let f = Self::visit_unary;
                f(self, *operator, right)
            },
            Expr::Like(left, glob) => {
                let f = Self::visit_like;
                f(self, left, glob)
            },
            Expr::Matches(left, regex) => {
                let f = Self::visit_matches;
                f(self, left, regex)
            },
        }
    }

    /// Visits a literal value node (such as `42`, `"text"`, `true` or `["a", "b"]`).
    fn visit_literal(&mut self, value: &'a Literal) -> T;

    /// Visits a property reference, given the property's name.
    fn visit_property(&mut self, name: &'a str) -> T;

    /// Visits a function call, given the function's name and its argument expressions.
    fn visit_function_call(&mut self, name: &'a str, args: &'a [Expr]) -> T;

    /// Visits a binary operation: a comparison, a membership test or arithmetic.
    fn visit_binary(&mut self, left: &'a Expr, operator: BinaryOperator, right: &'a Expr) -> T;

    /// Visits a short-circuiting logical operation.
    fn visit_logical(&mut self, left: &'a Expr, operator: LogicalOperator, right: &'a Expr) -> T;

    /// Visits a unary operation.
    fn visit_unary(&mut self, operator: UnaryOperator, right: &'a Expr) -> T;

    /// Visits a `like` / `like_cs` glob match.
    fn visit_like(&mut self, left: &'a Expr, glob: &'a Glob) -> T;

    /// Visits a `matches` regular-expression match.
    fn visit_matches(&mut self, left: &'a Expr, regex: &'a CompiledRegex) -> T;
}

} // verus!

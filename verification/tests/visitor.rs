use std::collections::BTreeSet;

use filt_rs::{
    BinaryOperator, CompiledRegex, Expr, ExprVisitor, Filter, Glob, Literal, LogicalOperator, UnaryOperator,
};

/// Gathers the names of the properties a filter refers to.
#[derive(Default)]
struct PropertyCollector<'a> {
    properties: BTreeSet<&'a str>,
}

impl<'a> ExprVisitor<'a, ()> for PropertyCollector<'a> {
    fn visit_literal(&mut self, _value: &'a Literal) {}

    fn visit_property(&mut self, name: &'a str) {
        self.properties.insert(name);
    }

    fn visit_function_call(&mut self, _name: &'a str, args: &'a [Expr]) {
        for arg in args {
            self.visit_expr(arg);
        }
    }

    fn visit_binary(&mut self, left: &'a Expr, _operator: BinaryOperator, right: &'a Expr) {
        self.visit_expr(left);
        self.visit_expr(right);
    }

    fn visit_logical(&mut self, left: &'a Expr, _operator: LogicalOperator, right: &'a Expr) {
        self.visit_expr(left);
        self.visit_expr(right);
    }

    fn visit_unary(&mut self, _operator: UnaryOperator, right: &'a Expr) {
        self.visit_expr(right);
    }

    fn visit_like(&mut self, left: &'a Expr, _glob: &'a Glob) {
        self.visit_expr(left);
    }

    fn visit_matches(&mut self, left: &'a Expr, _regex: &'a CompiledRegex) {
        self.visit_expr(left);
    }
}

/// Writes a filter's tree back as an s-expression of its node kinds.
struct Shape;

impl<'a> ExprVisitor<'a, String> for Shape {
    fn visit_literal(&mut self, _value: &'a Literal) -> String {
        "lit".to_string()
    }

    fn visit_property(&mut self, name: &'a str) -> String {
        name.to_string()
    }

    fn visit_function_call(&mut self, name: &'a str, args: &'a [Expr]) -> String {
        let args: Vec<String> = args.iter().map(|a| self.visit_expr(a)).collect();
        format!("{name}({})", args.join(" "))
    }

    fn visit_binary(&mut self, left: &'a Expr, operator: BinaryOperator, right: &'a Expr) -> String {
        format!("({} {} {})", operator.symbol(), self.visit_expr(left), self.visit_expr(right))
    }

    fn visit_logical(&mut self, left: &'a Expr, operator: LogicalOperator, right: &'a Expr) -> String {
        format!("({} {} {})", operator.symbol(), self.visit_expr(left), self.visit_expr(right))
    }

    fn visit_unary(&mut self, operator: UnaryOperator, right: &'a Expr) -> String {
        format!("{}{}", operator.symbol(), self.visit_expr(right))
    }

    fn visit_like(&mut self, left: &'a Expr, glob: &'a Glob) -> String {
        format!("(like {} {})", self.visit_expr(left), glob.pattern())
    }

    fn visit_matches(&mut self, left: &'a Expr, regex: &'a CompiledRegex) -> String {
        format!("(matches {} {})", self.visit_expr(left), regex.pattern())
    }
}

#[test]
fn visitors_collect_the_referenced_properties() {
    let filter = Filter::new(
        r#"repo.name like "git*" && (repo.stars > 5 || trim(owner.login) == "me") && !repo.fork && owner.bio matches "x""#,
    )
    .expect("parse filter");
    let mut collector = PropertyCollector::default();
    filter.visit(&mut collector);
    let expected: BTreeSet<&str> = ["owner.bio", "owner.login", "repo.fork", "repo.name", "repo.stars"].into_iter().collect();
    assert_eq!(collector.properties, expected);
}

#[test]
fn visitors_see_every_node_kind() {
    let filter =
        Filter::new(r#"a || b && !c == 1 + trim(d) && e like "x*" && f in [1, 2]"#).expect("parse filter");
    assert_eq!(
        filter.visit(&mut Shape),
        "(|| a (&& (&& (&& b (== !c (+ lit trim(d)))) (like e x*)) (in f lit)))"
    );
}

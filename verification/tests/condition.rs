use solar_sema::condition::{
    apply_condition_facts, negate_comparison, reverse_comparison, BinOpKind, Comparison, ComparisonEffect, CondExpr, CondKind,
};
use solar_sema::lattice::JoinSemiLattice;
use solar_sema::ids::ExprId;

#[test]
fn negation_and_reversal_of_comparisons() {
    assert_eq!(negate_comparison(BinOpKind::Lt), BinOpKind::Ge);
    assert_eq!(negate_comparison(BinOpKind::Eq), BinOpKind::Ne);
    assert_eq!(negate_comparison(BinOpKind::Add), BinOpKind::Add);
    assert_eq!(reverse_comparison(BinOpKind::Lt), BinOpKind::Gt);
    assert_eq!(reverse_comparison(BinOpKind::Ge), BinOpKind::Le);
    assert_eq!(reverse_comparison(BinOpKind::Eq), BinOpKind::Eq);
    for op in [BinOpKind::Lt, BinOpKind::Le, BinOpKind::Gt, BinOpKind::Ge, BinOpKind::Eq, BinOpKind::Ne] {
        assert_eq!(negate_comparison(negate_comparison(op)), op);
        assert_eq!(reverse_comparison(reverse_comparison(op)), op);
    }
}

fn leaf(index: usize) -> Box<CondExpr> {
    Box::new(CondExpr { id: ExprId::new(index), kind: CondKind::Other })
}

#[test]
fn comparisons_are_found_through_parentheses() {
    let compare = CondExpr { id: ExprId::new(2), kind: CondKind::Binary(leaf(0), BinOpKind::Lt, leaf(1)) };
    let paren = CondExpr { id: ExprId::new(3), kind: CondKind::Paren(Box::new(compare)) };
    let comparison = Comparison::from_expr(&paren).unwrap();
    assert_eq!(comparison.op, BinOpKind::Lt);
    assert_eq!(comparison.lhs, ExprId::new(0));
    let reversed = comparison.reversed();
    assert_eq!((reversed.lhs, reversed.op, reversed.rhs), (ExprId::new(1), BinOpKind::Gt, ExprId::new(0)));
    assert_eq!(comparison.negated().op, BinOpKind::Ge);
    let sum = CondExpr { id: ExprId::new(4), kind: CondKind::Binary(leaf(0), BinOpKind::Add, leaf(1)) };
    assert!(Comparison::from_expr(&sum).is_none());
}

#[derive(Clone, Debug, Default, PartialEq, Eq)]
struct Paths(Vec<Vec<BinOpKind>>);

impl vstd::prelude::View for Paths {
    type V = Vec<Vec<BinOpKind>>;

    fn view(&self) -> Vec<Vec<BinOpKind>> {
        self.0.clone()
    }
}

fn joined_paths(lhs: &[Vec<BinOpKind>], rhs: &[Vec<BinOpKind>]) -> Vec<Vec<BinOpKind>> {
    let mut paths = lhs.to_vec();
    for path in rhs {
        if !paths.contains(path) {
            paths.push(path.clone());
        }
    }
    paths
}

fn with_operator(paths: &[Vec<BinOpKind>], op: BinOpKind) -> Vec<Vec<BinOpKind>> {
    paths.iter().map(|path| {
        let mut path = path.clone();
        path.push(op);
        path
    }).collect()
}

impl JoinSemiLattice for Paths {
    fn spec_join(lhs: Vec<Vec<BinOpKind>>, rhs: Vec<Vec<BinOpKind>>) -> Vec<Vec<BinOpKind>> {
        joined_paths(&lhs, &rhs)
    }

    fn lemma_clone_preserves_view() {}

    fn join(&mut self, other: &Self) -> bool {
        let old_len = self.0.len();
        self.0 = joined_paths(&self.0, &other.0);
        self.0.len() != old_len
    }
}

struct AppendOperator;

impl ComparisonEffect<Paths> for AppendOperator {
    fn spec_apply(&self, comparison: Comparison, paths: Vec<Vec<BinOpKind>>) -> Vec<Vec<BinOpKind>> {
        with_operator(&paths, comparison.op)
    }

    fn apply(&self, comparison: Comparison, paths: &mut Paths) {
        paths.0 = with_operator(&paths.0, comparison.op);
    }
}

#[test]
fn decomposes_conjunctive_and_disjunctive_edges() {
    let first = Box::new(CondExpr { id: ExprId::new(4), kind: CondKind::Binary(leaf(0), BinOpKind::Lt, leaf(1)) });
    let second = Box::new(CondExpr { id: ExprId::new(5), kind: CondKind::Binary(leaf(2), BinOpKind::Ne, leaf(3)) });
    let condition = CondExpr { id: ExprId::new(6), kind: CondKind::Binary(first, BinOpKind::And, second) };

    let mut true_paths = Paths(vec![Vec::new()]);
    apply_condition_facts(&condition, true, &mut true_paths, &AppendOperator);
    assert_eq!(true_paths.0, [vec![BinOpKind::Lt, BinOpKind::Ne]]);

    let mut false_paths = Paths(vec![Vec::new()]);
    apply_condition_facts(&condition, false, &mut false_paths, &AppendOperator);
    assert_eq!(false_paths.0, [vec![BinOpKind::Ge], vec![BinOpKind::Eq]]);
}

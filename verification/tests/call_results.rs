use solar_sema::call_results::CallResults;
use solar_sema::ids::ExprId;
use solar_sema::lattice::JoinSemiLattice;

#[test]
fn distinguishes_absent_empty_and_indexed_outputs() {
    let call = ExprId::new(0);
    let mut results = CallResults::<bool>::new();
    assert_eq!(results.outputs(call), None);
    results.set_outputs(call, vec![]);
    assert_eq!(results.outputs(call), Some([].as_slice()));
    results.set_outputs(call, vec![false, true]);
    assert_eq!(results.output(call, 1), Some(&true));

    let mut other = CallResults::new();
    other.set_outputs(call, vec![true, false, true]);
    assert!(results.join(&other));
    assert_eq!(results.outputs(call), Some([true, true, true].as_slice()));
    assert!(results.clear(call));
    assert_eq!(results.outputs(call), None);
}

#[test]
fn joining_the_same_summaries_again_changes_nothing() {
    let call = ExprId::new(3);
    let mut results = CallResults::<bool>::new();
    results.set_outputs(call, vec![false]);
    let mut other = CallResults::new();
    other.set_outputs(call, vec![true]);
    other.set_outputs(ExprId::new(4), vec![]);
    assert!(results.join(&other));
    assert!(!results.join(&other));
    assert_eq!(results.outputs(ExprId::new(4)), Some([].as_slice()));
    assert_eq!(results.output(call, 1), None);
}

#[test]
fn clearing_an_absent_call_reports_nothing_removed() {
    let mut results = CallResults::<bool>::new();
    assert!(!results.clear(ExprId::new(7)));
    results.set_outputs(ExprId::new(7), vec![true]);
    results.clear_all();
    assert_eq!(results.outputs(ExprId::new(7)), None);
}

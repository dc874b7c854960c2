use solar_sema::lattice::{merge_opt, EffectiveFlowResult, Exits, InternalCallMode, JoinSemiLattice, OperandOrder};

#[test]
fn boolean_join_is_disjunction() {
    let mut value = false;
    assert!(!value.join(&false));
    assert!(value.join(&true));
    assert!(value);
    assert!(!value.join(&false));
}

#[test]
fn merging_exits_joins_each_kind() {
    let mut exits = Exits::fallthrough(false);
    exits.merge(Exits::break_(true));
    exits.merge(Exits::fallthrough(true));
    exits.merge(Exits::abort());
    assert_eq!(exits.fallthrough, Some(true));
    assert_eq!(exits.break_, Some(true));
    assert_eq!(exits.continue_, None);
    let result: EffectiveFlowResult<bool> = exits.into_flow_result();
    assert_eq!(result.fallthrough(), Some(&true));
    assert_eq!(result.returned(), None);
    assert_eq!(result.halted(), None);
    assert_eq!(result.normal_exit(), Some(true));
}

#[test]
fn merging_an_unreachable_exit_keeps_the_other() {
    let mut dst: Option<bool> = None;
    merge_opt(&mut dst, Some(false));
    assert_eq!(dst, Some(false));
    merge_opt(&mut dst, None);
    assert_eq!(dst, Some(false));
    merge_opt(&mut dst, Some(true));
    assert_eq!(dst, Some(true));
}

#[test]
fn defaults_analyze_calls_in_source_order() {
    assert_eq!(InternalCallMode::default(), InternalCallMode::Analyze);
    assert_eq!(OperandOrder::default(), OperandOrder::Source);
}

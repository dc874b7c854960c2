use solar_sema::ids::VariableId;
use solar_sema::lattice::JoinSemiLattice;
use solar_sema::storage_roots::StorageRoots;

#[test]
fn unknown_roots_are_not_observable_as_an_empty_known_set() {
    let variable = VariableId::new(0);
    let roots = StorageRoots::unknown();
    assert!(!roots.is_empty());
    assert!(roots.may_be_unknown());
    assert!(roots.may_contain(variable));
    assert_eq!(roots.known_roots(), None);
}

#[test]
fn joining_roots_unions_them_in_order() {
    let mut roots = StorageRoots::from_roots(&[VariableId::new(3), VariableId::new(1)]);
    assert_eq!(roots.known_roots(), Some([VariableId::new(1), VariableId::new(3)].as_slice()));
    let other = StorageRoots::singleton(VariableId::new(2));
    assert!(roots.join(&other));
    assert!(!roots.join(&other));
    assert_eq!(roots.iter_known(), [VariableId::new(1), VariableId::new(2), VariableId::new(3)].as_slice());
    assert!(roots.contains(VariableId::new(2)));
    assert!(!roots.contains(VariableId::new(4)));
    assert!(!roots.may_contain(VariableId::new(4)));
    assert!(roots.join(&StorageRoots::unknown()));
    assert!(roots.may_contain(VariableId::new(4)));
    assert!(StorageRoots::new().is_empty());
}

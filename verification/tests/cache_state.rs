use beans_core::graph::{CacheState, Generation};

#[test]
fn generation_is_monotonic() {
    let g0 = Generation::zero();
    let g1 = g0.bump();
    assert!(g1 > g0);
    let state = CacheState::Fresh(g1);
    assert!(state.is_fresh());
    assert!(!state.is_stale());
    assert!(CacheState::Stale.is_stale());
    let g2 = g1.bump();
    assert!(g2 > g1);
    let g3 = g2.bump();
    assert!(g3 > g2);
    assert_eq!(g3.raw(), 3);
}

#[test]
fn generation_zero_default() {
    assert_eq!(Generation::default(), Generation::zero());
    assert_eq!(Generation::zero().raw(), 0);
}

use gantt_engine::topology::rollup_state;
use gantt_engine::topology::ResourceState::{Absent, Alive, Dead, Unknown};

#[test]
fn majority_rollup_follows_the_precedence() {
    assert_eq!(rollup_state(&[Dead, Dead, Alive]), Dead);
    assert_eq!(rollup_state(&[Alive, Absent, Absent]), Absent);
    assert_eq!(rollup_state(&[Alive, Dead]), Dead);
    assert_eq!(rollup_state(&[]), Unknown);
}

#[test]
fn majority_rollup_elects_alive_only_with_a_strict_majority() {
    assert_eq!(rollup_state(&[Alive, Alive, Dead]), Alive);
    assert_eq!(rollup_state(&[Alive, Absent]), Absent);
    assert_eq!(rollup_state(&[Alive, Unknown, Unknown]), Alive);
    assert_eq!(rollup_state(&[Absent, Dead]), Dead);
}

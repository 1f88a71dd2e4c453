use julia_set::boundary::{all_bounded, BoundarySolver, RoundOutcome};

#[test]
fn all_bounded_is_logical_and() {
    assert!(all_bounded(&vec![]));
    assert!(all_bounded(&vec![true, true, true]));
    assert!(!all_bounded(&vec![true, false, true]));
}

#[test]
fn converges_when_every_point_is_bounded() {
    let mut s = BoundarySolver::new(Some(5));
    assert_eq!(s.finish_round(&vec![true, false]), RoundOutcome::Refine);
    assert_eq!(s.finish_round(&vec![true, true]), RoundOutcome::Converged { rounds: 2 });
    assert_eq!(s.rounds, 2);
}

#[test]
fn unchanged_curve_hits_round_cap() {
    // a curve that contraction does not move gives the same verdicts each round
    let flags = vec![true, false, true];
    let mut s = BoundarySolver::new(Some(4));
    let mut outcomes = Vec::new();
    loop {
        let o = s.finish_round(&flags);
        outcomes.push(o);
        if o != RoundOutcome::Refine {
            break;
        }
    }
    assert_eq!(
        outcomes,
        vec![
            RoundOutcome::Refine,
            RoundOutcome::Refine,
            RoundOutcome::Refine,
            RoundOutcome::GaveUp { rounds: 4 }
        ]
    );
}

#[test]
fn unchanged_bounded_curve_converges_at_once() {
    let mut s = BoundarySolver::new(Some(4));
    assert_eq!(s.finish_round(&vec![true; 100]), RoundOutcome::Converged { rounds: 1 });
}

#[test]
fn zero_cap_gives_up_after_first_round() {
    let mut s = BoundarySolver::new(Some(0));
    assert_eq!(s.finish_round(&vec![false]), RoundOutcome::GaveUp { rounds: 1 });
}

#[test]
fn no_cap_keeps_refining() {
    let mut s = BoundarySolver::new(None);
    for _ in 0..1000 {
        assert_eq!(s.finish_round(&vec![false, true]), RoundOutcome::Refine);
    }
    assert_eq!(s.rounds, 1000);
}

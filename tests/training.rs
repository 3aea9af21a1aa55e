use evolve_nn::{chance, explore_swap, select, value_at, Candidate, SHARE_SCALE};

#[test]
fn greedy_selection_keeps_lower_score() {
    let (f1, f2) = (0.5f32, 0.2f32);
    let s = select(f1 < f2, f2 < f1, false);
    assert_eq!(s.chosen, Candidate::Second);
    assert_eq!(s.scored, Candidate::Second);
    assert!(s.greedy);
}

#[test]
fn swapped_selection_keeps_higher_score() {
    let (f1, f2) = (0.5f32, 0.2f32);
    let s = select(f1 < f2, f2 < f1, true);
    assert_eq!(s.chosen, Candidate::First);
    assert_eq!(s.scored, Candidate::Second);
    assert!(!s.greedy);
}

#[test]
fn tie_goes_to_second() {
    let s = select(false, false, false);
    assert_eq!(s.chosen, Candidate::Second);
    let s = select(false, false, true);
    assert_eq!(s.chosen, Candidate::Second);
    assert_eq!(s.scored, Candidate::First);
}

#[test]
fn first_lower_wins_without_swap() {
    let s = select(true, false, false);
    assert_eq!(s.chosen, Candidate::First);
    assert_eq!(s.scored, Candidate::First);
}

#[test]
fn chance_extremes() {
    for _ in 0..200 {
        assert!(!chance(0));
        assert!(chance(SHARE_SCALE));
        assert!(chance(u32::MAX));
    }
}

#[test]
fn explore_swap_is_rare() {
    let swaps = (0..10_000).filter(|_| explore_swap()).count();
    assert!(swaps > 500 && swaps < 1500);
}

#[test]
fn value_lookup_bounds() {
    let values = [1.5f32, -2.0, 3.25];
    assert_eq!(value_at(&values, 0), Some(1.5));
    assert_eq!(value_at(&values, 2), Some(3.25));
    assert_eq!(value_at(&values, 3), None);
    assert_eq!(value_at(&values, 4), None);
    assert_eq!(value_at(&values, usize::MAX), None);
    let empty: [f32; 0] = [];
    assert_eq!(value_at(&empty, 0), None);
}

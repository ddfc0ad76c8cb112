use zxdiagram::export::Exportable;
use zxdiagram::phase::Phase;

#[test]
fn test_phase_from_zero() {
    let phase = Phase::new(0, 1);
    assert_eq!(phase.angle(), (0, 1));
}

#[test]
fn test_phase_from_positive_angle_under_two_pi() {
    let phase = Phase::new(5, 4);
    assert_eq!(phase.angle(), (5, 4));
}

#[test]
fn test_phase_wraps_around_two_pi() {
    let phase = Phase::new(9, 2);
    assert_eq!(phase.angle(), (1, 2));
}

#[test]
fn test_phase_from_negative_angle() {
    let phase = Phase::new(-1, 2);
    assert_eq!(phase.angle(), (3, 2));
}

#[test]
fn test_phase_from_exactly_two_pi_wraps_to_zero() {
    let phase = Phase::new(2, 1);
    assert_eq!(phase.angle(), (0, 1));
}

#[test]
fn test_phase_from_multiple_of_two_pi_wraps_to_zero() {
    let phase = Phase::new(6, 1);
    assert_eq!(phase.angle(), (0, 1));
}

#[test]
fn phase_is_zero_on_zero_and_on_full_turns() {
    assert!(Phase::new(0, 1).is_zero());
    assert!(Phase::new(2, 1).is_zero());
    assert!(Phase::new(-4, 1).is_zero());
    assert!(!Phase::new(1, 2).is_zero());
}

#[test]
fn phase_full_turn_shift_gives_the_same_phase() {
    assert_eq!(Phase::new(1, 2), Phase::new(5, 2));
    assert_eq!(Phase::new(1, 2), Phase::new(-3, 2));
    assert_eq!(Phase::new(3, 4), Phase::new(11, 4));
    assert_eq!(Phase::new(0, 1), Phase::new(2, 1));
}

#[test]
fn phase_reduces_to_lowest_terms() {
    assert_eq!(Phase::new(2, 4).angle(), (1, 2));
    assert_eq!(Phase::new(6, 4).angle(), (3, 2));
    assert_eq!(Phase::new(10, -4).angle(), (3, 2));
}

#[test]
fn named_phases() {
    assert_eq!(Phase::zero().angle(), (0, 1));
    assert_eq!(Phase::one().angle(), (1, 1));
    assert_eq!(Phase::plus().angle(), (1, 2));
    assert_eq!(Phase::minus().angle(), (3, 2));
}

#[test]
fn test_to_latex_zero() {
    let phase = Phase::new(0, 1);
    assert_eq!(phase.to_tex().unwrap(), "");
}

#[test]
fn test_to_latex_pi() {
    let phase = Phase::new(1, 1);
    assert_eq!(phase.to_tex().unwrap(), "$\\pi$");
}

#[test]
fn test_to_latex_half_pi() {
    let phase = Phase::new(1, 2);
    assert_eq!(phase.to_tex().unwrap(), "$\\frac{\\pi}{2}$");
}

#[test]
fn test_to_latex_three_halves_pi() {
    let phase = Phase::new(3, 2);
    assert_eq!(phase.to_tex().unwrap(), "$\\frac{3\\pi}{2}$");
}

#[test]
fn test_to_latex_negative_half_pi() {
    // A negative half turn always normalizes to the positive representative
    // 3 pi / 2 before it is rendered.
    let phase = Phase::new(-1, 2);
    assert_eq!(phase.to_tex().unwrap(), "$\\frac{3\\pi}{2}$");
}

#[test]
fn test_to_latex_fraction_with_large_denominator() {
    let phase = Phase::new(1, 8);
    assert_eq!(phase.to_tex().unwrap(), "$\\frac{\\pi}{8}$");
}

use root_finder::combinations::permutations;
use root_finder::gaussian::Gaussian;
use root_finder::polynomial::{coefficients_from_roots, evaluate};

fn g(re: i64, im: i64) -> Gaussian {
    Gaussian::new(re, im)
}

#[test]
fn single_root_gives_linear_factor() {
    let c = coefficients_from_roots(&vec![g(2, 0)]).unwrap();
    assert_eq!(c, vec![g(-2, 0), g(1, 0)]);
}

#[test]
fn no_roots_gives_constant_one() {
    let c = coefficients_from_roots(&vec![]).unwrap();
    assert_eq!(c, vec![g(1, 0)]);
}

#[test]
fn fourth_roots_of_unity_give_x4_minus_1() {
    let roots = vec![g(1, 0), g(0, 1), g(-1, 0), g(0, -1)];
    let c = coefficients_from_roots(&roots).unwrap();
    assert_eq!(c, vec![g(-1, 0), g(0, 0), g(0, 0), g(0, 0), g(1, 0)]);
}

#[test]
fn conjugate_pair_gives_real_quadratic() {
    // (x - (1+2i)) (x - (1-2i)) = x^2 - 2x + 5
    let c = coefficients_from_roots(&vec![g(1, 2), g(1, -2)]).unwrap();
    assert_eq!(c, vec![g(5, 0), g(-2, 0), g(1, 0)]);
}

#[test]
fn cubic_with_real_roots() {
    // (x - 2)(x + 1)(x - 3) = x^3 - 4x^2 + x + 6
    let c = coefficients_from_roots(&vec![g(2, 0), g(-1, 0), g(3, 0)]).unwrap();
    assert_eq!(c, vec![g(6, 0), g(1, 0), g(-4, 0), g(1, 0)]);
}

#[test]
fn length_and_leading_coefficient() {
    let roots = vec![g(3, -1), g(-2, 5), g(0, 0), g(7, 7), g(-4, -4)];
    let c = coefficients_from_roots(&roots).unwrap();
    assert_eq!(c.len(), roots.len() + 1);
    assert_eq!(c[roots.len()], g(1, 0));
}

#[test]
fn polynomial_vanishes_at_its_roots() {
    let roots = vec![g(3, -1), g(-2, 5), g(0, 0), g(7, 7), g(-4, -4)];
    let c = coefficients_from_roots(&roots).unwrap();
    for r in &roots {
        assert_eq!(evaluate(&c, *r), Some(g(0, 0)));
    }
    assert_ne!(evaluate(&c, g(1, 1)), Some(g(0, 0)));
}

#[test]
fn repeated_root_gives_square() {
    // (x - 3)^2 = x^2 - 6x + 9
    let c = coefficients_from_roots(&vec![g(3, 0), g(3, 0)]).unwrap();
    assert_eq!(c, vec![g(9, 0), g(-6, 0), g(1, 0)]);
}

#[test]
fn expansion_overflow_is_none() {
    let big = g(i64::MAX / 2, 0);
    assert_eq!(coefficients_from_roots(&vec![big, big, big]), None);
    assert_eq!(coefficients_from_roots(&vec![g(i64::MIN, 0)]), None);
}

#[test]
fn horner_evaluates_exactly() {
    // 1 + 2x + 3x^2 at x = i: 1 + 2i - 3 = -2 + 2i
    let c = vec![g(1, 0), g(2, 0), g(3, 0)];
    assert_eq!(evaluate(&c, g(0, 1)), Some(g(-2, 2)));
    assert_eq!(evaluate(&c, g(2, 0)), Some(g(17, 0)));
    assert_eq!(evaluate(&vec![], g(5, 5)), Some(g(0, 0)));
}

#[test]
fn horner_overflow_is_none() {
    let c = vec![g(0, 0), g(0, 0), g(1, 0)];
    assert_eq!(evaluate(&c, g(i64::MAX, 0)), None);
}

#[test]
fn gaussian_checked_arithmetic() {
    assert_eq!(g(1, 2).checked_mul(g(3, 4)), Some(g(-5, 10)));
    assert_eq!(g(1, 2).checked_add(g(3, 4)), Some(g(4, 6)));
    assert_eq!(g(1, 2).checked_sub(g(3, 4)), Some(g(-2, -2)));
    assert_eq!(g(i64::MAX, 0).checked_add(g(1, 0)), None);
    assert_eq!(g(i64::MIN, 0).checked_sub(g(0, 1)), Some(g(i64::MIN, -1)));
    assert_eq!(g(i64::MAX, 0).checked_mul(g(2, 0)), None);
}

#[test]
fn coefficients_are_signed_symmetric_sums_of_selections() {
    let roots = vec![g(1, 2), g(3, -1), g(-2, 0), g(0, 1), g(5, 5)];
    let n = roots.len();
    let c = coefficients_from_roots(&roots).unwrap();
    for k in 0..=n {
        let mut sum = g(0, 0);
        for sel in permutations(&roots, k) {
            let mut prod = g(1, 0);
            for r in sel {
                prod = prod.checked_mul(r).unwrap();
            }
            sum = sum.checked_add(prod).unwrap();
        }
        let expected = if k % 2 == 0 { sum } else { g(-sum.re, -sum.im) };
        assert_eq!(c[n - k], expected);
    }
}

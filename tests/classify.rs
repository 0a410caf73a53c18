use root_finder::classify::{dist_sq, nearest_root};
use root_finder::gaussian::Gaussian;

fn g(re: i64, im: i64) -> Gaussian {
    Gaussian::new(re, im)
}

#[test]
fn exact_root_cell_gets_its_index_and_zero_distance() {
    let roots = vec![g(10, 0), g(-5, 5), g(0, -7)];
    for (i, r) in roots.iter().enumerate() {
        assert_eq!(nearest_root(*r, &roots), Some((i, 0)));
    }
}

#[test]
fn nearest_root_by_distance() {
    let roots = vec![g(10, 0), g(-5, 5), g(0, -7)];
    assert_eq!(nearest_root(g(8, 1), &roots), Some((0, 5)));
    assert_eq!(nearest_root(g(0, -3), &roots), Some((2, 16)));
}

#[test]
fn ties_go_to_lowest_index() {
    let roots = vec![g(2, 0), g(-2, 0), g(0, 2)];
    assert_eq!(nearest_root(g(0, 0), &roots), Some((0, 4)));
}

#[test]
fn no_roots_gives_none() {
    assert_eq!(nearest_root(g(1, 1), &vec![]), None);
}

#[test]
fn squared_distance_at_the_limit() {
    let far = 0x4000_0000_0000_0000i64;
    let d = dist_sq(g(far, far), g(-far, -far));
    assert_eq!(d, 2u128 << 126);
}

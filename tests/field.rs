use root_finder::field::sweep;
use root_finder::gaussian::Gaussian;

fn seed_of(width: usize, height: usize) -> impl Fn(usize, usize) -> (f32, f32) {
    move |x, y| ((x as f32 - width as f32 / 2.) / width as f32 * 4., (y as f32 - height as f32 / 2.) / height as f32 * 3.)
}

// One Newton step for z^3 - 1 on (re, im) pairs.
fn newton_cube(z: (f32, f32)) -> (f32, f32) {
    let (a, b) = z;
    let z2 = (a * a - b * b, 2. * a * b);
    let z3 = (z2.0 * a - z2.1 * b, z2.0 * b + z2.1 * a);
    let f = (z3.0 - 1., z3.1);
    let d = (3. * z2.0, 3. * z2.1);
    let den = d.0 * d.0 + d.1 * d.1;
    let q = ((f.0 * d.0 + f.1 * d.1) / den, (f.1 * d.0 - f.0 * d.1) / den);
    (a - q.0, b - q.1)
}

#[test]
fn zero_iterations_leave_the_seeds() {
    let seed = seed_of(8, 6);
    let grid = sweep(8, 6, 0, &seed, &newton_cube);
    assert_eq!(grid.len(), 8);
    for x in 0..8 {
        assert_eq!(grid[x].len(), 6);
        for y in 0..6 {
            assert_eq!(grid[x][y], seed(x, y));
        }
    }
}

#[test]
fn sweeps_are_repeatable() {
    let seed = seed_of(16, 9);
    let a = sweep(16, 9, 7, &seed, &newton_cube);
    let b = sweep(16, 9, 7, &seed, &newton_cube);
    assert_eq!(a.len(), b.len());
    for x in 0..a.len() {
        for y in 0..a[x].len() {
            let (p, q) = (a[x][y], b[x][y]);
            assert!(p.0.to_bits() == q.0.to_bits() && p.1.to_bits() == q.1.to_bits());
        }
    }
}

#[test]
fn newton_steps_approach_a_cube_root_of_unity() {
    let grid = sweep(1, 1, 20, &|_x, _y| (2.0f32, 0.5f32), &newton_cube);
    let (a, b) = grid[0][0];
    let roots = [(1.0f32, 0.0f32), (-0.5, 0.866_025_4), (-0.5, -0.866_025_4)];
    assert!(roots.iter().any(|r| (r.0 - a).abs() < 1e-4 && (r.1 - b).abs() < 1e-4));
}

#[test]
fn each_cell_takes_the_given_number_of_steps() {
    let seed = |x: usize, y: usize| Gaussian::new(x as i64, y as i64);
    let double = |z: Gaussian| Gaussian::new(z.re * 2, z.im * 2);
    let grid = sweep(3, 2, 4, &seed, &double);
    assert_eq!(grid[2][1], Gaussian::new(32, 16));
    assert_eq!(grid[0][0], Gaussian::new(0, 0));
    assert_eq!(grid[1][0], Gaussian::new(16, 0));
}

#[test]
fn empty_grid() {
    let grid = sweep(0, 5, 3, &|x: usize, y: usize| x + y, &|v: usize| v);
    assert!(grid.is_empty());
    let grid = sweep(2, 0, 3, &|x: usize, y: usize| x + y, &|v: usize| v);
    assert_eq!(grid, vec![Vec::<usize>::new(), Vec::new()]);
}

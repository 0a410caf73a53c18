use root_finder::tangents::append_approximation;

const H: f64 = 0.005;

// Newton's step with a forward-difference slope; `None` where the slope is flat.
fn tangent_step(f: impl Fn(f64) -> f64) -> impl Fn(f64) -> Option<f64> {
    move |x| {
        let y = f(x);
        let a = (f(x + H) - y) / H;
        let b = y - a * x;
        if a == 0. {
            None
        } else {
            Some(-b / a)
        }
    }
}

#[test]
fn success_appends_exactly_one_value() {
    let mut seq = vec![3.0f64];
    let step = tangent_step(|x| x * x - 2.);
    assert!(append_approximation(&mut seq, &step));
    assert_eq!(seq.len(), 2);
    assert_eq!(seq[0], 3.0);
    assert_eq!(seq[1], step(3.0).unwrap());
}

#[test]
fn flat_slope_leaves_the_sequence() {
    let mut seq = vec![1.0f64, 4.0];
    let step = tangent_step(|_x| 7.0);
    assert!(!append_approximation(&mut seq, &step));
    assert_eq!(seq, vec![1.0, 4.0]);
}

#[test]
fn square_root_approximations_converge_fast() {
    let c = 2.0f64;
    let mut seq = vec![3.0f64];
    let step = tangent_step(|x| x * x - c);
    for _ in 0..6 {
        assert!(append_approximation(&mut seq, &step));
    }
    let errors: Vec<f64> = seq.iter().map(|x| (x - c.sqrt()).abs()).collect();
    // the error squares at each step until the slope step h dominates
    assert!(errors[2] <= errors[1] * errors[1]);
    assert!(errors[3] <= errors[2] * errors[2]);
    assert!(errors[6] < 1e-9);
    assert_eq!(seq.len(), 7);
}

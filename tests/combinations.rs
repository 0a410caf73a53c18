use root_finder::combinations::{_permutations, permutations};

#[test]
fn pairs_of_three() {
    let v = vec![1, 2, 3];
    assert_eq!(permutations(&v, 2), vec![vec![3, 2], vec![3, 1], vec![2, 1]]);
}

#[test]
fn singles_and_all() {
    let v = vec!['a', 'b', 'c'];
    assert_eq!(permutations(&v, 1), vec![vec!['c'], vec!['b'], vec!['a']]);
    assert_eq!(permutations(&v, 3), vec![vec!['c', 'b', 'a']]);
}

#[test]
fn empty_selection_and_too_long_selection() {
    let v = vec![1, 2, 3];
    assert_eq!(permutations(&v, 0), vec![Vec::<i32>::new()]);
    assert_eq!(permutations(&v, 4), Vec::<Vec<i32>>::new());
    assert_eq!(permutations(&Vec::<i32>::new(), 0), vec![Vec::<i32>::new()]);
}

#[test]
fn counts_are_binomial() {
    let v: Vec<u32> = (0..6).collect();
    let expected = [1, 6, 15, 20, 15, 6, 1];
    for (k, n) in expected.iter().enumerate() {
        assert_eq!(permutations(&v, k).len(), *n);
    }
}

#[test]
fn selections_extend_the_given_prefix() {
    let v = vec![String::from("x"), String::from("y"), String::from("z")];
    let r = _permutations(&v, 1, 1, vec![String::from("p")]);
    assert_eq!(
        r,
        vec![
            vec![String::from("p"), String::from("y")],
            vec![String::from("p"), String::from("x")],
        ]
    );
}

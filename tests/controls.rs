use root_finder::controls::{needs_recompute, next_iterations, select_root, Command};

#[test]
fn iteration_count_steps() {
    assert_eq!(next_iterations(3, Command::FewerIterations), 2);
    assert_eq!(next_iterations(0, Command::FewerIterations), 0);
    assert_eq!(next_iterations(3, Command::MoreIterations), 4);
    assert_eq!(next_iterations(usize::MAX, Command::MoreIterations), usize::MAX);
    assert_eq!(next_iterations(3, Command::NextTangent), 3);
    assert_eq!(next_iterations(3, Command::Zoom { horizontal: true, grow: false }), 3);
}

#[test]
fn recompute_after_field_commands() {
    assert!(needs_recompute(Command::FewerIterations));
    assert!(needs_recompute(Command::MoreIterations));
    assert!(needs_recompute(Command::Zoom { horizontal: false, grow: true }));
    assert!(!needs_recompute(Command::NextTangent));
}

#[test]
fn last_hit_root_is_selected() {
    assert_eq!(select_root(None, &vec![false, true, false, true]), Some(3));
    assert_eq!(select_root(Some(0), &vec![false, false]), Some(0));
    assert_eq!(select_root(None, &vec![]), None);
    assert_eq!(select_root(Some(2), &vec![true, false, false]), Some(0));
}

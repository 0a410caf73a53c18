use vstd::prelude::*;

verus! {

/// A discrete command of the user.
#[derive(Clone, Copy, Debug, PartialEq, Eq, Structural)]
pub enum Command {
    /// One Newton step fewer per cell.
    FewerIterations,
    /// One Newton step more per cell.
    MoreIterations,
    /// Zoom along one axis, in or out by the fixed step.
    Zoom { horizontal: bool, grow: bool },
    /// Append one tangent approximation.
    NextTangent,
}

/// The iteration count after `cmd`: one fewer (never below zero), one more
/// (never past `usize::MAX`), or unchanged for other commands.
pub fn next_iterations(count: usize, cmd: Command) -> (r: usize)
    ensures
        cmd == Command::FewerIterations ==> r == if count == 0 {
            0
        } else {
            count - 1
        },
        cmd == Command::MoreIterations ==> r == if count == usize::MAX {
            count
        } else {
            (count + 1) as usize
        },
        cmd != Command::FewerIterations && cmd != Command::MoreIterations ==> r == count,
{
    match cmd {
        Command::FewerIterations => {
            if count != 0 {
                count - 1
            } else {
                0
            }
        },
        Command::MoreIterations => {
            if count < usize::MAX {
                count + 1
            } else {
                count
            }
        },
        _ => count,
    }
}

/// Whether the field must be recomputed after `cmd`: a change of iteration
/// count or of zoom resamples every cell.
pub fn needs_recompute(cmd: Command) -> (r: bool)
    ensures
        r == (cmd != Command::NextTangent),
{
    match cmd {
        Command::NextTangent => false,
        _ => true,
    }
}

/// The root selected after a press: the last root under the pointer
/// (`hits[i]`), or the earlier selection where no root is under it.
pub fn select_root(current: Option<usize>, hits: &Vec<bool>) -> (r: Option<usize>)
    ensures
        (forall|i: int| 0 <= i < hits@.len() ==> !#[trigger] hits@[i]) ==> r == current,
        forall|i: int|
            0 <= i < hits@.len() && #[trigger] hits@[i] && (forall|j: int|
                i < j < hits@.len() ==> !hits@[j]) ==> r == Some(i as usize),
{
    let mut selected = current;
    let mut i: usize = 0;
    while i < hits.len()
        invariant
            0 <= i <= hits@.len(),
            (forall|q: int| 0 <= q < i ==> !#[trigger] hits@[q]) ==> selected == current,
            forall|q: int|
                0 <= q < i && #[trigger] hits@[q] && (forall|w: int| q < w < i ==> !hits@[w])
                    ==> selected == Some(q as usize),
        decreases hits@.len() - i,
    {
        if hits[i] {
            selected = Some(i);
        }
        i = i + 1;
    }
    selected
}

} // verus!

use vstd::prelude::*;

verus! {

/// `trace` is a run of `step`: each value is what `step` gives for the one
/// before it.
pub open spec fn is_run<T, S: Fn(T) -> T>(step: S, trace: Seq<T>) -> bool {
    forall|i: int| 0 <= i < trace.len() - 1 ==> step.ensures((trace[i],), #[trigger] trace[i + 1])
}

/// `to` is what `n` applications of `step` can make of `from`.
pub open spec fn reaches<T, S: Fn(T) -> T>(step: S, n: nat, from: T, to: T) -> bool {
    exists|trace: Seq<T>|
        #[trigger] is_run(step, trace) && trace.len() == n + 1 && trace[0] == from && trace[n as int]
            == to
}

/// Cell `(x, y)` of a sweep: a value that `seed` gives for the cell, taken
/// through `n` steps.
pub open spec fn cell_of<T, F: Fn(usize, usize) -> T, S: Fn(T) -> T>(
    seed: F,
    step: S,
    n: nat,
    x: usize,
    y: usize,
    v: T,
) -> bool {
    exists|s: T| #[trigger] seed.ensures((x, y), s) && reaches(step, n, s, v)
}

/// A grid of `width` columns of `height` cells, recomputed from scratch: cell
/// `(x, y)` starts at `seed(x, y)` and takes `iterations` applications of
/// `step`. With no iterations every cell is its seed.
pub fn sweep<T: Copy, F: Fn(usize, usize) -> T, S: Fn(T) -> T>(
    width: usize,
    height: usize,
    iterations: usize,
    seed: &F,
    step: &S,
) -> (r: Vec<Vec<T>>)
    requires
        forall|x: usize, y: usize| seed.requires((x, y)),
        forall|t: T| step.requires((t,)),
    ensures
        r@.len() == width,
        forall|x: int| 0 <= x < width ==> (#[trigger] r@[x])@.len() == height,
        forall|x: int, y: int|
            0 <= x < width && 0 <= y < height ==> cell_of(
                *seed,
                *step,
                iterations as nat,
                x as usize,
                y as usize,
                #[trigger] r@[x]@[y],
            ),
        iterations == 0 ==> forall|x: int, y: int|
            0 <= x < width && 0 <= y < height ==> seed.ensures(
                (x as usize, y as usize),
                #[trigger] r@[x]@[y],
            ),
{
    let mut grid: Vec<Vec<T>> = Vec::new();
    let mut x: usize = 0;
    while x < width
        invariant
            0 <= x <= width,
            forall|a: usize, b: usize| seed.requires((a, b)),
            forall|t: T| step.requires((t,)),
            grid@.len() == x,
            forall|a: int| 0 <= a < x ==> (#[trigger] grid@[a])@.len() == height,
            forall|a: int, b: int|
                0 <= a < x && 0 <= b < height ==> cell_of(
                    *seed,
                    *step,
                    iterations as nat,
                    a as usize,
                    b as usize,
                    #[trigger] grid@[a]@[b],
                ),
        decreases width - x,
    {
        let mut column: Vec<T> = Vec::new();
        let mut y: usize = 0;
        while y < height
            invariant
                0 <= y <= height,
                0 <= x < width,
                forall|a: usize, b: usize| seed.requires((a, b)),
                forall|t: T| step.requires((t,)),
                column@.len() == y,
                forall|b: int|
                    0 <= b < y ==> cell_of(
                        *seed,
                        *step,
                        iterations as nat,
                        x,
                        b as usize,
                        #[trigger] column@[b],
                    ),
            decreases height - y,
        {
            let start = seed(x, y);
            let mut z = start;
            let mut k: usize = 0;
            let ghost mut trace: Seq<T> = seq![start];
            proof {
                assert(is_run(*step, trace));
            }
            while k < iterations
                invariant
                    0 <= k <= iterations,
                    forall|t: T| step.requires((t,)),
                    is_run(*step, trace),
                    trace.len() == k + 1,
                    trace[0] == start,
                    trace[k as int] == z,
                decreases iterations - k,
            {
                let next = step(z);
                proof {
                    let old_trace = trace;
                    trace = trace.push(next);
                    assert forall|i: int| 0 <= i < trace.len() - 1 implies (*step).ensures(
                        (trace[i],),
                        #[trigger] trace[i + 1],
                    ) by {
                        if i < k {
                            assert(trace[i] == old_trace[i]);
                            assert(trace[i + 1] == old_trace[i + 1]);
                        }
                    }
                }
                z = next;
                k = k + 1;
            }
            proof {
                assert(seed.ensures((x, y), start));
                assert(reaches(*step, iterations as nat, start, z));
                assert(cell_of(*seed, *step, iterations as nat, x, y, z));
            }
            column.push(z);
            y = y + 1;
        }
        grid.push(column);
        x = x + 1;
    }
    proof {
        if iterations == 0 {
            assert forall|a: int, b: int| 0 <= a < width && 0 <= b < height implies seed.ensures(
                (a as usize, b as usize),
                #[trigger] grid@[a]@[b],
            ) by {
                let v = grid@[a]@[b];
                assert(cell_of(*seed, *step, 0, a as usize, b as usize, v));
                let s = choose|s: T| #[trigger] seed.ensures((a as usize, b as usize), s) && reaches(
                    *step,
                    0,
                    s,
                    v,
                );
                let trace = choose|trace: Seq<T>|
                    #[trigger] is_run(*step, trace) && trace.len() == 1 && trace[0] == s && trace[0]
                        == v;
                assert(s == v);
            }
        }
    }
    grid
}

proof fn lemma_runs_agree<T, S: Fn(T) -> T>(step: S, a: Seq<T>, b: Seq<T>, i: int)
    requires
        forall|t: T, u: T, v: T| step.ensures((t,), u) && step.ensures((t,), v) ==> u == v,
        is_run(step, a),
        is_run(step, b),
        0 <= i < a.len(),
        i < b.len(),
        a[0] == b[0],
    ensures
        a[i] == b[i],
    decreases i,
{
    if i > 0 {
        lemma_runs_agree(step, a, b, i - 1);
        let j = i - 1;
        assert(step.ensures((a[j],), a[j + 1]));
        assert(step.ensures((b[j],), b[j + 1]));
    }
}

/// A sweep is a function of its inputs: where `seed` and `step` give one
/// result for each argument, two sweeps with the same seed, step and
/// iteration count hold the same value in every cell.
pub proof fn lemma_sweep_deterministic<T, F: Fn(usize, usize) -> T, S: Fn(T) -> T>(
    seed: F,
    step: S,
    n: nat,
    x: usize,
    y: usize,
    a: T,
    b: T,
)
    requires
        forall|p: usize, q: usize, u: T, v: T|
            seed.ensures((p, q), u) && seed.ensures((p, q), v) ==> u == v,
        forall|t: T, u: T, v: T| step.ensures((t,), u) && step.ensures((t,), v) ==> u == v,
        cell_of(seed, step, n, x, y, a),
        cell_of(seed, step, n, x, y, b),
    ensures
        a == b,
{
    let sa = choose|s: T| #[trigger] seed.ensures((x, y), s) && reaches(step, n, s, a);
    let sb = choose|s: T| #[trigger] seed.ensures((x, y), s) && reaches(step, n, s, b);
    let ta = choose|trace: Seq<T>|
        #[trigger] is_run(step, trace) && trace.len() == n + 1 && trace[0] == sa && trace[n as int]
            == a;
    let tb = choose|trace: Seq<T>|
        #[trigger] is_run(step, trace) && trace.len() == n + 1 && trace[0] == sb && trace[n as int]
            == b;
    lemma_runs_agree(step, ta, tb, n as int);
}

} // verus!

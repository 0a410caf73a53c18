use vstd::prelude::*;
use crate::gaussian::{c_dist_sq, Cx, Gaussian};

verus! {

/// The bound on each part of a point that `nearest_root` measures, so that a
/// squared distance fits in `u128`.
pub const COORD_LIMIT: i64 = 0x4000_0000_0000_0000;

pub open spec fn within_limit(g: Cx) -> bool {
    -COORD_LIMIT <= g.0 <= COORD_LIMIT && -COORD_LIMIT <= g.1 <= COORD_LIMIT
}

/// The squared distance between two points within the limit.
pub fn dist_sq(a: Gaussian, b: Gaussian) -> (r: u128)
    requires
        within_limit(a@),
        within_limit(b@),
    ensures
        r as int == c_dist_sq(a@, b@),
{
    let dx: i128 = a.re as i128 - b.re as i128;
    let dy: i128 = a.im as i128 - b.im as i128;
    assert(dx * dx <= 0x4000_0000_0000_0000_0000_0000_0000_0000) by (nonlinear_arith)
        requires
            -0x8000_0000_0000_0000 <= dx <= 0x8000_0000_0000_0000,
    ;
    assert(dy * dy <= 0x4000_0000_0000_0000_0000_0000_0000_0000) by (nonlinear_arith)
        requires
            -0x8000_0000_0000_0000 <= dy <= 0x8000_0000_0000_0000,
    ;
    assert(dx * dx >= 0) by (nonlinear_arith);
    assert(dy * dy >= 0) by (nonlinear_arith);
    let sx = (dx * dx) as u128;
    let sy = (dy * dy) as u128;
    sx + sy
}

/// The root nearest to `z`, as its index and squared distance; of equally
/// near roots, the one with the lowest index. `None` where there is no root.
pub fn nearest_root(z: Gaussian, roots: &Vec<Gaussian>) -> (r: Option<(usize, u128)>)
    requires
        within_limit(z@),
        forall|j: int| 0 <= j < roots@.len() ==> within_limit(#[trigger] roots@[j]@),
    ensures
        r.is_none() == (roots@.len() == 0),
        r.is_some() ==> {
            let (i, d) = r.unwrap();
            &&& i < roots@.len()
            &&& d as int == c_dist_sq(z@, roots@[i as int]@)
            &&& forall|j: int|
                0 <= j < roots@.len() ==> d as int <= c_dist_sq(z@, #[trigger] roots@[j]@)
            &&& forall|j: int| 0 <= j < i ==> (d as int) < c_dist_sq(z@, #[trigger] roots@[j]@)
        },
        forall|i: int|
            0 <= i < roots@.len() && #[trigger] roots@[i]@ == z@ && (forall|j: int|
                0 <= j < i ==> roots@[j]@ != z@) ==> r == Some((i as usize, 0u128)),
{
    if roots.len() == 0 {
        return None;
    }
    let mut best: usize = 0;
    let mut best_d = dist_sq(z, roots[0]);
    let mut j: usize = 1;
    while j < roots.len()
        invariant
            1 <= j <= roots@.len(),
            best < j,
            within_limit(z@),
            forall|q: int| 0 <= q < roots@.len() ==> within_limit(#[trigger] roots@[q]@),
            best_d as int == c_dist_sq(z@, roots@[best as int]@),
            forall|q: int| 0 <= q < j ==> best_d as int <= c_dist_sq(z@, #[trigger] roots@[q]@),
            forall|q: int| 0 <= q < best ==> (best_d as int) < c_dist_sq(z@, #[trigger] roots@[q]@),
        decreases roots@.len() - j,
    {
        let d = dist_sq(z, roots[j]);
        if d < best_d {
            best = j;
            best_d = d;
        }
        j = j + 1;
    }
    proof {
        assert forall|i: int|
            0 <= i < roots@.len() && #[trigger] roots@[i]@ == z@ && (forall|q: int|
                0 <= q < i ==> roots@[q]@ != z@) implies best as int == i && best_d == 0 by {
            let zz = z@;
            assert(c_dist_sq(zz, roots@[i]@) == 0);
            let b = roots@[best as int]@;
            assert((zz.0 - b.0) * (zz.0 - b.0) >= 0) by (nonlinear_arith);
            assert((zz.1 - b.1) * (zz.1 - b.1) >= 0) by (nonlinear_arith);
            if best as int != i {
                if (best as int) < i {
                    assert(b != zz);
                    assert(c_dist_sq(zz, b) > 0) by (nonlinear_arith)
                        requires
                            b != zz,
                            (zz.0 - b.0) * (zz.0 - b.0) >= 0,
                            (zz.1 - b.1) * (zz.1 - b.1) >= 0,
                            c_dist_sq(zz, b) == (zz.0 - b.0) * (zz.0 - b.0) + (zz.1 - b.1) * (
                            zz.1 - b.1),
                    ;
                } else {
                    assert(best_d < c_dist_sq(zz, roots@[i]@));
                }
            }
        }
    }
    Some((best, best_d))
}

} // verus!

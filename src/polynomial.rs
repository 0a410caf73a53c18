use vstd::prelude::*;
use crate::gaussian::{
    c_add, c_mul, c_one, c_sub, c_zero, cview, lemma_mul_distributes_add, lemma_mul_sub_distributes,
    lemma_mul_swap, lemma_mul_zero, add_fits, mul_fits, sub_fits, Cx, Gaussian,
};

verus! {

/// The coefficient of `x^i` in `p`; zero outside its indices.
pub open spec fn coef_at(p: Seq<Cx>, i: int) -> Cx {
    if 0 <= i < p.len() {
        p[i]
    } else {
        c_zero()
    }
}

/// The value at `z` of the polynomial whose coefficient of `x^i` is `p[i]`.
pub open spec fn eval(p: Seq<Cx>, z: Cx) -> Cx
    decreases p.len(),
{
    if p.len() == 0 {
        c_zero()
    } else {
        c_add(p[0], c_mul(z, eval(p.drop_first(), z)))
    }
}

/// `p` multiplied by the factor `(x - r)`.
pub open spec fn times_factor(p: Seq<Cx>, r: Cx) -> Seq<Cx> {
    Seq::new(
        p.len() + 1,
        |i: int|
            c_sub(
                coef_at(p, i - 1),
                if i < p.len() {
                    c_mul(r, p[i])
                } else {
                    c_zero()
                },
            ),
    )
}

/// The coefficients of the monic polynomial whose roots are `roots`:
/// `(x - roots[0]) * (x - roots[1]) * ...`.
pub open spec fn from_roots(roots: Seq<Cx>) -> Seq<Cx>
    decreases roots.len(),
{
    if roots.len() == 0 {
        seq![c_one()]
    } else {
        times_factor(from_roots(roots.drop_last()), roots.last())
    }
}

/// The values that entry `i` of `p` times `(x - r)` is computed from fit in `i64`.
pub open spec fn entry_fits(p: Seq<Cx>, r: Cx, i: int) -> bool {
    &&& (i < p.len() ==> mul_fits(r, coef_at(p, i)))
    &&& sub_fits(
        coef_at(p, i - 1),
        if i < p.len() {
            c_mul(r, coef_at(p, i))
        } else {
            c_zero()
        },
    )
}

/// Every value that multiplying `p` by `(x - r)` computes fits in `i64`.
pub open spec fn factor_fits(p: Seq<Cx>, r: Cx) -> bool {
    forall|i: int| 0 <= i <= p.len() ==> #[trigger] entry_fits(p, r, i)
}

/// Every value of the expansion of `(x - roots[0]) * ...`, one factor at a
/// time in the order of `roots`, fits in `i64`.
pub open spec fn expansion_fits(roots: Seq<Cx>) -> bool
    decreases roots.len(),
{
    roots.len() == 0 || (expansion_fits(roots.drop_last()) && factor_fits(
        from_roots(roots.drop_last()),
        roots.last(),
    ))
}

/// Every value that Horner's rule computes on `p` at `z` fits in `i64`.
pub open spec fn horner_fits(p: Seq<Cx>, z: Cx) -> bool
    decreases p.len(),
{
    p.len() == 0 || {
        &&& horner_fits(p.drop_first(), z)
        &&& mul_fits(z, eval(p.drop_first(), z))
        &&& add_fits(p[0], c_mul(z, eval(p.drop_first(), z)))
    }
}

/// Multiplying by `(x - r)` multiplies every value by `(z - r)`.
pub proof fn lemma_eval_times_factor(p: Seq<Cx>, r: Cx, z: Cx)
    ensures
        eval(times_factor(p, r), z) == c_mul(c_sub(z, r), eval(p, z)),
    decreases p.len(),
{
    let q = times_factor(p, r);
    if p.len() == 0 {
        assert(q.drop_first().len() == 0);
        assert(eval(q.drop_first(), z) == c_zero());
        assert(q[0] == c_zero());
        assert(eval(q, z) == c_add(q[0], c_mul(z, eval(q.drop_first(), z))));
        lemma_mul_zero(z);
        lemma_mul_zero(c_sub(z, r));
    } else {
        let p0 = p[0];
        let rest = p.drop_first();
        let inner = times_factor(rest, r);
        lemma_eval_times_factor(rest, r, z);
        let e_rest = eval(rest, z);
        assert(q.drop_first() =~= inner.update(0, c_add(inner[0], p0)));
        assert(inner.drop_first() =~= inner.update(0, c_add(inner[0], p0)).drop_first());
        // eval(q') = eval(inner) + p0 = (z - r) * e_rest + p0
        let e_inner = eval(inner, z);
        assert(eval(q.drop_first(), z) == c_add(e_inner, p0));
        assert(q[0] == c_sub(c_zero(), c_mul(r, p0)));
        lemma_mul_distributes_add(z, e_inner, p0);
        lemma_mul_swap(z, c_sub(z, r), e_rest);
        lemma_mul_distributes_add(c_sub(z, r), p0, c_mul(z, e_rest));
        lemma_mul_sub_distributes(z, r, p0);
        assert(eval(q, z) == c_add(q[0], c_mul(z, eval(q.drop_first(), z))));
        assert(eval(p, z) == c_add(p0, c_mul(z, e_rest)));
        assert(c_mul(z, e_inner) == c_mul(c_sub(z, r), c_mul(z, e_rest)));
        assert(c_mul(c_sub(z, r), eval(p, z)) == c_add(
            c_mul(c_sub(z, r), p0),
            c_mul(c_sub(z, r), c_mul(z, e_rest)),
        ));
    }
}

/// The multiplied-out polynomial keeps its degree one above the number of
/// roots, and its leading coefficient is one.
pub proof fn lemma_from_roots_monic(roots: Seq<Cx>)
    ensures
        from_roots(roots).len() == roots.len() + 1,
        from_roots(roots)[roots.len() as int] == c_one(),
    decreases roots.len(),
{
    if roots.len() > 0 {
        lemma_from_roots_monic(roots.drop_last());
    }
}

/// The polynomial built from `roots` is zero at each of them.
pub proof fn lemma_roots_are_zeros(roots: Seq<Cx>, i: int)
    requires
        0 <= i < roots.len(),
    ensures
        eval(from_roots(roots), roots[i]) == c_zero(),
    decreases roots.len(),
{
    let init = roots.drop_last();
    let z = roots[i];
    lemma_eval_times_factor(from_roots(init), roots.last(), z);
    if i == roots.len() - 1 {
        lemma_mul_zero(eval(from_roots(init), z));
    } else {
        lemma_roots_are_zeros(init, i);
        lemma_mul_zero(c_sub(z, roots.last()));
    }
}

proof fn lemma_expansion_fits_prefix(roots: Seq<Cx>, k: int)
    requires
        0 <= k <= roots.len(),
        expansion_fits(roots),
    ensures
        expansion_fits(roots.subrange(0, k)),
    decreases roots.len(),
{
    if k < roots.len() {
        lemma_expansion_fits_prefix(roots.drop_last(), k);
        assert(roots.drop_last().subrange(0, k) =~= roots.subrange(0, k));
    } else {
        assert(roots.subrange(0, k) =~= roots);
    }
}

proof fn lemma_horner_fits_suffix(p: Seq<Cx>, z: Cx, j: int)
    requires
        0 <= j <= p.len(),
        horner_fits(p, z),
    ensures
        horner_fits(p.subrange(j, p.len() as int), z),
    decreases j,
{
    if j == 0 {
        assert(p.subrange(0, p.len() as int) =~= p);
    } else {
        lemma_horner_fits_suffix(p, z, j - 1);
        let s = p.subrange(j - 1, p.len() as int);
        assert(s.drop_first() =~= p.subrange(j, p.len() as int));
    }
}

/// Entry `i` of `c` times `(x - root)`.
fn factor_entry(c: &Vec<Gaussian>, root: Gaussian, i: usize) -> (r: Option<Gaussian>)
    requires
        i <= c@.len(),
    ensures
        r.is_some() == entry_fits(cview(c@), root@, i as int),
        r.is_some() ==> r.unwrap()@ == times_factor(cview(c@), root@)[i as int],
{
    let ghost p = cview(c@);
    let prev = if i > 0 {
        c[i - 1]
    } else {
        Gaussian::zero()
    };
    proof {
        assert(prev@ == coef_at(p, i - 1));
    }
    let m = if i < c.len() {
        proof {
            assert(c@[i as int]@ == coef_at(p, i as int));
        }
        match root.checked_mul(c[i]) {
            Some(m) => m,
            None => {
                return None;
            },
        }
    } else {
        Gaussian::zero()
    };
    prev.checked_sub(m)
}

/// `c` times `(x - root)`; `None` exactly where a value on the way leaves `i64`.
fn times_factor_exec(c: &Vec<Gaussian>, root: Gaussian) -> (r: Option<Vec<Gaussian>>)
    ensures
        r.is_some() == factor_fits(cview(c@), root@),
        r.is_some() ==> cview(r.unwrap()@) == times_factor(cview(c@), root@),
{
    let ghost p = cview(c@);
    let mut q: Vec<Gaussian> = Vec::new();
    let mut i: usize = 0;
    loop
        invariant
            0 <= i <= c@.len(),
            p == cview(c@),
            q@.len() == i,
            forall|u: int| 0 <= u < i ==> (#[trigger] cview(q@)[u]) == times_factor(p, root@)[u],
            forall|u: int| 0 <= u < i ==> #[trigger] entry_fits(p, root@, u),
        decreases c@.len() - i,
    {
        let d = match factor_entry(c, root, i) {
            Some(d) => d,
            None => {
                return None;
            },
        };
        let ghost before = q@;
        q.push(d);
        proof {
            assert forall|u: int| 0 <= u <= i implies (#[trigger] cview(q@)[u]) == times_factor(
                p,
                root@,
            )[u] by {
                if u < i {
                    assert(q@[u] == before[u]);
                    assert(cview(before)[u] == before[u]@);
                }
            }
        }
        if i == c.len() {
            proof {
                assert(cview(q@) =~= times_factor(p, root@));
            }
            return Some(q);
        }
        i = i + 1;
    }
}

/// The coefficients, lowest power first, of the monic polynomial whose roots
/// are `roots`, found by multiplying out `(x - r)` one root at a time. `None`
/// exactly where a value of that expansion leaves `i64`.
pub fn coefficients_from_roots(roots: &Vec<Gaussian>) -> (r: Option<Vec<Gaussian>>)
    ensures
        r.is_some() == expansion_fits(cview(roots@)),
        r.is_some() ==> cview(r.unwrap()@) == from_roots(cview(roots@)),
        r.is_some() ==> r.unwrap()@.len() == roots@.len() + 1,
        r.is_some() ==> r.unwrap()@[roots@.len() as int]@ == c_one(),
{
    let ghost rs = cview(roots@);
    let mut c: Vec<Gaussian> = Vec::new();
    c.push(Gaussian::one());
    proof {
        assert(rs.subrange(0, 0) =~= Seq::<Cx>::empty());
        assert(cview(c@) =~= seq![c_one()]);
    }
    let mut k: usize = 0;
    while k < roots.len()
        invariant
            0 <= k <= roots@.len(),
            rs == cview(roots@),
            rs.len() == roots@.len(),
            cview(c@) == from_roots(rs.subrange(0, k as int)),
            expansion_fits(rs.subrange(0, k as int)),
        decreases roots@.len() - k,
    {
        let root = roots[k];
        let ghost next = rs.subrange(0, k + 1);
        proof {
            assert(next.drop_last() =~= rs.subrange(0, k as int));
            assert(next.last() == root@);
        }
        match times_factor_exec(&c, root) {
            Some(q) => {
                c = q;
            },
            None => {
                proof {
                    if expansion_fits(rs) {
                        lemma_expansion_fits_prefix(rs, k + 1);
                    }
                }
                return None;
            },
        }
        k = k + 1;
    }
    proof {
        assert(rs.subrange(0, roots@.len() as int) =~= rs);
        lemma_from_roots_monic(rs);
        assert(cview(c@)[roots@.len() as int] == c@[roots@.len() as int]@);
    }
    Some(c)
}

/// The value of the polynomial with coefficients `coefs` (lowest power first)
/// at `z`, by Horner's rule. `None` exactly where a value of that rule leaves
/// `i64`.
pub fn evaluate(coefs: &Vec<Gaussian>, z: Gaussian) -> (r: Option<Gaussian>)
    ensures
        r.is_some() == horner_fits(cview(coefs@), z@),
        r.is_some() ==> r.unwrap()@ == eval(cview(coefs@), z@),
{
    let ghost p = cview(coefs@);
    let n = coefs.len();
    let mut acc = Gaussian::zero();
    let mut i: usize = n;
    proof {
        assert(p.subrange(n as int, n as int) =~= Seq::<Cx>::empty());
    }
    while i > 0
        invariant
            0 <= i <= n,
            n == coefs@.len(),
            p == cview(coefs@),
            acc@ == eval(p.subrange(i as int, n as int), z@),
            horner_fits(p.subrange(i as int, n as int), z@),
        decreases i,
    {
        let ghost s = p.subrange(i - 1, n as int);
        proof {
            assert(s.drop_first() =~= p.subrange(i as int, n as int));
        }
        let m = match z.checked_mul(acc) {
            Some(m) => m,
            None => {
                proof {
                    if horner_fits(p, z@) {
                        lemma_horner_fits_suffix(p, z@, i - 1);
                    }
                }
                return None;
            },
        };
        let c = coefs[i - 1];
        let next = match c.checked_add(m) {
            Some(v) => v,
            None => {
                proof {
                    if horner_fits(p, z@) {
                        lemma_horner_fits_suffix(p, z@, i - 1);
                    }
                }
                return None;
            },
        };
        acc = next;
        i = i - 1;
    }
    proof {
        assert(p.subrange(0, n as int) =~= p);
    }
    Some(acc)
}

} // verus!

use vstd::prelude::*;
use crate::combinations::combos;
use crate::gaussian::{c_add, c_mul, c_one, c_sub, c_zero, lemma_mul_distributes_add, lemma_mul_zero, Cx};
use crate::polynomial::{coef_at, from_roots, lemma_from_roots_monic, times_factor};

verus! {

/// The product of the roots at the indices `s`.
pub open spec fn prod_at(roots: Seq<Cx>, s: Seq<int>) -> Cx
    decreases s.len(),
{
    if s.len() == 0 {
        c_one()
    } else {
        c_mul(roots[s[0]], prod_at(roots, s.drop_first()))
    }
}

/// The sum, over the index sequences `ss`, of the products of those roots.
pub open spec fn sum_prods(roots: Seq<Cx>, ss: Seq<Seq<int>>) -> Cx
    decreases ss.len(),
{
    if ss.len() == 0 {
        c_zero()
    } else {
        c_add(prod_at(roots, ss[0]), sum_prods(roots, ss.drop_first()))
    }
}

/// The `k`-th elementary symmetric polynomial of `roots[0..=pos]`: the sum of
/// the products of every choice of `k` of them.
pub open spec fn elementary(roots: Seq<Cx>, pos: int, k: int) -> Cx {
    sum_prods(roots, combos(pos, k))
}

/// `x` times `(-1)^k`.
pub open spec fn signed(k: int, x: Cx) -> Cx {
    if k % 2 == 0 {
        x
    } else {
        (-x.0, -x.1)
    }
}

proof fn lemma_sum_concat(roots: Seq<Cx>, a: Seq<Seq<int>>, b: Seq<Seq<int>>)
    ensures
        sum_prods(roots, a + b) == c_add(sum_prods(roots, a), sum_prods(roots, b)),
    decreases a.len(),
{
    if a.len() == 0 {
        assert(a + b =~= b);
    } else {
        lemma_sum_concat(roots, a.drop_first(), b);
        assert((a + b).drop_first() =~= a.drop_first() + b);
    }
}

proof fn lemma_sum_with_index(roots: Seq<Cx>, pos: int, ss: Seq<Seq<int>>)
    ensures
        sum_prods(roots, ss.map_values(|s: Seq<int>| seq![pos] + s)) == c_mul(
            roots[pos],
            sum_prods(roots, ss),
        ),
    decreases ss.len(),
{
    let mapped = ss.map_values(|s: Seq<int>| seq![pos] + s);
    if ss.len() == 0 {
        lemma_mul_zero(roots[pos]);
    } else {
        lemma_sum_with_index(roots, pos, ss.drop_first());
        assert(mapped.drop_first() =~= ss.drop_first().map_values(|s: Seq<int>| seq![pos] + s));
        let head = seq![pos] + ss[0];
        assert(head.drop_first() =~= ss[0]);
        assert(prod_at(roots, mapped[0]) == c_mul(roots[pos], prod_at(roots, ss[0])));
        lemma_mul_distributes_add(roots[pos], prod_at(roots, ss[0]), sum_prods(roots, ss.drop_first()));
    }
}

proof fn lemma_mul_signed(r: Cx, k: int, x: Cx)
    ensures
        c_mul(r, signed(k, x)) == signed(k, c_mul(r, x)),
{
    if k % 2 != 0 {
        assert(r.0 * (-x.0) == -(r.0 * x.0)) by (nonlinear_arith);
        assert(r.1 * (-x.1) == -(r.1 * x.1)) by (nonlinear_arith);
        assert(r.0 * (-x.1) == -(r.0 * x.1)) by (nonlinear_arith);
        assert(r.1 * (-x.0) == -(r.1 * x.0)) by (nonlinear_arith);
    }
}

/// Vieta's formulas for the roots `roots[0..=pos]`: the coefficient of
/// `x^(pos + 1 - k)` in their monic polynomial is `(-1)^k` times the sum of the
/// products of every choice of `k` roots, the choices being those that
/// `permutations` lists.
pub proof fn lemma_vieta(roots: Seq<Cx>, pos: int, k: int)
    requires
        -1 <= pos < roots.len(),
        0 <= k <= pos + 1,
    ensures
        from_roots(roots.subrange(0, pos + 1))[pos + 1 - k] == signed(k, elementary(roots, pos, k)),
    decreases pos + 1,
{
    let here = roots.subrange(0, pos + 1);
    if k == 0 {
        lemma_from_roots_monic(here);
        let one_seq = combos(pos, 0);
        assert(one_seq == seq![Seq::<int>::empty()]);
        assert(one_seq.drop_first().len() == 0);
        assert(prod_at(roots, one_seq[0]) == c_one());
        assert(sum_prods(roots, one_seq.drop_first()) == c_zero());
        assert(elementary(roots, pos, 0) == c_add(c_one(), c_zero()));
    } else {
        let before = roots.subrange(0, pos);
        let r = roots[pos];
        assert(here.drop_last() =~= before);
        assert(here.last() == r);
        let p = from_roots(before);
        assert(from_roots(here) == times_factor(p, r));
        lemma_from_roots_monic(before);
        lemma_vieta(roots, pos - 1, k - 1);
        let lower = elementary(roots, pos - 1, k - 1);
        assert(p[pos + 1 - k] == signed(k - 1, lower));
        let with_pos = combos(pos - 1, k - 1).map_values(|s: Seq<int>| seq![pos] + s);
        lemma_sum_with_index(roots, pos, combos(pos - 1, k - 1));
        lemma_mul_signed(r, k - 1, lower);
        let t = from_roots(here)[pos + 1 - k];
        assert(t == c_sub(coef_at(p, pos - k), c_mul(r, p[pos + 1 - k])));
        if pos >= k {
            lemma_vieta(roots, pos - 1, k);
            let same = elementary(roots, pos - 1, k);
            assert(combos(pos, k) == with_pos + combos(pos - 1, k));
            lemma_sum_concat(roots, with_pos, combos(pos - 1, k));
            assert(coef_at(p, pos - k) == signed(k, same));
            assert(elementary(roots, pos, k) == c_add(c_mul(r, lower), same));
        } else {
            assert(combos(pos, k) == with_pos);
            assert(coef_at(p, pos - k) == c_zero());
            assert(elementary(roots, pos, k) == c_mul(r, lower));
        }
    }
}

/// Vieta's formulas for a whole root list: coefficient `n - k` of the
/// polynomial of `n` roots is `(-1)^k` times their `k`-th elementary symmetric
/// polynomial.
pub proof fn lemma_coefficients_are_symmetric_sums(roots: Seq<Cx>, k: int)
    requires
        0 <= k <= roots.len(),
    ensures
        from_roots(roots)[roots.len() - k] == signed(k, elementary(roots, roots.len() - 1, k)),
{
    lemma_vieta(roots, roots.len() - 1, k);
    assert(roots.subrange(0, roots.len() as int) =~= roots);
}

} // verus!

use vstd::prelude::*;

verus! {

/// The index sequences that `_permutations` visits, in the order it emits them:
/// every choice of `k` distinct indices from `0..=pos`, each listed from the
/// highest index down; choices that take `pos` come first.
pub open spec fn combos(pos: int, k: int) -> Seq<Seq<int>>
    decreases pos + 1,
{
    if k <= 0 {
        seq![Seq::<int>::empty()]
    } else if pos < 0 {
        Seq::<Seq<int>>::empty()
    } else {
        let with_pos = combos(pos - 1, k - 1).map_values(|s: Seq<int>| seq![pos] + s);
        if pos >= k {
            with_pos + combos(pos - 1, k)
        } else {
            with_pos
        }
    }
}

/// Every sequence of `combos(pos, k)` holds `k` indices of `0..=pos`, strictly decreasing.
pub proof fn lemma_combos_are_subsets(pos: int, k: int)
    requires
        k >= 0,
    ensures
        forall|j: int|
            0 <= j < combos(pos, k).len() ==> {
                let s = #[trigger] combos(pos, k)[j];
                &&& s.len() == k
                &&& forall|t: int| 0 <= t < s.len() ==> 0 <= #[trigger] s[t] <= pos
                &&& forall|a: int, b: int| 0 <= a < b < s.len() ==> s[a] > s[b]
            },
    decreases pos + 1,
{
    if k > 0 && pos >= 0 {
        lemma_combos_are_subsets(pos - 1, k - 1);
        lemma_combos_are_subsets(pos - 1, k);
        let with_pos = combos(pos - 1, k - 1).map_values(|s: Seq<int>| seq![pos] + s);
        assert forall|j: int| 0 <= j < combos(pos, k).len() implies {
            let s = #[trigger] combos(pos, k)[j];
            &&& s.len() == k
            &&& forall|t: int| 0 <= t < s.len() ==> 0 <= #[trigger] s[t] <= pos
            &&& forall|a: int, b: int| 0 <= a < b < s.len() ==> s[a] > s[b]
        } by {
            if j < with_pos.len() {
                let inner = combos(pos - 1, k - 1)[j];
                assert(combos(pos, k)[j] == seq![pos] + inner);
                assert forall|t: int| 0 <= t < inner.len() + 1 implies 0 <= #[trigger] (seq![pos]
                    + inner)[t] <= pos by {
                    if t > 0 {
                        assert((seq![pos] + inner)[t] == inner[t - 1]);
                    }
                }
                assert forall|a: int, b: int| 0 <= a < b < inner.len() + 1 implies (seq![pos]
                    + inner)[a] > (seq![pos] + inner)[b] by {
                    assert((seq![pos] + inner)[b] == inner[b - 1]);
                    if a > 0 {
                        assert((seq![pos] + inner)[a] == inner[a - 1]);
                    }
                }
            } else {
                assert(combos(pos, k)[j] == combos(pos - 1, k)[j - with_pos.len()]);
            }
        }
    }
}

/// A sequence of indices read as integers.
pub open spec fn as_ints(s: Seq<usize>) -> Seq<int> {
    s.map_values(|i: usize| i as int)
}

/// The index sequences of `combos(pos, length)` as vectors.
fn index_combinations(length: i32, pos: i32) -> (r: Vec<Vec<usize>>)
    requires
        length >= 0,
        pos >= -1,
    ensures
        r@.len() == combos(pos as int, length as int).len(),
        forall|j: int|
            0 <= j < r@.len() ==> #[trigger] as_ints(r@[j]@) == combos(
                pos as int,
                length as int,
            )[j],
    decreases pos + 1,
{
    if length == 0 {
        let empty: Vec<usize> = Vec::new();
        proof {
            assert(as_ints(empty@) =~= Seq::<int>::empty());
        }
        return vec![empty];
    }
    if pos == -1 {
        return Vec::new();
    }
    let taken = index_combinations(length - 1, pos - 1);
    let ghost spec_taken = combos(pos - 1, length - 1);
    let ghost with_pos = spec_taken.map_values(|s: Seq<int>| seq![pos as int] + s);
    let mut answer: Vec<Vec<usize>> = Vec::new();
    let mut j: usize = 0;
    while j < taken.len()
        invariant
            0 <= j <= taken@.len(),
            pos >= 0,
            forall|q: int|
                0 <= q < spec_taken.len() ==> #[trigger] with_pos[q] == seq![pos as int]
                    + spec_taken[q],
            taken@.len() == spec_taken.len(),
            with_pos.len() == spec_taken.len(),
            forall|q: int|
                0 <= q < taken@.len() ==> #[trigger] as_ints(taken@[q]@)
                    == spec_taken[q],
            answer@.len() == j,
            forall|q: int|
                0 <= q < j ==> #[trigger] as_ints(answer@[q]@)
                    == with_pos[q],
        decreases taken@.len() - j,
    {
        let mut item: Vec<usize> = Vec::new();
        item.push(pos as usize);
        let src = &taken[j];
        let mut t: usize = 0;
        while t < src.len()
            invariant
                0 <= t <= src@.len(),
                0 <= j < taken@.len(),
                src@ == taken@[j as int]@,
                pos >= 0,
                item@.len() == t + 1,
                item@[0] == pos as usize,
                forall|u: int| 0 < u <= t ==> #[trigger] item@[u] == src@[u - 1],
            decreases src@.len() - t,
        {
            item.push(src[t]);
            t = t + 1;
        }
        proof {
            let s = taken@[j as int]@;
            let want = seq![pos as int] + as_ints(s);
            assert forall|u: int| 0 <= u < item@.len() implies #[trigger] as_ints(item@)[u]
                == want[u] by {
                if u > 0 {
                    assert(item@[u] == src@[u - 1]);
                    assert(want[u] == as_ints(s)[u - 1]);
                }
            }
            assert(as_ints(item@) =~= want);
        }
        answer.push(item);
        j = j + 1;
    }
    proof {
        assert(answer@.len() == with_pos.len());
    }
    if pos >= length {
        let mut skipped = index_combinations(length, pos - 1);
        let ghost spec_skipped = combos(pos - 1, length as int);
        let ghost base = answer@;
        let ghost rest = skipped@;
        answer.append(&mut skipped);
        proof {
            let full = with_pos + spec_skipped;
            assert forall|w: int| 0 <= w < answer@.len() implies #[trigger] as_ints(answer@[w]@)
                == combos(pos as int, length as int)[w] by {
                if w >= base.len() {
                    assert(answer@[w] == rest[w - base.len()]);
                    assert(full[w] == spec_skipped[w - base.len()]);
                } else {
                    assert(answer@[w] == base[w]);
                }
            }
        }
    }
    answer
}

/// Every selection of `length` items of `v`, as `_permutations(v, length, v.len() - 1, [])`
/// gives it: each selection lists its items from the highest index down.
pub fn permutations<T: Clone>(v: &Vec<T>, length: usize) -> (r: Vec<Vec<T>>)
    requires
        v@.len() <= i32::MAX,
        length <= i32::MAX,
    ensures
        r@.len() == combos(v@.len() - 1, length as int).len(),
        forall|j: int| 0 <= j < r@.len() ==> (#[trigger] r@[j])@.len() == length,
        forall|j: int, t: int|
            0 <= j < r@.len() && 0 <= t < length ==> cloned(
                v@[combos(v@.len() - 1, length as int)[j][t]],
                #[trigger] r@[j]@[t],
            ),
{
    let empty: Vec<T> = Vec::new();
    let r = _permutations(v, length as i32, v.len() as i32 - 1, empty);
    proof {
        assert forall|j: int, t: int| 0 <= j < r@.len() && 0 <= t < length implies cloned(
            v@[combos(v@.len() - 1, length as int)[j][t]],
            #[trigger] r@[j]@[t],
        ) by {
            assert(r@[j]@[0 + t] == r@[j]@[t]);
        }
    }
    r
}

/// Every selection of `length` items among `v[0..=pos]`, each appended to a
/// copy of `result`. Selections that take `v[pos]` come before those that skip
/// it, and each lists its items from the highest index down; the order is
/// `combos(pos, length)`.
pub fn _permutations<T: Clone>(v: &Vec<T>, length: i32, pos: i32, result: Vec<T>) -> (r: Vec<
    Vec<T>,
>)
    requires
        length >= 0,
        -1 <= pos < v@.len(),
    ensures
        r@.len() == combos(pos as int, length as int).len(),
        forall|j: int|
            0 <= j < r@.len() ==> (#[trigger] r@[j])@.len() == result@.len() + length,
        forall|j: int, t: int|
            0 <= j < r@.len() && 0 <= t < result@.len() ==> cloned(
                result@[t],
                #[trigger] r@[j]@[t],
            ),
        forall|j: int, t: int|
            0 <= j < r@.len() && 0 <= t < length ==> cloned(
                v@[combos(pos as int, length as int)[j][t]],
                #[trigger] r@[j]@[result@.len() + t],
            ),
{
    let chosen = index_combinations(length, pos);
    let ghost cs = combos(pos as int, length as int);
    proof {
        lemma_combos_are_subsets(pos as int, length as int);
    }
    let mut answer: Vec<Vec<T>> = Vec::new();
    let mut j: usize = 0;
    while j < chosen.len()
        invariant
            0 <= j <= chosen@.len(),
            chosen@.len() == cs.len(),
            length >= 0,
            pos < v@.len(),
            forall|q: int| 0 <= q < chosen@.len() ==> #[trigger] as_ints(chosen@[q]@) == cs[q],
            forall|q: int|
                0 <= q < cs.len() ==> {
                    let s = #[trigger] cs[q];
                    &&& s.len() == length
                    &&& forall|t: int| 0 <= t < s.len() ==> 0 <= #[trigger] s[t] <= pos
                },
            answer@.len() == j,
            forall|q: int|
                0 <= q < j ==> (#[trigger] answer@[q])@.len() == result@.len() + length,
            forall|q: int, t: int|
                0 <= q < j && 0 <= t < result@.len() ==> cloned(
                    result@[t],
                    #[trigger] answer@[q]@[t],
                ),
            forall|q: int, t: int|
                0 <= q < j && 0 <= t < length ==> cloned(
                    v@[cs[q][t]],
                    #[trigger] answer@[q]@[result@.len() + t],
                ),
        decreases chosen@.len() - j,
    {
        let indices = &chosen[j];
        let ghost s = cs[j as int];
        proof {
            assert(as_ints(indices@) == s);
            assert(indices@.len() == s.len());
        }
        let mut item = result.clone();
        let mut t: usize = 0;
        while t < indices.len()
            invariant
                0 <= t <= indices@.len(),
                indices@.len() == length,
                as_ints(indices@) == s,
                forall|u: int| 0 <= u < s.len() ==> 0 <= #[trigger] s[u] <= pos,
                pos < v@.len(),
                item@.len() == result@.len() + t,
                forall|u: int| 0 <= u < result@.len() ==> cloned(result@[u], #[trigger] item@[u]),
                forall|u: int|
                    0 <= u < t ==> cloned(v@[s[u]], #[trigger] item@[result@.len() + u]),
            decreases indices@.len() - t,
        {
            let k = indices[t];
            proof {
                assert(as_ints(indices@)[t as int] == k as int);
            }
            let e = v[k].clone();
            item.push(e);
            t = t + 1;
        }
        answer.push(item);
        j = j + 1;
    }
    answer
}

} // verus!

use vstd::prelude::*;

verus! {

/// Extends a sequence of approximations by the one that `next` finds from
/// its last value. Where `next` finds none the sequence is left as it was.
/// Returns whether a value was appended; earlier values are never removed.
pub fn append_approximation<T: Copy, G: Fn(T) -> Option<T>>(seq: &mut Vec<T>, next: &G) -> (r: bool)
    requires
        old(seq)@.len() > 0,
        forall|t: T| next.requires((t,)),
    ensures
        exists|o: Option<T>|
            #[trigger] next.ensures((old(seq)@.last(),), o) && match o {
                Some(v) => r && final(seq)@ == old(seq)@.push(v),
                None => !r && final(seq)@ == old(seq)@,
            },
{
    let ghost before = seq@;
    let last = seq[seq.len() - 1];
    let found = next(last);
    proof {
        assert(last == before.last());
        assert(next.ensures((before.last(),), found));
    }
    match found {
        Some(v) => {
            seq.push(v);
            proof {
                assert(seq@ == before.push(v));
            }
            true
        },
        None => false,
    }
}

} // verus!

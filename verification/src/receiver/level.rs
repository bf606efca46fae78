//! Bringing a window to a level by its peak. The arithmetic is the caller's.
use crate::fold::{best, best_above, champion, place};
use vstd::prelude::*;

verus! {

/// `peak` is the greatest magnitude in a window, as a search from `zero` on finds it.
pub open spec fn is_peak<T, M: Fn(T) -> T, G: Fn(T, T) -> bool>(
    magnitude: M,
    greater: G,
    zero: T,
    window: Seq<T>,
    peak: T,
) -> bool {
    exists|magnitudes: Seq<T>, at: Option<int>|
        magnitudes.len() == window.len() && (forall|i: int|
            0 <= i < window.len() ==> call_ensures(
                magnitude,
                (window[i],),
                #[trigger] magnitudes[i],
            )) && #[trigger] best(greater, magnitudes, zero, at) && peak == champion(
            magnitudes,
            zero,
            at,
        )
}

/// Scales a window by the gain that its peak asks for, and returns the gain; where the peak asks
/// for none, the window is left alone.
pub fn peak_normalize<
    T: Copy,
    M: Fn(T) -> T,
    G: Fn(T, T) -> bool,
    Q: Fn(T) -> Option<T>,
    S: Fn(T, T) -> T,
>(window: &mut Vec<T>, zero: T, magnitude: &M, greater: &G, gain: &Q, scale: &S) -> (r: Option<T>)
    requires
        forall|a: T| #[trigger] call_requires(*magnitude, (a,)),
        forall|a: T, b: T| #[trigger] call_requires(*greater, (a, b)),
        forall|a: T| #[trigger] call_requires(*gain, (a,)),
        forall|a: T, b: T| #[trigger] call_requires(*scale, (a, b)),
    ensures
        exists|peak: T|
            is_peak(*magnitude, *greater, zero, old(window)@, peak) && #[trigger] call_ensures(
                *gain,
                (peak,),
                r,
            ),
        r is None ==> final(window)@ == old(window)@,
        r matches Some(g) ==> final(window)@.len() == old(window)@.len() && forall|i: int|
            0 <= i < old(window)@.len() ==> call_ensures(
                *scale,
                (old(window)@[i], g),
                #[trigger] final(window)@[i],
            ),
{
    let mut magnitudes: Vec<T> = Vec::new();
    for i in 0..window.len()
        invariant
            window@ == old(window)@,
            forall|a: T| #[trigger] call_requires(*magnitude, (a,)),
            magnitudes@.len() == i,
            forall|k: int|
                0 <= k < i ==> call_ensures(*magnitude, (window@[k],), #[trigger] magnitudes@[k]),
    {
        let m: T = magnitude(window[i]);
        magnitudes.push(m);
    }
    let at: Option<usize> = best_above(magnitudes.as_slice(), zero, greater);
    let peak: T = match at {
        None => zero,
        Some(i) => magnitudes[i],
    };
    assert(best(*greater, magnitudes@, zero, place(at)));
    assert(is_peak(*magnitude, *greater, zero, old(window)@, peak));
    let r: Option<T> = gain(peak);
    assert(call_ensures(*gain, (peak,), r));
    let ghost was = window@;
    if let Some(g) = r {
        let n: usize = window.len();
        for i in 0..n
            invariant
                n == was.len(),
                window@.len() == was.len(),
                forall|a: T, b: T| #[trigger] call_requires(*scale, (a, b)),
                forall|k: int| i <= k < was.len() ==> #[trigger] window@[k] == was[k],
                forall|k: int|
                    0 <= k < i ==> call_ensures(*scale, (was[k], g), #[trigger] window@[k]),
        {
            let v: T = scale(window[i], g);
            window.set(i, v);
        }
    }
    r
}

} // verus!

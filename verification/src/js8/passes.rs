//! The passes over a window: in each one candidates are looked for and tried, what is decoded is
//! taken out of the window so that the next pass can find what lies under it, and the same frame
//! is kept once, as it was heard best. The search and the attempts are the caller's.
use crate::js8::decoder::{
    find_hit, frames_differ, law_hits_distinct, lemma_place_bounds, merge_hit, merged, next_pass,
    place_of, subtracts, Hit,
};
use vstd::prelude::*;

verus! {

/// What the candidates of a pass do: the windows before each of them and after the last, what each
/// gave, and the hits before each of them and after the last.
pub ghost struct Tries<W, F> {
    pub windows: Seq<W>,
    pub found: Seq<Option<Hit<F>>>,
    pub hits: Seq<Seq<Hit<F>>>,
}

/// Whether one of the first `n` candidates gave anything.
pub open spec fn improved<F>(found: Seq<Option<Hit<F>>>, n: int) -> bool {
    exists|k: int| 0 <= k < n && #[trigger] found[k] is Some
}

/// `out` are the hits once another one has come: a frame that is among them already keeps the
/// stronger of both.
pub open spec fn hit_added<F, G: Fn(F, F) -> bool>(
    stronger: G,
    hits: Seq<Hit<F>>,
    hit: Hit<F>,
    out: Seq<Hit<F>>,
) -> bool {
    let at = place_of(hits, hit.frame@);
    if at < hits.len() {
        exists|b: bool|
            #![trigger merged(hits, at, b, hit)]
            call_ensures(stronger, (hit.snr, hits[at].snr), b) && out == merged(hits, at, b, hit)
    } else {
        out == hits.push(hit)
    }
}

/// What the `k`-th candidate of a pass does.
pub open spec fn tried<
    W,
    C,
    F,
    B: Fn(W, C, bool) -> (W, Option<Hit<F>>),
    G: Fn(F, F) -> bool,
>(attempt: B, stronger: G, take_out: bool, candidates: Seq<C>, t: Tries<W, F>, k: int) -> bool {
    &&& call_ensures(
        attempt,
        (t.windows[k], candidates[k], take_out),
        (t.windows[k + 1], t.found[k]),
    )
    &&& match t.found[k] {
        None => t.hits[k + 1] == t.hits[k],
        Some(h) => hit_added(stronger, t.hits[k], h, t.hits[k + 1]),
    }
}

/// `t` is what the first `n` candidates of a pass do, from a window and hits on.
pub open spec fn all_tried<
    W,
    C,
    F,
    B: Fn(W, C, bool) -> (W, Option<Hit<F>>),
    G: Fn(F, F) -> bool,
>(
    attempt: B,
    stronger: G,
    take_out: bool,
    candidates: Seq<C>,
    window: W,
    hits: Seq<Hit<F>>,
    t: Tries<W, F>,
    n: int,
) -> bool {
    &&& t.windows.len() == n + 1
    &&& t.found.len() == n
    &&& t.hits.len() == n + 1
    &&& t.windows[0] == window
    &&& t.hits[0] == hits
    &&& forall|k: int|
        0 <= k < n ==> #[trigger] tried(attempt, stronger, take_out, candidates, t, k)
}

/// Whether a pass takes what it decodes out of the window: all but the last do.
pub open spec fn takes_out(ipass: int) -> bool {
    ipass < 3
}

/// `out` are the hits of the passes from pass `ipass` on. A pass that finds no candidates, or from
/// whose candidates nothing comes, is the last one, and so is the third; the third takes nothing
/// out.
pub open spec fn passes_from<
    W,
    C,
    F,
    A: Fn(W) -> (W, Vec<C>),
    B: Fn(W, C, bool) -> (W, Option<Hit<F>>),
    G: Fn(F, F) -> bool,
>(
    search: A,
    attempt: B,
    stronger: G,
    ipass: int,
    window: W,
    hits: Seq<Hit<F>>,
    out: Seq<Hit<F>>,
) -> bool
    decreases 4 - ipass,
{
    exists|w: W, candidates: Vec<C>, t: Tries<W, F>|
        #![trigger call_ensures(search, (window,), (w, candidates)), all_tried(
            attempt,
            stronger,
            takes_out(ipass),
            candidates@,
            w,
            hits,
            t,
            candidates@.len() as int,
        )]
        call_ensures(search, (window,), (w, candidates)) && all_tried(
            attempt,
            stronger,
            takes_out(ipass),
            candidates@,
            w,
            hits,
            t,
            candidates@.len() as int,
        ) && if ipass < 3 && improved(t.found, candidates@.len() as int) {
            passes_from(
                search,
                attempt,
                stronger,
                ipass + 1,
                t.windows.last(),
                t.hits.last(),
                out,
            )
        } else {
            out == t.hits.last()
        }
}

/// Adds a hit to those of earlier candidates.
fn add_hit<F: Copy, G: Fn(F, F) -> bool>(hits: &mut Vec<Hit<F>>, hit: Hit<F>, stronger: &G)
    requires
        forall|a: F, b: F| #[trigger] call_requires(*stronger, (a, b)),
    ensures
        hit_added(*stronger, old(hits)@, hit, final(hits)@),
{
    let at: usize = find_hit(hits, &hit.frame);
    let b: bool = if at < hits.len() {
        stronger(hit.snr, hits[at].snr)
    } else {
        false
    };
    let ghost was = hits@;
    merge_hit(hits, at, b, hit);
    assert(hits@ == merged(was, at as int, b, hit));
}

/// Makes the passes from pass `ipass` on.
fn decode_from<
    W,
    C: Copy,
    F: Copy,
    A: Fn(W) -> (W, Vec<C>),
    B: Fn(W, C, bool) -> (W, Option<Hit<F>>),
    G: Fn(F, F) -> bool,
>(
    ipass: u8,
    window: W,
    hits: Vec<Hit<F>>,
    search: &A,
    attempt: &B,
    stronger: &G,
) -> (r: Vec<Hit<F>>)
    requires
        1 <= ipass <= 3,
        forall|w: W| #[trigger] call_requires(*search, (w,)),
        forall|w: W, c: C, b: bool| #[trigger] call_requires(*attempt, (w, c, b)),
        forall|a: F, b: F| #[trigger] call_requires(*stronger, (a, b)),
    ensures
        passes_from(*search, *attempt, *stronger, ipass as int, window, hits@, r@),
    decreases 4 - ipass,
{
    let ghost first = window;
    let ghost before = hits@;
    let (w, candidates) = search(window);
    assert(call_ensures(*search, (first,), (w, candidates)));
    let take_out: bool = subtracts(ipass);
    let ghost start = w;
    let ghost mut t: Tries<W, F> = Tries {
        windows: seq![w],
        found: Seq::empty(),
        hits: seq![hits@],
    };
    let mut now: W = w;
    let mut kept: Vec<Hit<F>> = hits;
    let mut any: bool = false;
    for k in 0..candidates.len()
        invariant
            forall|w: W, c: C, b: bool| #[trigger] call_requires(*attempt, (w, c, b)),
            forall|a: F, b: F| #[trigger] call_requires(*stronger, (a, b)),
            all_tried(*attempt, *stronger, take_out, candidates@, start, before, t, k as int),
            t.windows.last() == now,
            t.hits.last() == kept@,
            any == improved(t.found, k as int),
    {
        let ghost was = t;
        let ghost w0 = now;
        let (w1, found) = attempt(now, candidates[k], take_out);
        assert(call_ensures(*attempt, (w0, candidates@[k as int], take_out), (w1, found)));
        let ghost f = found;
        let ghost h0 = kept@;
        now = w1;
        match found {
            None => {},
            Some(h) => {
                add_hit(&mut kept, h, stronger);
                any = true;
            },
        }
        proof {
            t = Tries {
                windows: was.windows.push(now),
                found: was.found.push(f),
                hits: was.hits.push(kept@),
            };
            assert forall|i: int| 0 <= i < k + 1 implies #[trigger] tried(
                *attempt,
                *stronger,
                take_out,
                candidates@,
                t,
                i,
            ) by {
                if i < k {
                    assert(tried(*attempt, *stronger, take_out, candidates@, was, i));
                }
            }
            assert(any == improved(t.found, k + 1)) by {
                if f is Some {
                    assert(t.found[k as int] is Some);
                }
                if improved(was.found, k as int) {
                    let i = choose|i: int| 0 <= i < k && #[trigger] was.found[i] is Some;
                    assert(t.found[i] is Some);
                }
                if improved(t.found, k + 1) {
                    let i = choose|i: int| 0 <= i < k + 1 && #[trigger] t.found[i] is Some;
                    if i < k {
                        assert(was.found[i] is Some);
                    }
                }
            }
        }
    }
    assert(all_tried(
        *attempt,
        *stronger,
        takes_out(ipass as int),
        candidates@,
        start,
        before,
        t,
        candidates@.len() as int,
    ));
    let r: Vec<Hit<F>> = match next_pass(ipass, candidates.len(), any) {
        None => kept,
        Some(p) => decode_from(p, now, kept, search, attempt, stronger),
    };
    assert(passes_from(*search, *attempt, *stronger, ipass as int, first, before, r@)) by {
        reveal_with_fuel(passes_from, 2);
    }
    r
}

/// Makes the passes over a window and returns its hits.
pub fn decode_window<
    W,
    C: Copy,
    F: Copy,
    A: Fn(W) -> (W, Vec<C>),
    B: Fn(W, C, bool) -> (W, Option<Hit<F>>),
    G: Fn(F, F) -> bool,
>(window: W, search: &A, attempt: &B, stronger: &G) -> (r: Vec<Hit<F>>)
    requires
        forall|w: W| #[trigger] call_requires(*search, (w,)),
        forall|w: W, c: C, b: bool| #[trigger] call_requires(*attempt, (w, c, b)),
        forall|a: F, b: F| #[trigger] call_requires(*stronger, (a, b)),
    ensures
        passes_from(*search, *attempt, *stronger, 1, window, Seq::empty(), r@),
{
    let none: Vec<Hit<F>> = Vec::new();
    assert(none@ =~= Seq::empty());
    decode_from(1, window, none, search, attempt, stronger)
}

/// The hits of a window are different frames, each once, however many passes heard it.
pub proof fn law_window_hits_distinct<
    W,
    C,
    F,
    A: Fn(W) -> (W, Vec<C>),
    B: Fn(W, C, bool) -> (W, Option<Hit<F>>),
    G: Fn(F, F) -> bool,
>(
    search: A,
    attempt: B,
    stronger: G,
    ipass: int,
    window: W,
    hits: Seq<Hit<F>>,
    out: Seq<Hit<F>>,
)
    requires
        1 <= ipass <= 3,
        frames_differ(hits),
        passes_from(search, attempt, stronger, ipass, window, hits, out),
    ensures
        frames_differ(out),
    decreases 4 - ipass,
{
    let (w, candidates, t) = choose|w: W, candidates: Vec<C>, t: Tries<W, F>|
        #![trigger call_ensures(search, (window,), (w, candidates)), all_tried(
            attempt,
            stronger,
            takes_out(ipass),
            candidates@,
            w,
            hits,
            t,
            candidates@.len() as int,
        )]
        call_ensures(search, (window,), (w, candidates)) && all_tried(
            attempt,
            stronger,
            takes_out(ipass),
            candidates@,
            w,
            hits,
            t,
            candidates@.len() as int,
        ) && if ipass < 3 && improved(t.found, candidates@.len() as int) {
            passes_from(
                search,
                attempt,
                stronger,
                ipass + 1,
                t.windows.last(),
                t.hits.last(),
                out,
            )
        } else {
            out == t.hits.last()
        };
    let n = candidates@.len() as int;
    lemma_tries_distinct(
        attempt,
        stronger,
        takes_out(ipass),
        candidates@,
        w,
        hits,
        t,
        n,
        n,
    );
    if ipass < 3 && improved(t.found, n) {
        law_window_hits_distinct(
            search,
            attempt,
            stronger,
            ipass + 1,
            t.windows.last(),
            t.hits.last(),
            out,
        );
    }
}

proof fn lemma_tries_distinct<
    W,
    C,
    F,
    B: Fn(W, C, bool) -> (W, Option<Hit<F>>),
    G: Fn(F, F) -> bool,
>(
    attempt: B,
    stronger: G,
    take_out: bool,
    candidates: Seq<C>,
    window: W,
    hits: Seq<Hit<F>>,
    t: Tries<W, F>,
    n: int,
    k: int,
)
    requires
        frames_differ(hits),
        all_tried(attempt, stronger, take_out, candidates, window, hits, t, n),
        0 <= k <= n,
    ensures
        frames_differ(t.hits[k]),
    decreases k,
{
    if k > 0 {
        lemma_tries_distinct(
            attempt,
            stronger,
            take_out,
            candidates,
            window,
            hits,
            t,
            n,
            k - 1,
        );
        assert(tried(attempt, stronger, take_out, candidates, t, k - 1));
        if let Some(h) = t.found[k - 1] {
            law_hits_distinct(t.hits[k - 1], true, h);
            law_hits_distinct(t.hits[k - 1], false, h);
        }
    }
}

/// Whether a frame is among the hits, heard as well as in a given hit or better.
pub open spec fn is_kept(hits: Seq<Hit<i64>>, h: Hit<i64>) -> bool {
    exists|j: int|
        0 <= j < hits.len() && (#[trigger] hits[j]).frame@ == h.frame@ && hits[j].snr >= h.snr
}

/// Another hit leaves all frames among the hits, and its own, heard as well as before or better.
pub proof fn law_hit_kept<G: Fn(i64, i64) -> bool>(
    stronger: G,
    hits: Seq<Hit<i64>>,
    hit: Hit<i64>,
    out: Seq<Hit<i64>>,
)
    requires
        hit_added(stronger, hits, hit, out),
        forall|a: i64, b: i64, r: bool|
            #[trigger] call_ensures(stronger, (a, b), r) ==> r == (a > b),
    ensures
        is_kept(out, hit),
        forall|h: Hit<i64>| is_kept(hits, h) ==> #[trigger] is_kept(out, h),
{
    let at = place_of(hits, hit.frame@);
    lemma_place_bounds(hits, hit.frame@);
    if at < hits.len() {
        assert(out[at].frame@ == hit.frame@ && out[at].snr >= hit.snr);
    } else {
        assert(out[hits.len() as int] == hit);
    }
    assert forall|h: Hit<i64>| is_kept(hits, h) implies #[trigger] is_kept(out, h) by {
        let j = choose|j: int|
            0 <= j < hits.len() && (#[trigger] hits[j]).frame@ == h.frame@ && hits[j].snr >= h.snr;
        assert(out[j].frame@ == h.frame@ && out[j].snr >= h.snr);
    }
}

/// What a pass has decoded is kept as well as it was heard in any of its candidates, and so is what
/// was heard before.
pub proof fn law_pass_keeps_best<
    W,
    C,
    B: Fn(W, C, bool) -> (W, Option<Hit<i64>>),
    G: Fn(i64, i64) -> bool,
>(
    attempt: B,
    stronger: G,
    take_out: bool,
    candidates: Seq<C>,
    window: W,
    hits: Seq<Hit<i64>>,
    t: Tries<W, i64>,
    n: int,
    k: int,
)
    requires
        all_tried(attempt, stronger, take_out, candidates, window, hits, t, n),
        0 <= k <= n,
        forall|a: i64, b: i64, r: bool|
            #[trigger] call_ensures(stronger, (a, b), r) ==> r == (a > b),
    ensures
        forall|h: Hit<i64>| is_kept(hits, h) ==> #[trigger] is_kept(t.hits[k], h),
        forall|i: int|
            0 <= i < k && (#[trigger] t.found[i]) is Some ==> is_kept(t.hits[k], t.found[i]->0),
    decreases k,
{
    if k > 0 {
        law_pass_keeps_best(
            attempt,
            stronger,
            take_out,
            candidates,
            window,
            hits,
            t,
            n,
            k - 1,
        );
        assert(tried(attempt, stronger, take_out, candidates, t, k - 1));
        if let Some(h) = t.found[k - 1] {
            law_hit_kept(stronger, t.hits[k - 1], h, t.hits[k]);
        }
        assert forall|i: int| 0 <= i < k && (#[trigger] t.found[i]) is Some implies is_kept(
            t.hits[k],
            t.found[i]->0,
        ) by {
            if i < k - 1 {
                assert(is_kept(t.hits[k - 1], t.found[i]->0));
            }
        }
    }
}

/// Later passes lose nothing of what earlier ones heard.
pub proof fn law_passes_keep_best<
    W,
    C,
    A: Fn(W) -> (W, Vec<C>),
    B: Fn(W, C, bool) -> (W, Option<Hit<i64>>),
    G: Fn(i64, i64) -> bool,
>(
    search: A,
    attempt: B,
    stronger: G,
    ipass: int,
    window: W,
    hits: Seq<Hit<i64>>,
    out: Seq<Hit<i64>>,
)
    requires
        1 <= ipass <= 3,
        passes_from(search, attempt, stronger, ipass, window, hits, out),
        forall|a: i64, b: i64, r: bool|
            #[trigger] call_ensures(stronger, (a, b), r) ==> r == (a > b),
    ensures
        forall|h: Hit<i64>| is_kept(hits, h) ==> #[trigger] is_kept(out, h),
    decreases 4 - ipass,
{
    let (w, candidates, t) = choose|w: W, candidates: Vec<C>, t: Tries<W, i64>|
        #![trigger call_ensures(search, (window,), (w, candidates)), all_tried(
            attempt,
            stronger,
            takes_out(ipass),
            candidates@,
            w,
            hits,
            t,
            candidates@.len() as int,
        )]
        call_ensures(search, (window,), (w, candidates)) && all_tried(
            attempt,
            stronger,
            takes_out(ipass),
            candidates@,
            w,
            hits,
            t,
            candidates@.len() as int,
        ) && if ipass < 3 && improved(t.found, candidates@.len() as int) {
            passes_from(
                search,
                attempt,
                stronger,
                ipass + 1,
                t.windows.last(),
                t.hits.last(),
                out,
            )
        } else {
            out == t.hits.last()
        };
    let n = candidates@.len() as int;
    law_pass_keeps_best(
        attempt,
        stronger,
        takes_out(ipass),
        candidates@,
        w,
        hits,
        t,
        n,
        n,
    );
    if ipass < 3 && improved(t.found, n) {
        law_passes_keep_best(
            search,
            attempt,
            stronger,
            ipass + 1,
            t.windows.last(),
            t.hits.last(),
            out,
        );
    }
}

/// The first two passes over a window take what they decode out of it; the third, after which nobody
/// looks, does not.
pub proof fn law_takes_out()
    ensures
        takes_out(1),
        takes_out(2),
        !takes_out(3),
{
}

} // verus!

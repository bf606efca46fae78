//! The scan of a band for candidates: every bin is scored at every offset, the scores are measured
//! against the middle of all, and of those that are strong enough the strongest are chosen. How
//! scores are computed and compared is the caller's.
use crate::fold::{best, best_above, champion, place};
use crate::js8::decode::{choice, percentile_rank, places, select_candidates, taken};
use crate::js8::params::{Mode, NMAXCAND};
use crate::js8::search::{by_strength, strongest_first};
use vstd::prelude::*;

verus! {

/// A bin with its best offset in quarter symbols, and the score there.
#[derive(Debug, Clone, Copy, PartialEq)]
pub struct Scored<T> {
    pub bin: usize,
    pub offset: i64,
    pub score: T,
}

/// The scores of a scan and their arithmetic.
pub struct Scoring<T, P, G, K, V, B> {
    /// Less than any score.
    pub floor: T,
    /// The score of a bin at an offset.
    pub score: P,
    /// Whether the first score is the greater one.
    pub greater: G,
    /// The place of a score in the order of all scores.
    pub key: K,
    /// One score measured against another.
    pub over: V,
    /// Whether a measured score is strong enough.
    pub strong: B,
}

/// What happens in a scan: the scores of the bins, the keys by which they are ordered, the order,
/// the score they are measured against, and the same again for the measured scores, with whether
/// each is strong enough.
pub ghost struct Scan<T> {
    pub raw: Seq<Scored<T>>,
    pub keys: Seq<i64>,
    pub order: Seq<usize>,
    pub measured: Seq<T>,
    pub new_keys: Seq<i64>,
    pub new_order: Seq<usize>,
    pub strong: Seq<bool>,
}

impl<T> Scan<T> {
    /// The score that the others are measured against: the one at two fifths from below.
    pub open spec fn middle(self) -> T {
        let n = self.raw.len() as int;
        let rank = if n == 1 {
            0
        } else if n * 4 / 10 < 1 {
            1
        } else {
            n * 4 / 10
        };
        self.raw[self.order[n - 1 - rank] as int].score
    }

    /// The bins in the order of strength, and whether each is strong enough.
    pub open spec fn list(self) -> Seq<(u32, bool)> {
        Seq::new(
            self.raw.len(),
            |k: int|
                {
                    let at = self.new_order[k] as int;
                    (self.raw[at].bin as u32, self.strong[at])
                },
        )
    }

    /// The candidate at a place of the order.
    pub open spec fn candidate(self, k: int) -> Scored<T> {
        let at = self.new_order[k] as int;
        Scored {
            bin: self.raw[at].bin,
            offset: self.raw[at].offset,
            score: self.measured[at],
        }
    }

    /// The candidates that are chosen.
    pub open spec fn chosen(self, m: Mode) -> Seq<Scored<T>> {
        let picks = choice(self.list(), Seq::empty(), 0, NMAXCAND as int, m);
        Seq::new(picks.len(), |i: int| self.candidate(picks[i]))
    }
}

impl<
    T: Copy,
    P: Fn(usize, i64) -> T,
    G: Fn(T, T) -> bool,
    K: Fn(T) -> i64,
    V: Fn(T, T) -> T,
    B: Fn(T) -> bool,
> Scoring<T, P, G, K, V, B> {
    /// The arithmetic works on all values.
    pub open spec fn total(&self) -> bool {
        &&& forall|i: usize, j: i64| #[trigger] call_requires(self.score, (i, j))
        &&& forall|a: T, b: T| #[trigger] call_requires(self.greater, (a, b))
        &&& forall|a: T| #[trigger] call_requires(self.key, (a,))
        &&& forall|a: T, b: T| #[trigger] call_requires(self.over, (a, b))
        &&& forall|a: T| #[trigger] call_requires(self.strong, (a,))
    }

    /// `values` holds the scores of a bin, from the earliest offset on.
    pub open spec fn scores(&self, bin: int, m: Mode, values: Seq<T>) -> bool {
        values.len() == 2 * m.jz + 1 && forall|k: int|
            0 <= k < values.len() ==> call_ensures(
                self.score,
                (bin as usize, (k - m.jz) as i64),
                #[trigger] values[k],
            )
    }

    /// `out` is a bin with its best offset; -1 where no score is over the floor.
    pub open spec fn is_scored(&self, bin: int, m: Mode, out: Scored<T>) -> bool {
        exists|values: Seq<T>, at: Option<int>|
            self.scores(bin, m, values) && #[trigger] best(self.greater, values, self.floor, at)
                && out.bin == bin && out.offset == (match at {
                None => -1,
                Some(k) => k - m.jz,
            }) && out.score == champion(values, self.floor, at)
    }

    /// `t` is a scan from bin `ia` to bin `ib`.
    pub open spec fn scanned(&self, ia: int, ib: int, m: Mode, t: Scan<T>) -> bool {
        let n = ib - ia + 1;
        &&& t.raw.len() == n
        &&& forall|k: int| 0 <= k < n ==> self.is_scored(ia + k, m, #[trigger] t.raw[k])
        &&& t.keys.len() == n
        &&& forall|k: int|
            0 <= k < n ==> call_ensures(self.key, (t.raw[k].score,), #[trigger] t.keys[k])
        &&& by_strength(t.keys, t.order)
        &&& t.measured.len() == n
        &&& forall|k: int|
            0 <= k < n ==> call_ensures(
                self.over,
                (t.raw[k].score, t.middle()),
                #[trigger] t.measured[k],
            )
        &&& t.new_keys.len() == n
        &&& forall|k: int|
            0 <= k < n ==> call_ensures(self.key, (t.measured[k],), #[trigger] t.new_keys[k])
        &&& by_strength(t.new_keys, t.new_order)
        &&& t.strong.len() == n
        &&& forall|k: int|
            0 <= k < n ==> call_ensures(self.strong, (t.measured[k],), #[trigger] t.strong[k])
    }

    /// Scores a bin.
    fn score_bin(&self, bin: usize, m: &Mode) -> (r: Scored<T>)
        requires
            self.total(),
            2 * m.jz < usize::MAX,
            m.jz <= i64::MAX,
        ensures
            self.is_scored(bin as int, *m, r),
    {
        let mut values: Vec<T> = Vec::new();
        let n: usize = 2 * m.jz + 1;
        for k in 0..n
            invariant
                self.total(),
                2 * m.jz < usize::MAX,
                m.jz <= i64::MAX,
                n == 2 * m.jz + 1,
                values@.len() == k,
                forall|i: int|
                    0 <= i < k ==> call_ensures(
                        self.score,
                        (bin, (i - m.jz) as i64),
                        #[trigger] values@[i],
                    ),
        {
            let v: T = (self.score)(bin, (k as i128 - m.jz as i128) as i64);
            values.push(v);
        }
        let at: Option<usize> = best_above(values.as_slice(), self.floor, &self.greater);
        assert(best(self.greater, values@, self.floor, place(at)));
        assert(self.scores(bin as int, *m, values@));
        match at {
            None => Scored { bin, offset: -1, score: self.floor },
            Some(k) => Scored { bin, offset: (k as i128 - m.jz as i128) as i64, score: values[k] },
        }
    }

    /// The keys of scores.
    fn keys_of(&self, scores: &Vec<T>) -> (r: Vec<i64>)
        requires
            self.total(),
        ensures
            r@.len() == scores@.len(),
            forall|k: int|
                0 <= k < r@.len() ==> call_ensures(self.key, (scores@[k],), #[trigger] r@[k]),
    {
        let mut out: Vec<i64> = Vec::new();
        for k in 0..scores.len()
            invariant
                self.total(),
                out@.len() == k,
                forall|i: int|
                    0 <= i < k ==> call_ensures(self.key, (scores@[i],), #[trigger] out@[i]),
        {
            let key: i64 = (self.key)(scores[k]);
            out.push(key);
        }
        out
    }

    /// Scans the bins from `ia` to `ib` and chooses the candidates, the strongest first.
    pub fn sync_pass(&self, ia: usize, ib: usize, m: &Mode) -> (r: Vec<Scored<T>>)
        requires
            self.total(),
            ib < u32::MAX,
            2 * m.jz < usize::MAX,
            m.jz <= i64::MAX,
        ensures
            ia > ib ==> r@.len() == 0,
            ia <= ib ==> exists|t: Scan<T>| #[trigger]
                self.scanned(ia as int, ib as int, *m, t) && r@ == t.chosen(*m),
    {
        if ia > ib {
            return Vec::new();
        }
        let n: usize = ib - ia + 1;
        let mut raw: Vec<Scored<T>> = Vec::new();
        let mut scores: Vec<T> = Vec::new();
        for k in 0..n
            invariant
                self.total(),
                ib < u32::MAX,
                n == ib - ia + 1,
                2 * m.jz < usize::MAX,
                m.jz <= i64::MAX,
                raw@.len() == k,
                scores@.len() == k,
                forall|i: int|
                    0 <= i < k ==> self.is_scored(ia + i, *m, #[trigger] raw@[i]),
                forall|i: int| 0 <= i < k ==> #[trigger] scores@[i] == raw@[i].score,
        {
            let s: Scored<T> = self.score_bin(ia + k, m);
            scores.push(s.score);
            raw.push(s);
        }
        let keys: Vec<i64> = self.keys_of(&scores);
        let order: Vec<usize> = strongest_first(keys.as_slice());
        let rank: usize = percentile_rank(n);
        assert(order@[n - 1 - rank] < n);
        let middle: T = raw[order[n - 1 - rank]].score;
        let mut measured: Vec<T> = Vec::new();
        let mut strong: Vec<bool> = Vec::new();
        for k in 0..n
            invariant
                self.total(),
                n == raw@.len(),
                measured@.len() == k,
                strong@.len() == k,
                forall|i: int|
                    0 <= i < k ==> call_ensures(
                        self.over,
                        (raw@[i].score, middle),
                        #[trigger] measured@[i],
                    ),
                forall|i: int|
                    0 <= i < k ==> call_ensures(
                        self.strong,
                        (measured@[i],),
                        #[trigger] strong@[i],
                    ),
        {
            let v: T = (self.over)(raw[k].score, middle);
            let b: bool = (self.strong)(v);
            measured.push(v);
            strong.push(b);
        }
        let new_keys: Vec<i64> = self.keys_of(&measured);
        let new_order: Vec<usize> = strongest_first(new_keys.as_slice());
        let ghost t = Scan {
            raw: raw@,
            keys: keys@,
            order: order@,
            measured: measured@,
            new_keys: new_keys@,
            new_order: new_order@,
            strong: strong@,
        };
        assert(t.middle() == middle);
        assert(self.scanned(ia as int, ib as int, *m, t));
        let mut list: Vec<(u32, bool)> = Vec::new();
        for k in 0..n
            invariant
                ib < u32::MAX,
                n == ib - ia + 1,
                t.raw == raw@,
                t.strong == strong@,
                t.new_order == new_order@,
                raw@.len() == n,
                strong@.len() == n,
                self.scanned(ia as int, ib as int, *m, t),
                list@ == t.list().take(k as int),
        {
            let at: usize = new_order[k];
            assert(at < n);
            assert(self.is_scored(ia + at, *m, raw@[at as int]));
            list.push((raw[at].bin as u32, strong[at]));
            assert(list@ =~= t.list().take(k + 1));
        }
        assert(list@ =~= t.list());
        let picks: Vec<usize> = select_candidates(list.as_slice(), NMAXCAND, m);
        let mut out: Vec<Scored<T>> = Vec::new();
        let ghost want = t.chosen(*m);
        proof {
            lemma_choice_inside(t.list(), Seq::empty(), 0, NMAXCAND as int, *m);
        }
        for i in 0..picks.len()
            invariant
                t.raw == raw@,
                t.measured == measured@,
                t.new_order == new_order@,
                raw@.len() == n,
                measured@.len() == n,
                new_order@.len() == n,
                forall|k: int| 0 <= k < n ==> #[trigger] new_order@[k] < n,
                t.list().len() == n,
                want == t.chosen(*m),
                places(picks@) == choice(t.list(), Seq::empty(), 0, NMAXCAND as int, *m),
                forall|k: int|
                    0 <= k < places(picks@).len() ==> 0 <= #[trigger] places(picks@)[k] < n,
                out@ == want.take(i as int),
        {
            assert(places(picks@)[i as int] == picks@[i as int]);
            let at: usize = new_order[picks[i]];
            out.push(Scored { bin: raw[at].bin, offset: raw[at].offset, score: measured[at] });
            assert(out@ =~= want.take(i + 1));
        }
        assert(out@ =~= want);
        out
    }
}

proof fn lemma_choice_inside(
    list: Seq<(u32, bool)>,
    chosen: Seq<int>,
    k: int,
    max: int,
    m: Mode,
)
    requires
        0 <= k,
        forall|i: int| 0 <= i < chosen.len() ==> 0 <= #[trigger] chosen[i] < list.len(),
    ensures
        forall|i: int|
            0 <= i < choice(list, chosen, k, max, m).len() ==> 0 <= #[trigger] choice(
                list,
                chosen,
                k,
                max,
                m,
            )[i] < list.len(),
    decreases list.len() - k,
{
    let all = choice(list, chosen, k, max, m);
    if k >= list.len() || chosen.len() >= max {
        assert(all == chosen);
    } else if taken(list, chosen, k, m) {
        lemma_choice_inside(list, chosen, k + 1, max, m);
        assert(all == choice(list, chosen, k + 1, max, m));
    } else if !list[k].1 {
        assert(all == chosen);
    } else {
        lemma_choice_inside(list, chosen.push(k), k + 1, max, m);
        assert(all == choice(list, chosen.push(k), k + 1, max, m));
    }
}

/// What the scores are measured against: of three and more scores, one that is followed in the order
/// of strength by as many others as make two fifths of all, and these are no stronger than it.
pub proof fn law_middle<T>(t: Scan<T>, n: int)
    requires
        n >= 3,
        t.raw.len() == n,
        t.keys.len() == n,
        by_strength(t.keys, t.order),
    ensures
        exists|p: int|
            0 <= p < n && 10 * (n - 1 - p) <= 4 * n < 10 * (n - p) && t.middle() == t.raw[
            #[trigger] t.order[p] as int].score && forall|k: int|
                p < k < n ==> t.keys[#[trigger] t.order[k] as int] <= t.keys[t.order[p] as int],
{
    let p = n - 1 - n * 4 / 10;
    assert(t.middle() == t.raw[t.order[p] as int].score);
    assert forall|k: int| p < k < n implies t.keys[#[trigger] t.order[k] as int]
        <= t.keys[t.order[p] as int] by {
        assert(crate::js8::search::before(t.keys, t.order[p] as int, t.order[k] as int));
    }
}

} // verus!

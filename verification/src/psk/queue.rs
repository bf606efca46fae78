//! The queue of pending spots, and the suppression of repeated ones.
use crate::psk::clock::Clock;
use crate::psk::wire::Spot;
use crate::text;
use std::collections::VecDeque;
use vstd::prelude::*;
use vstd::utf8;

verus! {

/// What `str::to_uppercase` makes of a text.
pub uninterp spec fn uppercased(s: Seq<char>) -> Seq<char>;

/// `str::to_uppercase` of the standard library: the text in upper case by Unicode's rules. Whether
/// an ASCII letter of the text is small or capital makes no difference to the result. In a text of
/// ASCII characters the letters `a` to `z` become `A` to `Z` and nothing else changes.
#[verifier::external_body]
fn uppercase(s: &str) -> (r: String)
    ensures
        r@ == uppercased(s@),
        r@ == uppercased(text::upper(s@)),
        utf8::is_ascii_chars(s@) ==> r@ == text::upper(s@),
{
    s.to_uppercase()
}

/// The amateur band of a frequency, as an index.
pub open spec fn band(f: u32) -> u32 {
    if f < 3_500_000 {
        0
    } else if f < 5_000_000 {
        1
    } else if f < 7_000_000 {
        2
    } else if f < 10_000_000 {
        3
    } else if f < 14_000_000 {
        4
    } else if f < 18_000_000 {
        5
    } else if f < 21_000_000 {
        6
    } else if f < 24_000_000 {
        7
    } else if f < 28_000_000 {
        8
    } else if f < 29_700_000 {
        9
    } else if f < 54_000_000 {
        10
    } else if f < 90_000_000 {
        11
    } else if f < 144_000_000 {
        12
    } else if f < 174_000_000 {
        13
    } else {
        14
    }
}

/// The amateur band of a frequency, as an index.
pub fn band_of(freq_hz: u32) -> (r: u32)
    ensures
        r == band(freq_hz),
{
    if freq_hz < 3_500_000 {
        0
    } else if freq_hz < 5_000_000 {
        1
    } else if freq_hz < 7_000_000 {
        2
    } else if freq_hz < 10_000_000 {
        3
    } else if freq_hz < 14_000_000 {
        4
    } else if freq_hz < 18_000_000 {
        5
    } else if freq_hz < 21_000_000 {
        6
    } else if freq_hz < 24_000_000 {
        7
    } else if freq_hz < 28_000_000 {
        8
    } else if freq_hz < 29_700_000 {
        9
    } else if freq_hz < 54_000_000 {
        10
    } else if freq_hz < 90_000_000 {
        11
    } else if freq_hz < 144_000_000 {
        12
    } else if freq_hz < 174_000_000 {
        13
    } else {
        14
    }
}

/// The rules of a reporter.
#[derive(Debug, Clone, Copy)]
pub struct PskCfg {
    /// How long a callsign is suppressed on a band, in seconds.
    pub dedup_ttl_secs: u32,
    /// The age over which remembered callsigns are forgotten, in seconds.
    pub cache_prune_secs: u32,
    /// How many spots may be pending.
    pub max_pending: usize,
    /// Where the time comes from.
    pub clock: Clock,
}

impl Default for PskCfg {
    fn default() -> (r: PskCfg)
        ensures
            r == (PskCfg {
                dedup_ttl_secs: 300,
                cache_prune_secs: 600,
                max_pending: 2048,
                clock: Clock::Real,
            }),
    {
        PskCfg {
            dedup_ttl_secs: 300,
            cache_prune_secs: 600,
            max_pending: 2048,
            clock: Clock::Real,
        }
    }
}

/// A callsign on a band, and when it was last taken.
#[derive(Debug)]
struct Seen {
    call: String,
    band: u32,
    at: u32,
}

/// A callsign in upper case, and a band.
pub type Key = (Seq<char>, u32);

spec fn key_of(e: Seen) -> Key {
    (e.call@, e.band)
}

spec fn holds(entries: Seq<Seen>, k: Key, i: int) -> bool {
    0 <= i < entries.len() && key_of(entries[i]) == k
}

spec fn distinct(entries: Seq<Seen>) -> bool {
    forall|i: int, j: int|
        0 <= i < j < entries.len() ==> key_of(#[trigger] entries[i]) != key_of(
            #[trigger] entries[j],
        )
}

spec fn as_map(entries: Seq<Seen>) -> Map<Key, u32> {
    Map::new(
        |k: Key| exists|i: int| holds(entries, k, i),
        |k: Key| entries[choose|i: int| holds(entries, k, i)].at,
    )
}

proof fn lemma_as_map(entries: Seq<Seen>, i: int)
    requires
        distinct(entries),
        0 <= i < entries.len(),
    ensures
        as_map(entries).contains_key(key_of(entries[i])),
        as_map(entries)[key_of(entries[i])] == entries[i].at,
{
    let k = key_of(entries[i]);
    assert(holds(entries, k, i));
    let j = choose|j: int| holds(entries, k, j);
    assert(holds(entries, k, j));
}

/// How far `ts` lies before `now`; 0 when it lies behind.
pub open spec fn age(now: u32, ts: u32) -> int {
    if now >= ts {
        now - ts
    } else {
        0
    }
}

/// A reporter: its rules, when each callsign was last taken on each band, and the pending spots.
#[verifier::ext_equal]
pub struct ReporterState {
    pub cfg: PskCfg,
    pub seen: Map<Key, u32>,
    pub queue: Seq<Spot>,
}

/// The key of a spot: its callsign in upper case, whatever the case of its ASCII letters, and its
/// band.
pub open spec fn key(spot: Spot) -> Key {
    (uppercased(text::upper(spot.caller@)), band(spot.freq_hz))
}

/// Whether a spot is suppressed: below 49 MHz, when its callsign was taken on its band less than
/// the suppression time ago.
pub open spec fn suppressed(s: ReporterState, spot: Spot, now: u32) -> bool {
    spot.freq_hz < 49_000_000 && s.seen.contains_key(key(spot)) && age(now, s.seen[key(spot)])
        < s.cfg.dedup_ttl_secs
}

/// What is remembered once a spot was taken: also that spot, and nothing that is too old.
pub open spec fn remembered(seen: Map<Key, u32>, k: Key, now: u32, prune: u32) -> Map<Key, u32> {
    Map::new(
        |q: Key| seen.insert(k, now).contains_key(q) && age(now, seen.insert(k, now)[q]) <= prune,
        |q: Key| seen.insert(k, now)[q],
    )
}

/// The last `max` spots.
pub open spec fn capped(q: Seq<Spot>, max: int) -> Seq<Spot> {
    if q.len() > max {
        q.skip(q.len() - max)
    } else {
        q
    }
}

/// The reporter after a spot came in at a given time.
pub open spec fn after_add(s: ReporterState, spot: Spot, now: u32) -> ReporterState {
    if suppressed(s, spot, now) {
        s
    } else {
        ReporterState {
            cfg: s.cfg,
            seen: remembered(s.seen, key(spot), now, s.cfg.cache_prune_secs),
            queue: capped(s.queue.push(spot), s.cfg.max_pending as int),
        }
    }
}

/// What `add` answers: whether the spot was taken and no other one dropped for it.
pub open spec fn add_result(s: ReporterState, spot: Spot, now: u32) -> bool {
    !suppressed(s, spot, now) && s.queue.len() < s.cfg.max_pending
}

/// Pending spots in the order of their arrival, without repetitions.
///
/// A callsign is suppressed on each band by itself: the same station on another band is reported
/// too. Upper and lower case of the callsign are not told apart. At 49 MHz and above nothing is
/// suppressed. When more spots are pending than allowed, the oldest ones are dropped.
#[derive(Debug)]
pub struct PskReporter {
    cfg: PskCfg,
    cache: Vec<Seen>,
    queue: VecDeque<Spot>,
}

impl View for PskReporter {
    type V = ReporterState;

    closed spec fn view(&self) -> ReporterState {
        ReporterState { cfg: self.cfg, seen: as_map(self.cache@), queue: self.queue@ }
    }
}

impl PskReporter {
    /// No key is remembered twice.
    pub closed spec fn wf(&self) -> bool {
        distinct(self.cache@)
    }

    /// A reporter without spots.
    pub fn new(cfg: PskCfg) -> (r: PskReporter)
        ensures
            r.wf(),
            r@ == (ReporterState { cfg, seen: Map::empty(), queue: Seq::empty() }),
    {
        let r: PskReporter = PskReporter { cfg, cache: Vec::new(), queue: VecDeque::new() };
        assert(r@.seen =~= Map::empty());
        r
    }

    /// When a callsign was last taken on a band.
    fn last_seen(&self, call: &String, band: u32) -> (r: Option<u32>)
        requires
            self.wf(),
        ensures
            r is Some <==> self@.seen.contains_key((call@, band)),
            r matches Some(t) ==> self@.seen[(call@, band)] == t,
    {
        for i in 0..self.cache.len()
            invariant
                self.wf(),
                forall|k: int| 0 <= k < i ==> !holds(self.cache@, (call@, band), k),
        {
            if self.cache[i].band == band && self.cache[i].call == *call {
                proof {
                    lemma_as_map(self.cache@, i as int);
                }
                return Some(self.cache[i].at);
            }
        }
        None
    }

    /// Remembers a callsign on a band and forgets what is too old.
    fn remember(&mut self, call: String, band: u32, now: u32)
        requires
            old(self).wf(),
        ensures
            final(self).wf(),
            final(self)@ == (ReporterState {
                seen: remembered(
                    old(self)@.seen,
                    (call@, band),
                    now,
                    old(self)@.cfg.cache_prune_secs,
                ),
                ..old(self)@
            }),
    {
        let mut kept: Vec<Seen> = Vec::new();
        let mut cache: Vec<Seen> = Vec::new();
        std::mem::swap(&mut cache, &mut self.cache);
        let ghost was = cache@;
        let ghost k = (call@, band);
        let ghost prune = self.cfg.cache_prune_secs;
        while cache.len() > 0
            invariant
                distinct(was),
                self.cfg == old(self).cfg,
                self.queue@ == old(self).queue@,
                prune == self.cfg.cache_prune_secs,
                k == (call@, band),
                cache@ == was.take(cache@.len() as int),
                cache@.len() <= was.len(),
                distinct(kept@),
                forall|i: int|
                    0 <= i < kept@.len() ==> key_of(#[trigger] kept@[i]) != k && age(
                        now,
                        kept@[i].at,
                    ) <= prune && exists|j: int|
                        cache@.len() <= j < was.len() && #[trigger] was[j] == kept@[i],
                forall|j: int|
                    cache@.len() <= j < was.len() && key_of(#[trigger] was[j]) != k && age(
                        now,
                        was[j].at,
                    ) <= prune ==> kept@.contains(was[j]),
            decreases cache@.len(),
        {
            let ghost n = cache@.len() - 1;
            let ghost kept0 = kept@;
            match cache.pop() {
                Some(e) => {
                    assert(e == was[n]);
                    let same: bool = e.band == band && e.call == call;
                    if !same && now.saturating_sub(e.at) <= self.cfg.cache_prune_secs {
                        kept.push(e);
                        proof {
                            assert forall|i: int, j: int|
                                0 <= i < j < kept@.len() implies key_of(#[trigger] kept@[i])
                                != key_of(#[trigger] kept@[j]) by {
                                if j == kept0.len() {
                                    assert(kept@[i] == kept0[i]);
                                }
                            }
                            assert forall|j: int|
                                n <= j < was.len() && key_of(#[trigger] was[j]) != k && age(
                                    now,
                                    was[j].at,
                                ) <= prune implies kept@.contains(was[j]) by {
                                if j == n {
                                    assert(kept@[kept0.len() as int] == was[j]);
                                } else {
                                    assert(kept0.contains(was[j]));
                                    let x = choose|x: int|
                                        0 <= x < kept0.len() && kept0[x] == was[j];
                                    assert(kept@[x] == was[j]);
                                }
                            }
                        }
                    }
                },
                None => {},
            }
        }
        let ghost kept1 = kept@;
        kept.push(Seen { call, band, at: now });
        let ghost fin = kept@;
        self.cache = kept;
        proof {
            assert(distinct(fin)) by {
                assert forall|i: int, j: int| 0 <= i < j < fin.len() implies key_of(
                    #[trigger] fin[i],
                ) != key_of(#[trigger] fin[j]) by {
                    assert(fin[i] == kept1[i]);
                    if j < kept1.len() {
                        assert(fin[j] == kept1[j]);
                    }
                }
            }
            let old_map = as_map(was);
            let want = remembered(old_map, k, now, prune);
            let got = as_map(fin);
            assert forall|q: Key| #[trigger] got.dom().contains(q) implies want.contains_key(q) && want[q]
                == got[q] by {
                let i = choose|i: int| holds(fin, q, i);
                assert(holds(fin, q, i));
                lemma_as_map(fin, i);
                if i < kept1.len() {
                    assert(fin[i] == kept1[i]);
                    let j = choose|j: int| 0 <= j < was.len() && #[trigger] was[j] == kept1[i];
                    lemma_as_map(was, j);
                }
            }
            assert forall|q: Key| #[trigger] want.dom().contains(q) implies got.contains_key(q) by {
                if q == k {
                    assert(holds(fin, q, kept1.len() as int));
                } else {
                    let j = choose|j: int| holds(was, q, j);
                    assert(holds(was, q, j));
                    lemma_as_map(was, j);
                    assert(kept1.contains(was[j]));
                    let x = choose|x: int| 0 <= x < kept1.len() && kept1[x] == was[j];
                    assert(holds(fin, q, x));
                }
            }
            assert(got.dom() =~= want.dom());
            assert(got =~= want);
        }
    }

    /// Takes a spot at a given time.
    pub fn add_at(&mut self, spot: Spot, now: u32) -> (r: bool)
        requires
            old(self).wf(),
        ensures
            final(self).wf(),
            final(self)@ == after_add(old(self)@, spot, now),
            r == add_result(old(self)@, spot, now),
            utf8::is_ascii_chars(spot.caller@) ==> key(spot).0 == text::upper(spot.caller@),
    {
        let call: String = uppercase(spot.caller.as_str());
        let b: u32 = band_of(spot.freq_hz);
        if spot.freq_hz < 49_000_000 {
            if let Some(last) = self.last_seen(&call, b) {
                if now.saturating_sub(last) < self.cfg.dedup_ttl_secs {
                    return false;
                }
            }
        }
        self.remember(call, b, now);
        self.queue.push_back(spot);
        let ghost full = self.queue@;
        let ok: bool = self.queue.len() <= self.cfg.max_pending;
        while self.queue.len() > self.cfg.max_pending
            invariant
                self.queue@.len() <= full.len(),
                self.queue@ == full.skip(full.len() - self.queue@.len()),
                self.queue@.len() >= capped(full, self.cfg.max_pending as int).len(),
                self.cfg == old(self).cfg,
                self@.seen == after_add(old(self)@, spot, now).seen,
                self.wf(),
            decreases self.queue@.len(),
        {
            let _ = self.queue.pop_front();
        }
        assert(self.queue@ =~= capped(full, self.cfg.max_pending as int));
        ok
    }

    /// Takes a spot now. `true` when it is pending and nothing was dropped for it; `false` when it
    /// was suppressed, or when the oldest pending spot had to go.
    pub fn add(&mut self, spot: Spot) -> (r: bool)
        requires
            old(self).wf(),
        ensures
            final(self).wf(),
            exists|now: u32|
                (old(self)@.cfg.clock matches Clock::Fixed(t) ==> now == t) && final(self)@
                    == #[trigger] after_add(old(self)@, spot, now) && r == add_result(
                    old(self)@,
                    spot,
                    now,
                ),
            utf8::is_ascii_chars(spot.caller@) ==> key(spot).0 == text::upper(spot.caller@),
    {
        let now: u32 = self.cfg.clock.now();
        self.add_at(spot, now)
    }

    /// The pending spots, oldest first.
    pub fn pending(&self) -> (r: &VecDeque<Spot>)
        ensures
            r@ == self@.queue,
    {
        &self.queue
    }

    /// Takes all pending spots out. Their callsigns stay remembered.
    pub fn drain(&mut self) -> (r: Vec<Spot>)
        requires
            old(self).wf(),
        ensures
            final(self).wf(),
            r@ == old(self)@.queue,
            final(self)@ == (ReporterState { queue: Seq::empty(), ..old(self)@ }),
    {
        let mut out: Vec<Spot> = Vec::new();
        let ghost all = self.queue@;
        while self.queue.len() > 0
            invariant
                out@ + self.queue@ == all,
                self.cfg == old(self).cfg,
                self.cache@ == old(self).cache@,
            decreases self.queue@.len(),
        {
            let ghost o = out@;
            let ghost q = self.queue@;
            if let Some(s) = self.queue.pop_front() {
                out.push(s);
                assert(o + q =~= out@ + self.queue@);
            }
        }
        assert(out@ =~= all);
        assert(self.queue@ =~= Seq::empty());
        out
    }

    /// How many spots are pending.
    pub fn len(&self) -> (r: usize)
        ensures
            r == self@.queue.len(),
    {
        self.queue.len()
    }

    /// Whether no spot is pending.
    pub fn is_empty(&self) -> (r: bool)
        ensures
            r == (self@.queue.len() == 0),
    {
        self.queue.len() == 0
    }

    /// Sets where the time comes from.
    pub fn set_clock(&mut self, clock: Clock)
        requires
            old(self).wf(),
        ensures
            final(self).wf(),
            final(self)@ == (ReporterState {
                cfg: PskCfg { clock, ..old(self)@.cfg },
                ..old(self)@
            }),
    {
        self.cfg.clock = clock;
    }
}

// ---- laws ----

/// A spot that was taken suppresses any with its key, below 49 MHz, until the suppression time is
/// over, and not longer.
pub proof fn law_repetition(s: ReporterState, a: Spot, b: Spot, t1: u32, t2: u32)
    requires
        !suppressed(s, a, t1),
        key(a) == key(b),
    ensures
        suppressed(after_add(s, a, t1), b, t2) == (b.freq_hz < 49_000_000 && age(t2, t1)
            < s.cfg.dedup_ttl_secs),
{
}

/// A suppressed spot changes nothing and is answered `false`.
pub proof fn law_suppressed_changes_nothing(s: ReporterState, spot: Spot, now: u32)
    requires
        suppressed(s, spot, now),
    ensures
        after_add(s, spot, now) == s,
        !add_result(s, spot, now),
{
}

/// A spot with one key never suppresses one with another: another callsign, or the same one on
/// another band.
pub proof fn law_other_key(s: ReporterState, a: Spot, b: Spot, t1: u32, t2: u32)
    requires
        key(a) != key(b),
        !suppressed(s, b, t2),
    ensures
        !suppressed(after_add(s, a, t1), b, t2),
{
}

/// A suppressed callsign stays suppressed while other spots come in, as long as its own entry is
/// not old enough to be forgotten.
pub proof fn law_stays_suppressed(s: ReporterState, a: Spot, b: Spot, t1: u32, t2: u32)
    requires
        suppressed(s, b, t2),
        key(a) != key(b),
        age(t1, s.seen[key(b)]) <= s.cfg.cache_prune_secs,
    ensures
        suppressed(after_add(s, a, t1), b, t2),
{
}

/// At 49 MHz and above every spot is taken.
pub proof fn law_vhf_exempt(s: ReporterState, spot: Spot, now: u32)
    requires
        spot.freq_hz >= 49_000_000,
    ensures
        !suppressed(s, spot, now),
        s.cfg.max_pending > 0 ==> after_add(s, spot, now).queue.last() == spot,
{
}

/// Callsigns that differ in the case of ASCII letters alone have the same key on a band.
pub proof fn law_case_blind(a: Spot, b: Spot)
    requires
        text::upper(a.caller@) == text::upper(b.caller@),
        band(a.freq_hz) == band(b.freq_hz),
    ensures
        key(a) == key(b),
{
}

/// A spot that repeats the one just taken, on the same band and with the same callsign but for the
/// case of ASCII letters, is taken at 49 MHz and above, or once the suppression time is over; then
/// it is pending behind the others. Otherwise it changes nothing.
pub proof fn law_repeat(s: ReporterState, a: Spot, b: Spot, t1: u32, t2: u32)
    requires
        !suppressed(s, a, t1),
        t1 <= t2,
        text::upper(a.caller@) == text::upper(b.caller@),
        band(a.freq_hz) == band(b.freq_hz),
        after_add(s, a, t1).queue.len() < s.cfg.max_pending,
    ensures
        ({
            let first = after_add(s, a, t1);
            let again = b.freq_hz >= 49_000_000 || t2 - t1 >= s.cfg.dedup_ttl_secs;
            &&& add_result(first, b, t2) == again
            &&& after_add(first, b, t2).queue == if again {
                first.queue.push(b)
            } else {
                first.queue
            }
        }),
{
    law_case_blind(a, b);
    law_repetition(s, a, b, t1, t2);
}

/// 1 from an edge on, 0 below it.
pub open spec fn reaches(f: u32, edge: u32) -> int {
    if f < edge {
        0
    } else {
        1
    }
}

/// The bands lie between edges: the index of a band counts the edges up to a frequency.
pub proof fn law_band_counts_edges(f: u32)
    ensures
        band(f) == reaches(f, 3_500_000) + reaches(f, 5_000_000) + reaches(f, 7_000_000) + reaches(
            f,
            10_000_000,
        ) + reaches(f, 14_000_000) + reaches(f, 18_000_000) + reaches(f, 21_000_000) + reaches(
            f,
            24_000_000,
        ) + reaches(f, 28_000_000) + reaches(f, 29_700_000) + reaches(f, 54_000_000) + reaches(
            f,
            90_000_000,
        ) + reaches(f, 144_000_000) + reaches(f, 174_000_000),
{
}

/// A spot whose callsign was last taken on its band longer ago than entries are kept is forgotten
/// once another spot is taken.
pub proof fn law_forgotten(s: ReporterState, a: Spot, b: Spot, t1: u32, t2: u32)
    requires
        !suppressed(s, a, t1),
        key(a) != key(b),
        s.seen.contains_key(key(b)),
    ensures
        after_add(s, a, t1).seen.contains_key(key(b)) == (age(t1, s.seen[key(b)])
            <= s.cfg.cache_prune_secs),
        age(t1, s.seen[key(b)]) > s.cfg.cache_prune_secs ==> !suppressed(
            after_add(s, a, t1),
            b,
            t2,
        ),
{
}

/// A spot is answered with `true` exactly when it now stands behind all that were pending, and none
/// of them was dropped for it.
pub proof fn law_answer(s: ReporterState, spot: Spot, now: u32)
    requires
        s.queue.len() <= s.cfg.max_pending,
    ensures
        add_result(s, spot, now) <==> after_add(s, spot, now).queue == s.queue.push(spot),
{
    let q = after_add(s, spot, now).queue;
    assert(s.queue.push(spot).len() == s.queue.len() + 1);
    law_queue_bounded(s, spot, now);
}

/// Draining the queue leaves every suppression as it was.
pub proof fn law_drain_keeps_suppression(s: ReporterState, spot: Spot, now: u32)
    ensures
        suppressed(ReporterState { queue: Seq::empty(), ..s }, spot, now) == suppressed(
            s,
            spot,
            now,
        ),
{
}

/// No more spots are pending than allowed, in the order of their arrival, and the newest one is
/// always among them.
pub proof fn law_queue_bounded(s: ReporterState, spot: Spot, now: u32)
    requires
        s.queue.len() <= s.cfg.max_pending,
    ensures
        ({
            let q = after_add(s, spot, now).queue;
            &&& q.len() <= s.cfg.max_pending
            &&& !suppressed(s, spot, now) && s.queue.len() < s.cfg.max_pending ==> q
                == s.queue.push(spot)
            &&& !suppressed(s, spot, now) && s.queue.len() == s.cfg.max_pending > 0 ==> q
                == s.queue.drop_first().push(spot)
        }),
{
    let q = after_add(s, spot, now).queue;
    if !suppressed(s, spot, now) && s.queue.len() == s.cfg.max_pending && s.queue.len() > 0 {
        assert(q =~= s.queue.drop_first().push(spot));
    }
}

} // verus!

//! The dictionary code of the data frames: the code of a word is written in digits of four bits,
//! and the words that were written are read back.
use crate::js8::bits;
use crate::js8::data::{jsc_text, lemma_run, nibble, run_length, run_value, JscMap};
use vstd::prelude::*;

verus! {

/// Bit `i` of a digit of four bits, most significant first.
pub open spec fn digit_bit(d: int, i: int) -> u8 {
    if i == 0 {
        (d / 8 % 2) as u8
    } else if i == 1 {
        (d / 4 % 2) as u8
    } else if i == 2 {
        (d / 2 % 2) as u8
    } else {
        (d % 2) as u8
    }
}

/// The bits of digits.
pub open spec fn digits_bits(ds: Seq<int>) -> Seq<u8> {
    Seq::new(4 * ds.len(), |i: int| digit_bit(ds[i / 4], i % 4))
}

/// How many numbers `k` digits of base 9 write.
pub open spec fn nines(k: nat) -> int
    decreases k,
{
    if k == 0 {
        1
    } else {
        9 * nines((k - 1) as nat)
    }
}

/// The `k` digits that write a number in base 9, most significant first.
pub open spec fn digits9(m: int, k: nat) -> Seq<int>
    decreases k,
{
    if k == 0 {
        Seq::empty()
    } else {
        digits9(m / 9, (k - 1) as nat).push(m % 9)
    }
}

/// The first code of the words that have `k` leading digits.
pub open spec fn first_code(k: nat) -> int {
    if k == 1 {
        7
    } else if k == 2 {
        70
    } else if k == 3 {
        133
    } else if k == 4 {
        196
    } else if k == 5 {
        259
    } else if k == 6 {
        322
    } else if k == 7 {
        385
    } else {
        0
    }
}

/// A word as it is written: how many leading digits it has, and how far behind the first code
/// of such words its code stands.
pub struct Written {
    pub leading: nat,
    pub offset: int,
}

impl Written {
    /// Whether there are enough leading digits, and their number is not too great.
    pub open spec fn is_writable(self) -> bool {
        0 <= self.offset < 7 * nines(self.leading) && self.offset / 7 < 262_144
    }

    /// The digits: those of the seventh part of the offset, from 7 up, and the remainder, below 7.
    pub open spec fn digits(self) -> Seq<int> {
        Seq::new(self.leading, |i: int| digits9(self.offset / 7, self.leading)[i] + 7).push(
            self.offset % 7,
        )
    }

    /// The word in a dictionary.
    pub open spec fn word(self, map: JscMap) -> Option<Seq<char>> {
        map.word(first_code(self.leading) + self.offset)
    }
}

/// The digits of words, one behind another.
pub open spec fn all_digits(ws: Seq<Written>) -> Seq<int>
    decreases ws.len(),
{
    if ws.len() == 0 {
        Seq::empty()
    } else {
        ws[0].digits() + all_digits(ws.skip(1))
    }
}

/// The words as a text. A space stands behind a word when the bit behind its digits is set: that is
/// the first bit of the next word's first digit, and `more` behind the last word.
pub open spec fn spoken(ws: Seq<Written>, map: JscMap, more: bool) -> Seq<char>
    decreases ws.len(),
{
    if ws.len() == 0 {
        Seq::empty()
    } else {
        let spaced = if ws.len() == 1 {
            more
        } else {
            ws[1].digits()[0] >= 8
        };
        ws[0].word(map)->0 + (if spaced {
            seq![' ']
        } else {
            Seq::empty()
        }) + spoken(ws.skip(1), map, more)
    }
}

proof fn lemma_four_bits(b0: u8, b1: u8, b2: u8, b3: u8)
    by (bit_vector)
    requires
        b0 <= 1,
        b1 <= 1,
        b2 <= 1,
        b3 <= 1,
    ensures
        ((((((((0u8 << 1) | b0) << 1) | b1) << 1) | b2) << 1) | b3) == 8 * b0 + 4 * b1 + 2 * b2
            + b3,
{
}

/// Four bits write the digit whose bits they are.
proof fn lemma_nibble(b: Seq<u8>, m: int, d: int)
    requires
        0 <= d < 16,
        0 <= m,
        4 * m + 4 <= b.len(),
        forall|i: int| 0 <= i < 4 ==> b[4 * m + i] == #[trigger] digit_bit(d, i),
    ensures
        nibble(b, m) == d,
{
    let s = b.subrange(4 * m, 4 * m + 4);
    assert(s[0] == b[4 * m + 0] && s[1] == b[4 * m + 1] && s[2] == b[4 * m + 2] && s[3] == b[4 * m
        + 3]);
    assert(s[0] == digit_bit(d, 0) && s[1] == digit_bit(d, 1) && s[2] == digit_bit(d, 2) && s[3]
        == digit_bit(d, 3));
    lemma_four_bits(s[0], s[1], s[2], s[3]);
    assert(bits::shifted8(s) == ((((((((0u8 << 1) | s[0]) << 1) | s[1]) << 1) | s[2]) << 1)
        | s[3])) by {
        reveal_with_fuel(bits::shifted8, 5);
        let s3 = s.drop_last();
        let s2 = s3.drop_last();
        let s1 = s2.drop_last();
        assert(s1.drop_last().len() == 0);
    }
}

/// Whether the digits of a run of bits are given ones.
spec fn reads(b: Seq<u8>, ds: Seq<int>) -> bool {
    &&& b.len() / 4 == ds.len()
    &&& forall|m: int| 0 <= m < ds.len() ==> #[trigger] nibble(b, m) == ds[m]
}

/// Whether the first bit of the digit at place `m` is there and set.
spec fn is_marked(b: Seq<u8>, m: int) -> bool {
    4 * m < b.len() && b[4 * m] == 1
}

/// Whether the next bit behind the first `m` digits is set.
spec fn has_mark(ds: Seq<int>, tail: Seq<u8>, m: int) -> bool {
    if m < ds.len() {
        ds[m] >= 8
    } else {
        tail.len() > 0 && tail[0] == 1
    }
}

/// Digits are read from their bits.
proof fn lemma_reads(ds: Seq<int>, tail: Seq<u8>)
    requires
        forall|i: int| 0 <= i < ds.len() ==> 0 <= #[trigger] ds[i] < 16,
        tail.len() < 4,
    ensures
        reads(digits_bits(ds) + tail, ds),
{
    let b = digits_bits(ds) + tail;
    assert forall|m: int| 0 <= m < ds.len() implies #[trigger] nibble(b, m) == ds[m] by {
        assert forall|i: int| 0 <= i < 4 implies b[4 * m + i] == #[trigger] digit_bit(ds[m], i) by {
            assert((4 * m + i) / 4 == m && (4 * m + i) % 4 == i);
        }
        lemma_nibble(b, m, ds[m]);
    }
}

proof fn lemma_marked(ds: Seq<int>, tail: Seq<u8>, m: int)
    requires
        0 <= m <= ds.len(),
        m < ds.len() ==> 0 <= ds[m] < 16,
    ensures
        is_marked(digits_bits(ds) + tail, m) == has_mark(ds, tail, m),
{
    assert((4 * m) / 4 == m && (4 * m) % 4 == 0);
}

proof fn lemma_digits9(m: int, k: nat)
    requires
        0 <= m,
    ensures
        digits9(m, k).len() == k,
        forall|i: int| 0 <= i < k ==> 0 <= #[trigger] digits9(m, k)[i] < 9,
    decreases k,
{
    if k > 0 {
        lemma_digits9(m / 9, (k - 1) as nat);
    }
}

/// Leading digits write the number that they were made from.
proof fn lemma_run_digits(b: Seq<u8>, start: int, m: int, k: nat)
    requires
        0 <= m < nines(k),
        forall|i: int| 0 <= i < k ==> #[trigger] nibble(b, start + i) == digits9(m, k)[i] + 7,
    ensures
        run_value(b, start, k) == m,
    decreases k,
{
    if k > 0 {
        lemma_digits9(m / 9, (k - 1) as nat);
        assert forall|i: int| 0 <= i < k - 1 implies #[trigger] nibble(b, start + i) == digits9(
            m / 9,
            (k - 1) as nat,
        )[i] + 7 by {
            assert(digits9(m, k)[i] == digits9(m / 9, (k - 1) as nat)[i]);
        }
        lemma_run_digits(b, start, m / 9, (k - 1) as nat);
        assert(nibble(b, start + (k - 1)) == digits9(m, k)[k - 1] + 7);
        assert(digits9(m, k)[k - 1] == m % 9);
    }
}

proof fn lemma_word_digits(w: Written)
    requires
        0 <= w.offset,
    ensures
        w.digits().len() == w.leading + 1,
        forall|i: int| 0 <= i < w.leading ==> 7 <= #[trigger] w.digits()[i] < 16,
        0 <= w.digits()[w.leading as int] < 7,
{
    lemma_digits9(w.offset / 7, w.leading);
}

proof fn lemma_all_digits(ws: Seq<Written>)
    requires
        forall|i: int| 0 <= i < ws.len() ==> 0 <= (#[trigger] ws[i]).offset,
    ensures
        forall|i: int| 0 <= i < all_digits(ws).len() ==> 0 <= #[trigger] all_digits(ws)[i] < 16,
    decreases ws.len(),
{
    if ws.len() > 0 {
        let rest = ws.skip(1);
        assert forall|i: int| 0 <= i < rest.len() implies 0 <= (#[trigger] rest[i]).offset by {
            assert(rest[i] == ws[i + 1]);
        }
        lemma_all_digits(rest);
        lemma_word_digits(ws[0]);
        let ds = all_digits(ws);
        assert forall|i: int| 0 <= i < ds.len() implies 0 <= #[trigger] ds[i] < 16 by {
            if i < ws[0].leading {
                assert(ds[i] == ws[0].digits()[i]);
            } else if i == ws[0].leading {
                assert(ds[i] == ws[0].digits()[i]);
            } else {
                assert(ds[i] == all_digits(rest)[i - ws[0].digits().len()]);
            }
        }
    }
}

/// A word is read where its digits stand.
proof fn lemma_word_read(b: Seq<u8>, start: int, w: Written)
    requires
        0 <= start,
        start + w.leading < b.len() / 4,
        0 <= w.offset < 7 * nines(w.leading),
        forall|i: int| 0 <= i <= w.leading ==> #[trigger] nibble(b, start + i) == w.digits()[i],
    ensures
        run_length(b, start) == w.leading,
        run_value(b, start, w.leading) == w.offset / 7,
        nibble(b, start + w.leading) == w.offset % 7,
{
    lemma_word_digits(w);
    assert forall|i: int| start <= i < start + w.leading implies #[trigger] nibble(b, i) >= 7 by {
        assert(nibble(b, start + (i - start)) == w.digits()[i - start]);
    }
    assert(nibble(b, start + w.leading) == w.digits()[w.leading as int]);
    lemma_run(b, start, w.leading);
    assert forall|i: int| 0 <= i < w.leading implies #[trigger] nibble(b, start + i) == digits9(
        w.offset / 7,
        w.leading,
    )[i] + 7 by {
        assert(w.digits()[i] == digits9(w.offset / 7, w.leading)[i] + 7);
    }
    lemma_run_digits(b, start, w.offset / 7, w.leading);
}

/// One word of a text.
proof fn lemma_word_step(b: Seq<u8>, ds: Seq<int>, start: int, w: Written, map: JscMap)
    requires
        reads(b, ds),
        0 <= start,
        start + w.leading < ds.len(),
        0 <= w.offset < 7 * nines(w.leading),
        forall|i: int| 0 <= i <= w.leading ==> #[trigger] w.digits()[i] == ds[start + i],
    ensures
        w.is_writable() && w.word(map) is Some ==> jsc_text(b, map, start) == w.word(map)->0 + (
        if is_marked(b, start + w.leading + 1) {
            seq![' ']
        } else {
            Seq::empty()
        }) + jsc_text(b, map, start + w.leading + 1),
        !w.is_writable() || w.word(map) is None ==> jsc_text(b, map, start) == Seq::<char>::empty(),
{
    assert forall|i: int| 0 <= i <= w.leading implies #[trigger] nibble(b, start + i)
        == w.digits()[i] by {
        assert(nibble(b, start + i) == ds[start + i]);
    }
    lemma_word_read(b, start, w);
    assert(w.offset / 7 * 7 + w.offset % 7 == w.offset);
    let end = start + w.leading;
    assert(4 * end + 4 == 4 * (end + 1));
}

/// Where the digits of words stand, those of the first word stand, and those of the others behind
/// them.
proof fn lemma_first_word(ds: Seq<int>, start: int, ws: Seq<Written>)
    requires
        ws.len() > 0,
        0 <= ws[0].offset,
        0 <= start,
        start + all_digits(ws).len() <= ds.len(),
        ds.subrange(start, start + all_digits(ws).len()) == all_digits(ws),
    ensures
        all_digits(ws).len() == ws[0].leading + 1 + all_digits(ws.skip(1)).len(),
        forall|i: int| 0 <= i <= ws[0].leading ==> #[trigger] ws[0].digits()[i] == ds[start + i],
        ds.subrange(start + ws[0].leading + 1, start + all_digits(ws).len()) == all_digits(
            ws.skip(1),
        ),
{
    let k = ws[0].leading;
    let own = ws[0].digits();
    let others = all_digits(ws.skip(1));
    let all = all_digits(ws);
    lemma_word_digits(ws[0]);
    assert(all == own + others);
    assert forall|i: int| 0 <= i <= k implies #[trigger] own[i] == ds[start + i] by {
        assert(ds.subrange(start, start + all.len())[i] == all[i]);
    }
    assert forall|i: int| 0 <= i < others.len() implies #[trigger] others[i] == ds[start + k + 1
        + i] by {
        assert(ds.subrange(start, start + all.len())[k + 1 + i] == all[k + 1 + i]);
    }
    assert(ds.subrange(start + k + 1, start + all.len()) =~= others);
}

/// Words are read one behind another, and reading goes on behind them.
proof fn lemma_words_read(
    ds: Seq<int>,
    tail: Seq<u8>,
    start: int,
    ws: Seq<Written>,
    map: JscMap,
    more: bool,
)
    requires
        forall|i: int| 0 <= i < ds.len() ==> 0 <= #[trigger] ds[i] < 16,
        tail.len() < 4,
        0 <= start,
        start + all_digits(ws).len() <= ds.len(),
        ds.subrange(start, start + all_digits(ws).len()) == all_digits(ws),
        forall|i: int|
            0 <= i < ws.len() ==> (#[trigger] ws[i]).is_writable() && ws[i].word(map) is Some,
        more == has_mark(ds, tail, start + all_digits(ws).len()),
    ensures
        jsc_text(digits_bits(ds) + tail, map, start) == spoken(ws, map, more) + jsc_text(
            digits_bits(ds) + tail,
            map,
            start + all_digits(ws).len(),
        ),
    decreases ws.len(),
{
    let b = digits_bits(ds) + tail;
    if ws.len() == 0 {
        assert(spoken(ws, map, more) + jsc_text(b, map, start) =~= jsc_text(b, map, start));
    } else {
        let w = ws[0];
        let rest = ws.skip(1);
        let next = start + w.leading + 1;
        lemma_reads(ds, tail);
        lemma_first_word(ds, start, ws);
        lemma_word_step(b, ds, start, w, map);
        lemma_marked(ds, tail, next);
        assert forall|i: int| 0 <= i < rest.len() implies (#[trigger] rest[i]).is_writable()
            && rest[i].word(map) is Some by {
            assert(rest[i] == ws[i + 1]);
        }
        lemma_words_read(ds, tail, next, rest, map, more);
        let spaced = if ws.len() == 1 {
            more
        } else {
            ws[1].digits()[0] >= 8
        };
        assert(spaced == is_marked(b, next)) by {
            if ws.len() > 1 {
                assert(rest[0] == ws[1]);
                lemma_first_word(ds, next, rest);
                assert(ws[1].digits()[0] == ds[next + 0]);
            }
        }
        let gap = if spaced {
            seq![' ']
        } else {
            Seq::<char>::empty()
        };
        let word = w.word(map)->0;
        let behind = jsc_text(b, map, start + all_digits(ws).len());
        assert(word + gap + (spoken(rest, map, more) + behind) =~= word + gap + spoken(
            rest,
            map,
            more,
        ) + behind);
    }
}

/// Decoding undoes encoding: from the digits of any words of the dictionary, one behind another,
/// the words come back. Fewer than four bits behind them add no word.
pub proof fn law_words_read_back(ws: Seq<Written>, tail: Seq<u8>, map: JscMap)
    requires
        forall|i: int|
            0 <= i < ws.len() ==> (#[trigger] ws[i]).is_writable() && ws[i].word(map) is Some,
        tail.len() < 4,
    ensures
        jsc_text(digits_bits(all_digits(ws)) + tail, map, 0) == spoken(
            ws,
            map,
            tail.len() > 0 && tail[0] == 1,
        ),
{
    let ds = all_digits(ws);
    lemma_all_digits(ws);
    assert(ds.subrange(0, ds.len() as int) =~= ds);
    lemma_words_read(ds, tail, 0, ws, map, tail.len() > 0 && tail[0] == 1);
    let b = digits_bits(ds) + tail;
    assert(jsc_text(b, map, ds.len() as int) =~= Seq::<char>::empty());
    assert(spoken(ws, map, tail.len() > 0 && tail[0] == 1) + Seq::<char>::empty() =~= spoken(
        ws,
        map,
        tail.len() > 0 && tail[0] == 1,
    ));
}

/// The text ends in front of a word that the dictionary lacks, or whose leading digits write
/// 262144 or more, whatever stands behind it.
pub proof fn law_text_ends_at_unknown_word(
    ws: Seq<Written>,
    unknown: Written,
    behind: Seq<int>,
    tail: Seq<u8>,
    map: JscMap,
)
    requires
        forall|i: int|
            0 <= i < ws.len() ==> (#[trigger] ws[i]).is_writable() && ws[i].word(map) is Some,
        0 <= unknown.offset < 7 * nines(unknown.leading),
        unknown.offset / 7 >= 262_144 || unknown.word(map) is None,
        forall|i: int| 0 <= i < behind.len() ==> 0 <= #[trigger] behind[i] < 16,
        tail.len() < 4,
    ensures
        jsc_text(digits_bits(all_digits(ws) + unknown.digits() + behind) + tail, map, 0) == spoken(
            ws,
            map,
            unknown.digits()[0] >= 8,
        ),
{
    let front = all_digits(ws);
    let own = unknown.digits();
    let ds = front + own + behind;
    let start = front.len() as int;
    lemma_all_digits(ws);
    lemma_word_digits(unknown);
    assert forall|i: int| 0 <= i < ds.len() implies 0 <= #[trigger] ds[i] < 16 by {
        if i < start {
            assert(ds[i] == front[i]);
        } else if i < start + unknown.leading {
            assert(ds[i] == own[i - start]);
        } else if i == start + unknown.leading {
            assert(ds[i] == own[i - start]);
        } else {
            assert(ds[i] == behind[i - start - own.len()]);
        }
    }
    assert(ds.subrange(0, start) =~= front);
    assert(ds[start] == own[0]);
    lemma_words_read(ds, tail, 0, ws, map, own[0] >= 8);
    lemma_reads(ds, tail);
    let b = digits_bits(ds) + tail;
    lemma_word_step(b, ds, start, unknown, map);
    assert(jsc_text(b, map, start) =~= Seq::<char>::empty());
    assert(spoken(ws, map, own[0] >= 8) + Seq::<char>::empty() =~= spoken(ws, map, own[0] >= 8));
}

proof fn lemma_run_in_range(b: Seq<u8>, k: nat)
    requires
        forall|i: int| 0 <= i < k ==> 7 <= #[trigger] nibble(b, i) < 16,
    ensures
        0 <= run_value(b, 0, k) < nines(k),
    decreases k,
{
    if k > 0 {
        lemma_run_in_range(b, (k - 1) as nat);
        assert(7 <= nibble(b, 0 + k - 1) < 16);
    }
}

proof fn lemma_runs_distinct(b: Seq<u8>, c: Seq<u8>, k: nat)
    requires
        forall|i: int| 0 <= i < k ==> 7 <= #[trigger] nibble(b, i) < 16,
        forall|i: int| 0 <= i < k ==> 7 <= #[trigger] nibble(c, i) < 16,
        run_value(b, 0, k) == run_value(c, 0, k),
    ensures
        forall|i: int| 0 <= i < k ==> #[trigger] nibble(b, i) == nibble(c, i),
    decreases k,
{
    if k > 0 {
        assert(7 <= nibble(b, 0 + k - 1) < 16);
        assert(7 <= nibble(c, 0 + k - 1) < 16);
        lemma_runs_distinct(b, c, (k - 1) as nat);
    }
}

/// Words with as many leading digits whose digits differ have different codes, and their codes are
/// among the `7 * 9^k` from the first one on.
pub proof fn law_digits_name_one_code(b: Seq<u8>, c: Seq<u8>, k: nat)
    requires
        forall|i: int| 0 <= i < k ==> 7 <= #[trigger] nibble(b, i) < 16,
        forall|i: int| 0 <= i < k ==> 7 <= #[trigger] nibble(c, i) < 16,
        0 <= nibble(b, k as int) < 7,
        0 <= nibble(c, k as int) < 7,
    ensures
        0 <= run_value(b, 0, k) * 7 + nibble(b, k as int) < 7 * nines(k),
        run_value(b, 0, k) * 7 + nibble(b, k as int) == run_value(c, 0, k) * 7 + nibble(
            c,
            k as int,
        ) ==> forall|i: int| 0 <= i <= k ==> #[trigger] nibble(b, i) == nibble(c, i),
{
    lemma_run_in_range(b, k);
    if run_value(b, 0, k) * 7 + nibble(b, k as int) == run_value(c, 0, k) * 7 + nibble(
        c,
        k as int,
    ) {
        lemma_runs_distinct(b, c, k);
    }
}

} // verus!

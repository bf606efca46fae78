//! The numbers of plain callsigns.
use crate::js8::callsign;
use crate::js8::callsign::{packed28, packed50};
use crate::js8::names;
use crate::text;
use vstd::prelude::*;

verus! {

/// Whether a character is a capital letter or a digit.
pub open spec fn is_plain(c: char) -> bool {
    'A' <= c <= 'Z' || '0' <= c <= '9'
}

/// The code of a character: the digits, then the letters, then the space.
pub open spec fn plain_code(c: char) -> int {
    if '0' <= c <= '9' {
        c as int - '0' as int
    } else if 'A' <= c <= 'Z' {
        c as int - 'A' as int + 10
    } else {
        36
    }
}

/// The character at a place of a text, or a space behind its end.
pub open spec fn char_or_space(s: Seq<char>, i: int) -> char {
    if i < s.len() {
        s[i]
    } else {
        ' '
    }
}

/// The code of a suffix letter, or of a missing one.
pub open spec fn suffix_code(s: Seq<char>, i: int) -> int {
    if i < s.len() {
        s[i] as int - 'A' as int
    } else {
        26
    }
}

/// Whether a callsign has the usual form: one or two letters or digits, a digit, and up to three
/// letters.
pub open spec fn is_usual(prefix: Seq<char>, digit: char, suffix: Seq<char>) -> bool {
    &&& 1 <= prefix.len() <= 2
    &&& is_plain(prefix[0])
    &&& prefix.len() == 2 ==> is_plain(prefix[1])
    &&& '0' <= digit <= '9'
    &&& suffix.len() <= 3
    &&& forall|i: int| 0 <= i < suffix.len() ==> 'A' <= #[trigger] suffix[i] <= 'Z'
}

/// A callsign of the usual form has a 28-bit number: the sum of the codes of its six places, each
/// times its weight. A prefix of one character has a space in front.
pub proof fn law_usual_callsign_number(prefix: Seq<char>, digit: char, suffix: Seq<char>)
    requires
        is_usual(prefix, digit, suffix),
    ensures
        packed28(prefix.push(digit) + suffix) == Some(
            (if prefix.len() == 2 {
                plain_code(prefix[0])
            } else {
                36
            }) * 7_085_880 + plain_code(prefix.last()) * 196_830 + plain_code(digit) * 19_683
                + suffix_code(suffix, 0) * 729 + suffix_code(suffix, 1) * 27 + suffix_code(
                suffix,
                2,
            ),
        ),
{
    let s = prefix.push(digit) + suffix;
    let w = callsign::aligned(s, (2 - prefix.len()) as nat);
    lemma_usual_text(prefix, digit, suffix);
    lemma_usual_places(prefix, digit, suffix);
    let (a, b, c) = (suffix_code(suffix, 0), suffix_code(suffix, 1), suffix_code(suffix, 2));
    assert(callsign::code(w[0]) == (if prefix.len() == 2 {
        plain_code(prefix[0])
    } else {
        36
    }));
    assert(callsign::code(w[1]) == plain_code(prefix.last()));
    assert(callsign::code(w[2]) == plain_code(digit));
    assert(callsign::code(w[3]) - 10 == a);
    assert(callsign::code(w[4]) - 10 == b);
    assert(callsign::code(w[5]) - 10 == c);
}

/// The text of a usual callsign is what is laid over the places.
proof fn lemma_usual_text(prefix: Seq<char>, digit: char, suffix: Seq<char>)
    requires
        is_usual(prefix, digit, suffix),
    ensures
        ({
            let s = prefix.push(digit) + suffix;
            &&& callsign::short_call(s) == s
            &&& text::position_from(callsign::BASECALLS@, text::upper(text::trimmed(s)), 0) is None
        }),
{
    let s = prefix.push(digit) + suffix;
    let n = prefix.len() as int;
    assert forall|i: int| 0 <= i < s.len() implies is_plain(#[trigger] s[i]) by {
        if i < n {
            assert(s[i] == prefix[i]);
        } else if i > n {
            assert(s[i] == suffix[i - n - 1]);
        }
    }
    assert(s[n] == digit);
    lemma_plain_text(s);
    assert(!text::starts_with(s, seq!['3', 'D', 'A', '0'])) by {
        if text::starts_with(s, seq!['3', 'D', 'A', '0']) {
            assert(s.take(4)[1] == 'D' && s.take(4)[2] == 'A');
        }
    }
}

/// Where the characters of a usual callsign stand.
proof fn lemma_usual_places(prefix: Seq<char>, digit: char, suffix: Seq<char>)
    requires
        is_usual(prefix, digit, suffix),
    ensures
        ({
            let s = prefix.push(digit) + suffix;
            let w = callsign::aligned(s, (2 - prefix.len()) as nat);
            &&& callsign::placed(s) == Some(w)
            &&& w[0] == (if prefix.len() == 2 {
                prefix[0]
            } else {
                ' '
            })
            &&& w[1] == prefix.last()
            &&& w[2] == digit
            &&& w[3] == char_or_space(suffix, 0)
            &&& w[4] == char_or_space(suffix, 1)
            &&& w[5] == char_or_space(suffix, 2)
        }),
{
    let s = prefix.push(digit) + suffix;
    let n = prefix.len() as int;
    let w = callsign::aligned(s, (2 - n) as nat);
    assert(s[n] == digit);
    assert(suffix.len() > 0 ==> s[n + 1] == suffix[0] && 'A' <= suffix[0] <= 'Z');
    assert(suffix.len() > 1 ==> s[n + 2] == suffix[1] && 'A' <= suffix[1] <= 'Z');
    assert(suffix.len() > 2 ==> s[n + 3] == suffix[2] && 'A' <= suffix[2] <= 'Z');
    if n == 1 {
        assert(callsign::aligned(s, 0)[2] == char_or_space(suffix, 0));
        assert(!callsign::is_call6(callsign::aligned(s, 0)));
    }
}

/// Callsigns with the long prefix `3DA0` have numbers as well: those of `3D0` with the same letters
/// behind it.
pub proof fn law_swazi_number(suffix: Seq<char>)
    requires
        1 <= suffix.len() <= 3,
        forall|i: int| 0 <= i < suffix.len() ==> 'A' <= #[trigger] suffix[i] <= 'Z',
    ensures
        packed28(seq!['3', 'D', '0'] + suffix) is Some,
        packed28(seq!['3', 'D', 'A', '0'] + suffix) == packed28(seq!['3', 'D', '0'] + suffix),
{
    let long = seq!['3', 'D', 'A', '0'] + suffix;
    let short = seq!['3', 'D', '0'] + suffix;
    law_usual_callsign_number(seq!['3', 'D'], '0', suffix);
    lemma_usual_text(seq!['3', 'D'], '0', suffix);
    assert(seq!['3', 'D'].push('0') + suffix =~= short);
    assert forall|i: int| 0 <= i < long.len() implies is_plain(#[trigger] long[i]) by {
        if i >= 4 {
            assert(long[i] == suffix[i - 4]);
        }
    }
    lemma_plain_text(long);
    assert(long.take(4) =~= seq!['3', 'D', 'A', '0']);
    assert(seq!['3', 'D', '0'] + long.skip(4) =~= short);
    assert(callsign::short_call(long) == short);
}

/// Callsigns with the long prefix `3X` in front of a letter have numbers as well: those of `Q` with
/// the same letters and digits behind it.
pub proof fn law_guinea_number(letter: char, digit: char, suffix: Seq<char>)
    requires
        'A' <= letter <= 'Z',
        '0' <= digit <= '9',
        suffix.len() <= 3,
        forall|i: int| 0 <= i < suffix.len() ==> 'A' <= #[trigger] suffix[i] <= 'Z',
    ensures
        packed28(seq!['Q', letter, digit] + suffix) is Some,
        packed28(seq!['3', 'X', letter, digit] + suffix) == packed28(
            seq!['Q', letter, digit] + suffix,
        ),
{
    let long = seq!['3', 'X', letter, digit] + suffix;
    let short = seq!['Q', letter, digit] + suffix;
    law_usual_callsign_number(seq!['Q', letter], digit, suffix);
    lemma_usual_text(seq!['Q', letter], digit, suffix);
    assert(seq!['Q', letter].push(digit) + suffix =~= short);
    assert forall|i: int| 0 <= i < long.len() implies is_plain(#[trigger] long[i]) by {
        if i >= 4 {
            assert(long[i] == suffix[i - 4]);
        }
    }
    lemma_plain_text(long);
    assert(!text::starts_with(long, seq!['3', 'D', 'A', '0'])) by {
        if text::starts_with(long, seq!['3', 'D', 'A', '0']) {
            assert(long.take(4)[1] == 'D');
        }
    }
    assert(seq!['Q'] + long.skip(2) =~= short);
    assert(callsign::short_call(long) == short);
}

proof fn lemma_plain_text(s: Seq<char>)
    requires
        s.len() > 0,
        forall|i: int| 0 <= i < s.len() ==> is_plain(#[trigger] s[i]),
    ensures
        callsign::bare_call(s) == s,
        text::position_from(callsign::BASECALLS@, text::upper(text::trimmed(s)), 0) is None,
{
    text::lemma_trimmed_id(s);
    assert(text::upper(s) =~= s);
    callsign::lemma_unspaced_id(s);
    names::lemma_no_group(s);
    if s.len() > 2 && text::ends_with(s, seq!['/', 'P']) {
        assert(s.skip(s.len() - 2)[0] == '/');
    }
}

proof fn lemma_weights50(w: Seq<char>)
    ensures
        callsign::number50(w) == callsign::code(callsign::slot(w, 0)) * 17_391_168_553_984
            + callsign::code(callsign::slot(w, 1)) * 457_662_330_368 + callsign::code(
            callsign::slot(w, 2),
        ) * 12_043_745_536 + callsign::slash_code(callsign::slot(w, 3)) * 6_021_872_768
            + callsign::code(callsign::slot(w, 4)) * 158_470_336 + callsign::code(
            callsign::slot(w, 5),
        ) * 4_170_272 + callsign::code(callsign::slot(w, 6)) * 109_744 + callsign::slash_code(
            callsign::slot(w, 7),
        ) * 54_872 + callsign::code(callsign::slot(w, 8)) * 1_444 + callsign::code(
            callsign::slot(w, 9),
        ) * 38 + callsign::code(callsign::slot(w, 10)),
{
    reveal(callsign::number50);
}

/// A callsign of up to nine letters and digits over the slots, with `mark` behind its third one.
pub open spec fn slotted(s: Seq<char>, mark: char, i: int) -> char {
    if i < 3 {
        char_or_space(s, i)
    } else if i == 3 {
        mark
    } else if i < 7 {
        char_or_space(s, i - 1)
    } else if i == 7 {
        ' '
    } else {
        char_or_space(s, i - 2)
    }
}

proof fn lemma_slots_plain(s: Seq<char>, i: int)
    requires
        s.len() <= 9,
        forall|i: int| 0 <= i < s.len() ==> is_plain(#[trigger] s[i]),
        0 <= i < 11,
    ensures
        callsign::slot(callsign::spread(s), i) == slotted(s, ' ', i),
{
    let a = callsign::spread_at(s, 3);
    assert(s.len() > 3 ==> is_plain(s[3]));
    if a.len() > 7 {
        assert(a[7] == s[6]);
        assert(is_plain(s[6]));
    }
}

proof fn lemma_slots_slash(s: Seq<char>, i: int)
    requires
        3 <= s.len() <= 9,
        forall|i: int| 0 <= i < s.len() ==> is_plain(#[trigger] s[i]),
        0 <= i < 11,
    ensures
        callsign::slot(callsign::spread(s.insert(3, '/')), i) == slotted(s, '/', i),
{
    let t = s.insert(3, '/');
    assert(t[3] == '/');
    assert(callsign::spread_at(t, 3) == t);
    if t.len() > 7 {
        assert(t[7] == s[6]);
        assert(is_plain(s[6]));
    }
}

/// The number of a callsign over the slots.
pub open spec fn number_of(s: Seq<char>) -> int {
    plain_code(char_or_space(s, 0)) * 17_391_168_553_984 + plain_code(char_or_space(s, 1))
        * 457_662_330_368 + plain_code(char_or_space(s, 2)) * 12_043_745_536 + plain_code(
        char_or_space(s, 3),
    ) * 158_470_336 + plain_code(char_or_space(s, 4)) * 4_170_272 + plain_code(char_or_space(s, 5))
        * 109_744 + plain_code(char_or_space(s, 6)) * 1_444 + plain_code(char_or_space(s, 7)) * 38
        + plain_code(char_or_space(s, 8))
}

proof fn lemma_slotted_number(s: Seq<char>, mark: char, w: Seq<char>)
    requires
        s.len() <= 9,
        forall|i: int| 0 <= i < s.len() ==> is_plain(#[trigger] s[i]),
        forall|i: int| 0 <= i < 11 ==> #[trigger] callsign::slot(w, i) == slotted(s, mark, i),
        mark == ' ' || mark == '/',
    ensures
        callsign::number50(w) == number_of(s) + (if mark == '/' {
            6_021_872_768int
        } else {
            0
        }),
{
    lemma_weights50(w);
    assert forall|i: int| 0 <= i < 9 implies callsign::code(#[trigger] char_or_space(s, i))
        == plain_code(char_or_space(s, i)) by {
        if i < s.len() {
            assert(is_plain(s[i]));
        }
    }
    assert(callsign::slot(w, 0) == char_or_space(s, 0));
    assert(callsign::slot(w, 1) == char_or_space(s, 1));
    assert(callsign::slot(w, 2) == char_or_space(s, 2));
    assert(callsign::slot(w, 3) == mark);
    assert(callsign::slot(w, 4) == char_or_space(s, 3));
    assert(callsign::slot(w, 5) == char_or_space(s, 4));
    assert(callsign::slot(w, 6) == char_or_space(s, 5));
    assert(callsign::slot(w, 7) == ' ');
    assert(callsign::slot(w, 8) == char_or_space(s, 6));
    assert(callsign::slot(w, 9) == char_or_space(s, 7));
    assert(callsign::slot(w, 10) == char_or_space(s, 8));
}

/// A callsign of up to nine letters and digits has a 50-bit number: the sum of the codes of its
/// characters, filled up with spaces, each times its weight.
pub proof fn law_plain_number50(s: Seq<char>)
    requires
        s.len() <= 9,
        forall|i: int| 0 <= i < s.len() ==> is_plain(#[trigger] s[i]),
    ensures
        packed50(s) == number_of(s),
{
    assert(text::upper(s) =~= s);
    callsign::lemma_kept_id(s);
    assert forall|i: int| 0 <= i < 11 implies #[trigger] callsign::slot(callsign::spread(s), i)
        == slotted(s, ' ', i) by {
        lemma_slots_plain(s, i);
    }
    lemma_slotted_number(s, ' ', callsign::spread(s));
}

/// A `/` behind three characters is kept in a bit of its own: it adds its weight and takes no place
/// of another character.
pub proof fn law_slash_number50(s: Seq<char>)
    requires
        3 <= s.len() <= 9,
        forall|i: int| 0 <= i < s.len() ==> is_plain(#[trigger] s[i]),
    ensures
        packed50(s.insert(3, '/')) == number_of(s) + 6_021_872_768,
{
    let t = s.insert(3, '/');
    assert forall|i: int| 0 <= i < t.len() implies is_plain(#[trigger] t[i]) || t[i] == '/' by {
        if i < 3 {
            assert(t[i] == s[i]);
        } else if i > 3 {
            assert(t[i] == s[i - 1]);
        }
    }
    assert(text::upper(t) =~= t);
    callsign::lemma_kept_id(t);
    assert forall|i: int| 0 <= i < 11 implies #[trigger] callsign::slot(callsign::spread(t), i)
        == slotted(s, '/', i) by {
        lemma_slots_slash(s, i);
    }
    lemma_slotted_number(s, '/', callsign::spread(t));
}

/// A group has the number behind all plain callsigns that its place in the table gives.
pub proof fn law_group_number(i: int)
    requires
        0 <= i < 54,
    ensures
        packed28(callsign::BASECALLS[i]@) == Some(262_177_561 + i),
{
    names::law_group_round_trip(i, false);
}

} // verus!

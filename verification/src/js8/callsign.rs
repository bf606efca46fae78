//! Callsigns in frames: the 50-bit form for compound calls and the 28-bit form for plain
//! calls and group names.
use crate::text;
use vstd::prelude::*;

verus! {

/// Callsign alphabet: the digits, the letters, space, `/` and `@`, as ASCII codes. A
/// character's index is its code in both packed forms.
pub const ALPHANUMERIC: [u8; 39] = [
    48,
    49,
    50,
    51,
    52,
    53,
    54,
    55,
    56,
    57,
    65,
    66,
    67,
    68,
    69,
    70,
    71,
    72,
    73,
    74,
    75,
    76,
    77,
    78,
    79,
    80,
    81,
    82,
    83,
    84,
    85,
    86,
    87,
    88,
    89,
    90,
    32,
    47,
    64,
];

/// The place of a character in the alphabet.
pub open spec fn index_of(c: char) -> Option<int> {
    if text::is_digit(c) {
        Some(c as int - '0' as int)
    } else if text::is_capital(c) {
        Some(c as int - 'A' as int + 10)
    } else if c == ' ' {
        Some(36)
    } else if c == '/' {
        Some(37)
    } else if c == '@' {
        Some(38)
    } else {
        None
    }
}

/// The character at a place of the alphabet.
pub open spec fn letter(i: int) -> char {
    if i < 10 {
        ('0' as int + i) as char
    } else if i < 36 {
        ('A' as int + i - 10) as char
    } else if i == 36 {
        ' '
    } else if i == 37 {
        '/'
    } else {
        '@'
    }
}

/// `letter` and `index_of` undo each other.
pub proof fn lemma_letter(i: int)
    requires
        0 <= i < 39,
    ensures
        index_of(letter(i)) == Some(i),
        ALPHANUMERIC[i] as int == letter(i) as int,
{
}

/// Looks a character up in the alphabet.
pub fn an_index(c: char) -> (r: Option<u32>)
    ensures
        r is Some <==> index_of(c) is Some,
        r matches Some(i) ==> i < 39 && index_of(c) == Some(i as int),
{
    if text::digit(c) {
        Some(c as u32 - 48)
    } else if text::capital(c) {
        Some(c as u32 - 55)
    } else if c == ' ' {
        Some(36)
    } else if c == '/' {
        Some(37)
    } else if c == '@' {
        Some(38)
    } else {
        None
    }
}

/// The character at a place of the alphabet.
fn an_char(i: usize) -> (r: char)
    requires
        i < 39,
    ensures
        r == letter(i as int),
{
    proof {
        lemma_letter(i as int);
    }
    ALPHANUMERIC[i] as char
}

// ---- the 50-bit form ----

/// The ASCII white space characters.
pub open spec fn is_ascii_white(c: char) -> bool {
    c == ' ' || c == '\t' || c == '\n' || c == '\r' || c as int == 12
}

/// The characters that the 50-bit form takes in; all others are left out.
pub open spec fn keeps50(c: char) -> bool {
    is_ascii_white(c) || text::is_capital(c) || text::is_digit(c) || c == '/' || c == '@'
}

/// The text in upper case, without the characters that the 50-bit form leaves out.
pub open spec fn kept50(s: Seq<char>) -> Seq<char> {
    text::upper(s).filter(|c: char| keeps50(c))
}

/// Puts a space at place `i` of a word that reaches that far, unless a `/` stands there.
pub open spec fn spread_at(w: Seq<char>, i: int) -> Seq<char> {
    if w.len() > i && w[i] != '/' {
        w.insert(i, ' ')
    } else {
        w
    }
}

/// The word over slots, where the slots 3 and 7 hold a `/` or a space.
pub open spec fn spread(w: Seq<char>) -> Seq<char> {
    spread_at(spread_at(w, 3), 7)
}

/// The character in slot `i` of a word that is filled up with spaces.
pub open spec fn slot(w: Seq<char>, i: int) -> char {
    if i < w.len() {
        w[i]
    } else {
        ' '
    }
}

/// The code of an ordinary slot; a character outside the alphabet counts as the first.
pub open spec fn code(c: char) -> int {
    match index_of(c) {
        Some(i) => i,
        None => 0,
    }
}

/// The code of the slots 3 and 7.
pub open spec fn slash_code(c: char) -> int {
    if c == '/' {
        1
    } else {
        0
    }
}

/// The number of a slotted word: mixed radix 39, 38, 38, 2, 38, 38, 38, 2, 38, 38, 38, most
/// significant slot first.
#[verifier::opaque]
pub open spec fn number50(w: Seq<char>) -> int {
    let a = (code(slot(w, 0)) * 38 + code(slot(w, 1))) * 38 + code(slot(w, 2));
    let b = ((a * 2 + slash_code(slot(w, 3))) * 38 + code(slot(w, 4))) * 38 + code(slot(w, 5));
    let c = ((b * 38 + code(slot(w, 6))) * 2 + slash_code(slot(w, 7))) * 38 + code(slot(w, 8));
    (c * 38 + code(slot(w, 9))) * 38 + code(slot(w, 10))
}

/// The 50-bit number of a callsign text.
pub open spec fn packed50(s: Seq<char>) -> int {
    number50(spread(kept50(s)))
}

/// The eleven slots of a 50-bit number.
#[verifier::opaque]
pub open spec fn slots50(n: int) -> Seq<char> {
    let n9 = n / 38;
    let n8 = n9 / 38;
    let n7 = n8 / 38;
    let n6 = n7 / 2;
    let n5 = n6 / 38;
    let n4 = n5 / 38;
    let n3 = n4 / 38;
    let n2 = n3 / 2;
    let n1 = n2 / 38;
    let n0 = n1 / 38;
    seq![
        letter(n0 % 39),
        letter(n1 % 38),
        letter(n2 % 38),
        if n3 % 2 != 0 {
            '/'
        } else {
            ' '
        },
        letter(n4 % 38),
        letter(n5 % 38),
        letter(n6 % 38),
        if n7 % 2 != 0 {
            '/'
        } else {
            ' '
        },
        letter(n8 % 38),
        letter(n9 % 38),
        letter(n % 38),
    ]
}

/// The word without its spaces.
pub open spec fn unspaced(w: Seq<char>) -> Seq<char> {
    w.filter(|c: char| c != ' ')
}

/// The callsign text of a 50-bit number.
pub open spec fn unpacked50(n: int) -> Seq<char> {
    unspaced(slots50(n))
}

proof fn lemma_filter_push(s: Seq<char>, c: char, p: spec_fn(char) -> bool)
    ensures
        s.push(c).filter(p) == (if p(c) {
            s.filter(p).push(c)
        } else {
            s.filter(p)
        }),
{
    reveal(Seq::filter);
    assert(s.push(c).drop_last() == s);
}

/// Takes the word that goes into the slots out of a callsign text.
fn keep50(s: &[char]) -> (r: Vec<char>)
    ensures
        r@ == kept50(s@),
{
    let ghost p = |c: char| keeps50(c);
    let up: Vec<char> = text::to_upper(s);
    let mut out: Vec<char> = Vec::new();
    proof {
        reveal(Seq::filter);
    }
    for i in 0..up.len()
        invariant
            p == (|c: char| keeps50(c)),
            up@ == text::upper(s@),
            out@ == up@.take(i as int).filter(p),
    {
        let c: char = up[i];
        proof {
            lemma_filter_push(up@.take(i as int), c, p);
            assert(up@.take(i + 1) == up@.take(i as int).push(c));
        }
        if c == ' ' || c == '\t' || c == '\n' || c == '\r' || c as u32 == 12 || text::capital(c) || text::digit(
            c,
        ) || c == '/' || c == '@' {
            out.push(c);
        }
    }
    assert(up@.take(up@.len() as int) == up@);
    out
}

fn slot_code(w: &Vec<char>, i: usize) -> (r: u64)
    ensures
        r == code(slot(w@, i as int)),
        r < 39,
{
    if i < w.len() {
        match an_index(w[i]) {
            Some(k) => k as u64,
            None => 0,
        }
    } else {
        36
    }
}

fn slot_slash(w: &Vec<char>, i: usize) -> (r: u64)
    ensures
        r == slash_code(slot(w@, i as int)),
        r <= 1,
{
    if i < w.len() && w[i] == '/' {
        1
    } else {
        0
    }
}

/// Packs a callsign (up to 11 slots: letters, digits, space, `/`, an optional leading `@`)
/// into a 50-bit number.
pub fn pack_alphanumeric50(value: &str) -> (r: u64)
    ensures
        r == packed50(value@),
        r < 0x4_0000_0000_0000,
{
    let chars: Vec<char> = text::chars_of(value);
    let mut w: Vec<char> = keep50(chars.as_slice());
    if w.len() > 3 && w[3] != '/' {
        w.insert(3, ' ');
    }
    if w.len() > 7 && w[7] != '/' {
        w.insert(7, ' ');
    }
    assert(w@ == spread(kept50(value@)));
    proof {
        reveal(number50);
    }
    let a: u64 = (slot_code(&w, 0) * 38 + slot_code(&w, 1)) * 38 + slot_code(&w, 2);
    let b: u64 = ((a * 2 + slot_slash(&w, 3)) * 38 + slot_code(&w, 4)) * 38 + slot_code(&w, 5);
    let c: u64 = ((b * 38 + slot_code(&w, 6)) * 2 + slot_slash(&w, 7)) * 38 + slot_code(&w, 8);
    (c * 38 + slot_code(&w, 9)) * 38 + slot_code(&w, 10)
}

/// Leaves the spaces out.
fn drop_spaces(w: &[char]) -> (r: Vec<char>)
    ensures
        r@ == unspaced(w@),
{
    let ghost p = |c: char| c != ' ';
    let mut out: Vec<char> = Vec::new();
    proof {
        reveal(Seq::filter);
    }
    for i in 0..w.len()
        invariant
            p == (|c: char| c != ' '),
            out@ == w@.take(i as int).filter(p),
    {
        proof {
            lemma_filter_push(w@.take(i as int), w@[i as int], p);
            assert(w@.take(i + 1) == w@.take(i as int).push(w@[i as int]));
        }
        if w[i] != ' ' {
            out.push(w[i]);
        }
    }
    assert(w@.take(w@.len() as int) == w@);
    out
}

/// Unpacks a 50-bit number to a callsign.
pub fn unpack_alphanumeric50(packed: u64) -> (r: String)
    ensures
        r@ == unpacked50(packed as int),
{
    proof {
        reveal(slots50);
    }
    let n9: u64 = packed / 38;
    let n8: u64 = n9 / 38;
    let n7: u64 = n8 / 38;
    let n6: u64 = n7 / 2;
    let n5: u64 = n6 / 38;
    let n4: u64 = n5 / 38;
    let n3: u64 = n4 / 38;
    let n2: u64 = n3 / 2;
    let n1: u64 = n2 / 38;
    let n0: u64 = n1 / 38;
    let word: [char; 11] = [
        an_char((n0 % 39) as usize),
        an_char((n1 % 38) as usize),
        an_char((n2 % 38) as usize),
        if n3 % 2 != 0 {
            '/'
        } else {
            ' '
        },
        an_char((n4 % 38) as usize),
        an_char((n5 % 38) as usize),
        an_char((n6 % 38) as usize),
        if n7 % 2 != 0 {
            '/'
        } else {
            ' '
        },
        an_char((n8 % 38) as usize),
        an_char((n9 % 38) as usize),
        an_char((packed % 38) as usize),
    ];
    assert(word@ == slots50(packed as int));
    let kept: Vec<char> = drop_spaces(word.as_slice());
    text::text_of(kept.as_slice())
}

/// A packed callsign has 50 bits.
pub proof fn lemma_packed50_range(s: Seq<char>)
    ensures
        0 <= packed50(s) < 0x4_0000_0000_0000,
{
    reveal(number50);
}

/// Whether a word goes through the 50-bit form whole: it fits the slots, no white space is in
/// it, and no `@` stands behind its first place.
pub open spec fn fits50(w: Seq<char>) -> bool {
    &&& spread(w).len() <= 11
    &&& forall|i: int| 0 <= i < w.len() ==> index_of(#[trigger] w[i]) is Some && w[i] != ' '
    &&& forall|i: int| 1 <= i < w.len() ==> #[trigger] w[i] != '@'
}

proof fn lemma_unspaced_insert(w: Seq<char>, i: int)
    requires
        0 <= i <= w.len(),
    ensures
        unspaced(w.insert(i, ' ')) == unspaced(w),
{
    let p = |c: char| c != ' ';
    let a = w.take(i);
    let b = w.skip(i);
    let e = Seq::<char>::empty();
    assert(w == a + b);
    assert(w.insert(i, ' ') == (a + e.push(' ')) + b);
    Seq::filter_distributes_over_add(a, b, p);
    Seq::filter_distributes_over_add(a + e.push(' '), b, p);
    assert(a + e.push(' ') == a.push(' '));
    lemma_filter_push(a, ' ', p);
}

/// A word without spaces is left as it is.
pub(crate) proof fn lemma_unspaced_id(w: Seq<char>)
    requires
        forall|i: int| 0 <= i < w.len() ==> #[trigger] w[i] != ' ',
    ensures
        unspaced(w) == w,
    decreases w.len(),
{
    reveal(Seq::filter);
    if w.len() > 0 {
        lemma_unspaced_id(w.drop_last());
        lemma_filter_push(w.drop_last(), w.last(), |c: char| c != ' ');
        assert(w.drop_last().push(w.last()) == w);
    }
}

proof fn lemma_unspaced_fill(w: Seq<char>, k: nat)
    ensures
        unspaced(w + Seq::new(k, |i: int| ' ')) == unspaced(w),
    decreases k,
{
    let f = w + Seq::new(k, |i: int| ' ');
    if k > 0 {
        let g = w + Seq::new((k - 1) as nat, |i: int| ' ');
        lemma_unspaced_fill(w, (k - 1) as nat);
        assert(f == g.push(' '));
        lemma_filter_push(g, ' ', |c: char| c != ' ');
    } else {
        assert(f == w);
    }
}

proof fn lemma_digit38(q: int, d: int)
    requires
        0 <= d < 38,
    ensures
        (q * 38 + d) / 38 == q,
        (q * 38 + d) % 38 == d,
{
}

proof fn lemma_digit2(q: int, d: int)
    requires
        0 <= d < 2,
    ensures
        (q * 2 + d) / 2 == q,
        (q * 2 + d) % 2 == d,
{
}

proof fn lemma_slots_of_number(w: Seq<char>)
    requires
        forall|i: int| 0 <= i < 11 ==> index_of(#[trigger] slot(w, i)) is Some,
        forall|i: int| 1 <= i < 11 ==> #[trigger] slot(w, i) != '@',
        slot(w, 3) == '/' || slot(w, 3) == ' ',
        slot(w, 7) == '/' || slot(w, 7) == ' ',
    ensures
        slots50(number50(w)) == Seq::new(11, |i: int| slot(w, i)),
{
    reveal(number50);
    reveal(slots50);
    assert forall|i: int| 0 <= i < 11 implies letter(code(#[trigger] slot(w, i))) == slot(w, i) && 0
        <= code(slot(w, i)) < 39 && (i >= 1 ==> code(slot(w, i)) < 38) by {}
    let n0 = code(slot(w, 0));
    let n1 = n0 * 38 + code(slot(w, 1));
    let n2 = n1 * 38 + code(slot(w, 2));
    let n3 = n2 * 2 + slash_code(slot(w, 3));
    let n4 = n3 * 38 + code(slot(w, 4));
    let n5 = n4 * 38 + code(slot(w, 5));
    let n6 = n5 * 38 + code(slot(w, 6));
    let n7 = n6 * 2 + slash_code(slot(w, 7));
    let n8 = n7 * 38 + code(slot(w, 8));
    let n9 = n8 * 38 + code(slot(w, 9));
    let n = n9 * 38 + code(slot(w, 10));
    lemma_digit38(n0, code(slot(w, 1)));
    lemma_digit38(n1, code(slot(w, 2)));
    lemma_digit2(n2, slash_code(slot(w, 3)));
    lemma_digit38(n3, code(slot(w, 4)));
    lemma_digit38(n4, code(slot(w, 5)));
    lemma_digit38(n5, code(slot(w, 6)));
    lemma_digit2(n6, slash_code(slot(w, 7)));
    lemma_digit38(n7, code(slot(w, 8)));
    lemma_digit38(n8, code(slot(w, 9)));
    lemma_digit38(n9, code(slot(w, 10)));
    assert(n == number50(w));
    assert(n0 % 39 == n0);
    let got = slots50(n);
    let want = Seq::new(11, |i: int| slot(w, i));
    assert(got[0] == want[0] && got[1] == want[1] && got[2] == want[2] && got[3] == want[3]);
    assert(got[4] == want[4] && got[5] == want[5] && got[6] == want[6] && got[7] == want[7]);
    assert(got[8] == want[8] && got[9] == want[9] && got[10] == want[10]);
    assert(got =~= want);
}

/// Where the character in slot `i` of the spread word comes from.
proof fn lemma_spread_source(k: Seq<char>, i: int)
    requires
        0 <= i < spread(k).len(),
    ensures
        spread(k)[i] == ' ' || exists|j: int|
            0 <= j < k.len() && spread(k)[i] == #[trigger] k[j] && (i >= 1 ==> j >= 1),
{
    let k1 = spread_at(k, 3);
    let w = spread(k);
    let cut7 = k1.len() > 7 && k1[7] != '/';
    let cut3 = k.len() > 3 && k[3] != '/';
    if !(cut7 && i == 7) {
        let j1 = if cut7 && i > 7 {
            i - 1
        } else {
            i
        };
        assert(w[i] == k1[j1]);
        if !(cut3 && j1 == 3) {
            let j = if cut3 && j1 > 3 {
                j1 - 1
            } else {
                j1
            };
            assert(k1[j1] == k[j]);
        }
    }
}

proof fn lemma_unspaced_spread(k: Seq<char>)
    requires
        forall|i: int| 0 <= i < k.len() ==> #[trigger] k[i] != ' ',
    ensures
        unspaced(spread(k)) == k,
{
    let k1 = spread_at(k, 3);
    if k.len() > 3 && k[3] != '/' {
        lemma_unspaced_insert(k, 3);
    }
    if k1.len() > 7 && k1[7] != '/' {
        lemma_unspaced_insert(k1, 7);
    }
    lemma_unspaced_id(k);
}

/// A callsign that fits the slots comes back from its 50-bit number as it was put in.
pub proof fn law_alphanumeric50_round_trip(s: Seq<char>)
    requires
        fits50(kept50(s)),
    ensures
        unpacked50(packed50(s)) == kept50(s),
{
    let k = kept50(s);
    let w = spread(k);
    lemma_unspaced_spread(k);
    assert forall|i: int| 0 <= i < 11 implies index_of(#[trigger] slot(w, i)) is Some && (i >= 1
        ==> slot(w, i) != '@') by {
        if i < w.len() {
            lemma_spread_source(k, i);
        }
    }
    lemma_slots_of_number(w);
    let fill = Seq::new((11 - w.len()) as nat, |i: int| ' ');
    assert(Seq::new(11, |i: int| slot(w, i)) == w + fill);
    lemma_unspaced_fill(w, (11 - w.len()) as nat);
}

/// A callsign of the alphabet alone, with room in the slots, is its own 50-bit round trip.
pub proof fn law_alphanumeric50_identity(s: Seq<char>)
    requires
        fits50(s),
    ensures
        unpacked50(packed50(s)) == s,
{
    assert(text::upper(s) =~= s) by {
        assert forall|i: int| 0 <= i < s.len() implies text::upper_char(#[trigger] s[i]) == s[i] by {
            assert(index_of(s[i]) is Some);
        }
    }
    lemma_kept_id(s);
    law_alphanumeric50_round_trip(s);
}

/// A word of the alphabet is left as it is.
pub(crate) proof fn lemma_kept_id(s: Seq<char>)
    requires
        forall|i: int| 0 <= i < s.len() ==> index_of(#[trigger] s[i]) is Some,
    ensures
        s.filter(|c: char| keeps50(c)) == s,
    decreases s.len(),
{
    reveal(Seq::filter);
    if s.len() > 0 {
        lemma_kept_id(s.drop_last());
        lemma_filter_push(s.drop_last(), s.last(), |c: char| keeps50(c));
        assert(s.drop_last().push(s.last()) == s);
        assert(index_of(s[s.len() - 1]) is Some);
    }
}

// ---- the 28-bit form ----

/// How many plain callsigns there are in the 28-bit form; group names follow behind.
pub const NBASECALL: u32 = 262_177_560;

/// Group names. The number of the name at place `i` is `NBASECALL + i + 1`.
pub const BASECALLS: [&'static str; 54] = [
    "<....>",
    "@ALLCALL",
    "@JS8NET",
    "@DX/NA",
    "@DX/SA",
    "@DX/EU",
    "@DX/AS",
    "@DX/AF",
    "@DX/OC",
    "@DX/AN",
    "@REGION/1",
    "@REGION/2",
    "@REGION/3",
    "@GROUP/0",
    "@GROUP/1",
    "@GROUP/2",
    "@GROUP/3",
    "@GROUP/4",
    "@GROUP/5",
    "@GROUP/6",
    "@GROUP/7",
    "@GROUP/8",
    "@GROUP/9",
    "@COMMAND",
    "@CONTROL",
    "@NET",
    "@NTS",
    "@RESERVE/0",
    "@RESERVE/1",
    "@RESERVE/2",
    "@RESERVE/3",
    "@RESERVE/4",
    "@APRSIS",
    "@RAGCHEW",
    "@JS8",
    "@EMCOMM",
    "@ARES",
    "@MARS",
    "@AMRRON",
    "@RACES",
    "@RAYNET",
    "@RADAR",
    "@SKYWARN",
    "@CQ",
    "@HB",
    "@QSO",
    "@QSOPARTY",
    "@CONTEST",
    "@FIELDDAY",
    "@SOTA",
    "@IOTA",
    "@POTA",
    "@QRP",
    "@QRO",
];

/// The number of plain callsigns: 37, 36, 10 and three times 27 choices.
pub proof fn law_plain_callsigns()
    ensures
        NBASECALL == 37 * 36 * 10 * 27 * 27 * 27,
{
}

/// The callsign text in upper case, with the white space around it and the spaces in it gone,
/// and without a `/P` at its end.
pub open spec fn bare_call(s: Seq<char>) -> Seq<char> {
    let c = unspaced(text::upper(text::trimmed(s)));
    if c.len() > 2 && text::ends_with(c, seq!['/', 'P']) {
        c.take(c.len() - 2)
    } else {
        c
    }
}

/// Swaziland's `3DA0` prefix is shortened to `3D0`.
pub open spec fn swazi_short(c: Seq<char>) -> Seq<char> {
    if c.len() > 4 && text::starts_with(c, seq!['3', 'D', 'A', '0']) {
        seq!['3', 'D', '0'] + c.skip(4)
    } else {
        c
    }
}

/// Guinea's `3X` prefix, in front of a letter, is shortened to `Q`.
pub open spec fn guinea_short(c: Seq<char>) -> Seq<char> {
    if c.len() >= 3 && c[0] == '3' && c[1] == 'X' && text::is_capital(c[2]) {
        seq!['Q'] + c.skip(2)
    } else {
        c
    }
}

/// The callsign that is laid over the six places.
pub open spec fn short_call(s: Seq<char>) -> Seq<char> {
    guinea_short(swazi_short(bare_call(s)))
}

/// Whether six characters have the form of a callsign: a letter, digit or space; a letter or
/// digit; a digit; and three letters or spaces.
pub open spec fn is_call6(w: Seq<char>) -> bool {
    &&& w.len() == 6
    &&& text::is_digit(w[0]) || text::is_capital(w[0]) || w[0] == ' '
    &&& text::is_digit(w[1]) || text::is_capital(w[1])
    &&& text::is_digit(w[2])
    &&& text::is_capital(w[3]) || w[3] == ' '
    &&& text::is_capital(w[4]) || w[4] == ' '
    &&& text::is_capital(w[5]) || w[5] == ' '
}

/// The callsign over six places, with `lead` spaces in front and spaces behind.
pub open spec fn aligned(c: Seq<char>, lead: nat) -> Seq<char> {
    Seq::new(
        6,
        |i: int|
            if lead <= i < lead + c.len() {
                c[i - lead]
            } else {
                ' '
            },
    )
}

/// The six places of a callsign: its digit stands third, so it starts at the first place where
/// that gives the form, else at the second.
pub open spec fn placed(c: Seq<char>) -> Option<Seq<char>> {
    if c.len() <= 6 && is_call6(aligned(c, 0)) {
        Some(aligned(c, 0))
    } else if c.len() <= 5 && is_call6(aligned(c, 1)) {
        Some(aligned(c, 1))
    } else {
        None
    }
}

/// The number of six places: mixed radix 37, 36, 10, 27, 27, 27.
pub open spec fn number28(w: Seq<char>) -> int {
    ((((code(w[0]) * 36 + code(w[1])) * 10 + code(w[2])) * 27 + (code(w[3]) - 10)) * 27 + (code(
        w[4],
    ) - 10)) * 27 + (code(w[5]) - 10)
}

/// The 28-bit number of a callsign or group name.
pub open spec fn packed28(s: Seq<char>) -> Option<int> {
    match text::position_from(BASECALLS@, text::upper(text::trimmed(s)), 0) {
        Some(i) => Some(NBASECALL + i + 1),
        None => match placed(short_call(s)) {
            Some(w) => Some(number28(w)),
            None => None,
        },
    }
}

fn align(c: &[char], lead: usize) -> (r: Vec<char>)
    requires
        c@.len() + lead <= 6,
    ensures
        r@ == aligned(c@, lead as nat),
{
    let mut out: Vec<char> = Vec::new();
    for i in 0..6usize
        invariant
            c@.len() + lead <= 6,
            out@ == aligned(c@, lead as nat).take(i as int),
    {
        if lead <= i && i - lead < c.len() {
            out.push(c[i - lead]);
        } else {
            out.push(' ');
        }
        assert(aligned(c@, lead as nat).take(i + 1) == aligned(c@, lead as nat).take(i as int).push(
            aligned(c@, lead as nat)[i as int],
        ));
    }
    assert(aligned(c@, lead as nat).take(6) == aligned(c@, lead as nat));
    out
}

fn call6(w: &[char]) -> (r: bool)
    ensures
        r == is_call6(w@),
{
    w.len() == 6 && (text::digit(w[0]) || text::capital(w[0]) || w[0] == ' ') && (text::digit(w[1])
        || text::capital(w[1])) && text::digit(w[2]) && (text::capital(w[3]) || w[3] == ' ') && (
    text::capital(w[4]) || w[4] == ' ') && (text::capital(w[5]) || w[5] == ' ')
}

fn place(c: &[char]) -> (r: Option<Vec<char>>)
    ensures
        r is Some <==> placed(c@) is Some,
        r matches Some(w) ==> placed(c@) == Some(w@) && is_call6(w@),
{
    if c.len() <= 6 {
        let w: Vec<char> = align(c, 0);
        if call6(w.as_slice()) {
            return Some(w);
        }
    }
    if c.len() <= 5 {
        let w: Vec<char> = align(c, 1);
        if call6(w.as_slice()) {
            return Some(w);
        }
    }
    None
}

fn place_code(c: char) -> (r: u32)
    ensures
        r == code(c),
        r < 39,
{
    match an_index(c) {
        Some(i) => i,
        None => 0,
    }
}

fn shorten(s: &[char]) -> (r: Vec<char>)
    ensures
        r@ == short_call(s@),
{
    let t: Vec<char> = text::trim(s);
    let up: Vec<char> = text::to_upper(t.as_slice());
    let mut c: Vec<char> = drop_spaces(up.as_slice());
    if c.len() > 2 && c[c.len() - 2] == '/' && c[c.len() - 1] == 'P' {
        assert(c@.skip(c@.len() - 2) == seq!['/', 'P']);
        c.truncate(c.len() - 2);
    } else if c.len() > 2 {
        assert(c@.skip(c@.len() - 2)[0] == c@[c@.len() - 2]);
        assert(c@.skip(c@.len() - 2)[1] == c@[c@.len() - 1]);
    }
    assert(c@ == bare_call(s@));
    let mut d: Vec<char> = Vec::new();
    if c.len() > 4 && c[0] == '3' && c[1] == 'D' && c[2] == 'A' && c[3] == '0' {
        assert(c@.take(4) == seq!['3', 'D', 'A', '0']);
        d.push('3');
        d.push('D');
        d.push('0');
        let rest: Vec<char> = text::slice_of(c.as_slice(), 4, c.len());
        text::push_chars(&mut d, rest.as_slice());
        assert(d@ == seq!['3', 'D', '0'] + c@.skip(4));
    } else {
        if c.len() > 4 {
            assert(c@.take(4)[0] == c@[0] && c@.take(4)[1] == c@[1]);
            assert(c@.take(4)[2] == c@[2] && c@.take(4)[3] == c@[3]);
        }
        d = c;
    }
    assert(d@ == swazi_short(bare_call(s@)));
    if d.len() >= 3 && d[0] == '3' && d[1] == 'X' && text::capital(d[2]) {
        let mut e: Vec<char> = Vec::new();
        e.push('Q');
        let rest: Vec<char> = text::slice_of(d.as_slice(), 2, d.len());
        text::push_chars(&mut e, rest.as_slice());
        assert(e@ == seq!['Q'] + d@.skip(2));
        e
    } else {
        d
    }
}

/// Packs a callsign into the 28-bit form: a group name, or a call of two to six characters whose
/// digit can stand third, once a long prefix is shortened. A `/P` at the end is left out.
pub fn pack_callsign(value: &str) -> (r: Option<u32>)
    ensures
        r is Some <==> packed28(value@) is Some,
        r matches Some(n) ==> packed28(value@) == Some(n as int) && n <= NBASECALL + 54,
{
    let chars: Vec<char> = text::chars_of(value);
    let t: Vec<char> = text::trim(chars.as_slice());
    let up: Vec<char> = text::to_upper(t.as_slice());
    let table: [&'static str; 54] = BASECALLS;
    if let Some(i) = text::position(table.as_slice(), up.as_slice()) {
        return Some(NBASECALL + 1 + i as u32);
    }
    let c: Vec<char> = shorten(chars.as_slice());
    match place(c.as_slice()) {
        Some(w) => {
            let head: u32 = (place_code(w[0]) * 36 + place_code(w[1])) * 10 + place_code(w[2]);
            let tail: u32 = (head * 27 + (place_code(w[3]) - 10)) * 27 + (place_code(w[4]) - 10);
            Some(tail * 27 + (place_code(w[5]) - 10))
        },
        None => None,
    }
}

/// The group name with a given number.
pub open spec fn group_name(n: int) -> Option<Seq<char>> {
    if NBASECALL < n <= NBASECALL + 54 {
        Some(BASECALLS[n - NBASECALL - 1]@)
    } else {
        None
    }
}

/// The six places of a plain callsign's number.
#[verifier::opaque]
pub open spec fn places28(n: int) -> Seq<char> {
    let n4 = n / 27;
    let n3 = n4 / 27;
    let n2 = n3 / 27;
    let n1 = n2 / 10;
    let n0 = n1 / 36;
    seq![
        letter(n0),
        letter(n1 % 36),
        letter(n2 % 10),
        letter(n3 % 27 + 10),
        letter(n4 % 27 + 10),
        letter(n % 27 + 10),
    ]
}

/// A `3D0` in front becomes `3DA0` again, and a `Q` in front of a letter becomes `3X`.
pub open spec fn full_call(w: Seq<char>) -> Seq<char> {
    if text::starts_with(w, seq!['3', 'D', '0']) {
        seq!['3', 'D', 'A', '0'] + w.skip(3)
    } else if w.len() >= 2 && w[0] == 'Q' && text::is_capital(w[1]) {
        seq!['3', 'X'] + w.skip(1)
    } else {
        w
    }
}

/// The `/P` of a portable station.
pub open spec fn portable_mark(portable: bool) -> Seq<char> {
    if portable {
        seq!['/', 'P']
    } else {
        Seq::empty()
    }
}

/// The callsign or group name with a given number.
pub open spec fn unpacked28(n: int, portable: bool) -> Seq<char> {
    match group_name(n) {
        Some(name) => name,
        None => text::trimmed(full_call(places28(n))) + portable_mark(portable),
    }
}

/// The group name with a given 28-bit number, if there is one.
pub fn basecall_name(value: u32) -> (r: Option<&'static str>)
    ensures
        r is Some <==> group_name(value as int) is Some,
        r matches Some(name) ==> group_name(value as int) == Some(name@),
{
    if value > NBASECALL && value - NBASECALL <= 54 {
        Some(BASECALLS[(value - NBASECALL - 1) as usize])
    } else {
        None
    }
}

/// Unpacks a 28-bit number to a callsign or group name. Every number below 2^28 can be unpacked.
pub fn unpack_callsign(value: u32, portable: bool) -> (r: String)
    requires
        group_name(value as int) is Some || value < 276_349_320,
    ensures
        r@ == unpacked28(value as int, portable),
{
    if let Some(name) = basecall_name(value) {
        return name.to_owned();
    }
    proof {
        reveal(places28);
    }
    let n4: u32 = value / 27;
    let n3: u32 = n4 / 27;
    let n2: u32 = n3 / 27;
    let n1: u32 = n2 / 10;
    let n0: u32 = n1 / 36;
    let w: [char; 6] = [
        an_char(n0 as usize),
        an_char((n1 % 36) as usize),
        an_char((n2 % 10) as usize),
        an_char((n3 % 27 + 10) as usize),
        an_char((n4 % 27 + 10) as usize),
        an_char((value % 27 + 10) as usize),
    ];
    assert(w@ == places28(value as int));
    let mut full: Vec<char> = Vec::new();
    assert(w@.take(3)[0] == w@[0] && w@.take(3)[1] == w@[1] && w@.take(3)[2] == w@[2]);
    if w[0] == '3' && w[1] == 'D' && w[2] == '0' {
        assert(w@.take(3) == seq!['3', 'D', '0']);
        full.push('3');
        full.push('D');
        full.push('A');
        full.push('0');
        let rest: Vec<char> = text::slice_of(w.as_slice(), 3, 6);
        text::push_chars(&mut full, rest.as_slice());
        assert(full@ == seq!['3', 'D', 'A', '0'] + w@.skip(3));
    } else if w[0] == 'Q' && text::capital(w[1]) {
        full.push('3');
        full.push('X');
        let rest: Vec<char> = text::slice_of(w.as_slice(), 1, 6);
        text::push_chars(&mut full, rest.as_slice());
        assert(full@ == seq!['3', 'X'] + w@.skip(1));
    } else {
        text::push_chars(&mut full, w.as_slice());
        assert(full@ == w@);
    }
    assert(full@ == full_call(places28(value as int)));
    let mut out: Vec<char> = text::trim(full.as_slice());
    if portable {
        out.push('/');
        out.push('P');
    }
    assert(out@ == unpacked28(value as int, portable));
    text::text_of(out.as_slice())
}

proof fn lemma_digit27(q: int, d: int)
    requires
        0 <= d < 27,
    ensures
        (q * 27 + d) / 27 == q,
        (q * 27 + d) % 27 == d,
{
}

/// A callsign's six places come back from their number.
pub proof fn law_places28_round_trip(w: Seq<char>)
    requires
        is_call6(w),
    ensures
        places28(number28(w)) == w,
        0 <= number28(w) < NBASECALL,
{
    reveal(places28);
    let n0 = code(w[0]);
    let n1 = n0 * 36 + code(w[1]);
    let n2 = n1 * 10 + code(w[2]);
    let n3 = n2 * 27 + (code(w[3]) - 10);
    let n4 = n3 * 27 + (code(w[4]) - 10);
    let n = n4 * 27 + (code(w[5]) - 10);
    assert(0 <= n0 < 37 && 0 <= code(w[1]) < 36 && 0 <= code(w[2]) < 10);
    assert(n1 / 36 == n0 && n1 % 36 == code(w[1]));
    assert(n2 / 10 == n1 && n2 % 10 == code(w[2]));
    lemma_digit27(n2, code(w[3]) - 10);
    lemma_digit27(n3, code(w[4]) - 10);
    lemma_digit27(n4, code(w[5]) - 10);
    assert(n == number28(w));
    let got = places28(n);
    assert(got[0] == w[0] && got[1] == w[1] && got[2] == w[2]);
    assert(got[3] == w[3] && got[4] == w[4] && got[5] == w[5]);
    assert(got =~= w);
}

/// A packed callsign has 28 bits.
pub proof fn lemma_packed28_range(s: Seq<char>)
    ensures
        packed28(s) matches Some(n) ==> 0 <= n <= NBASECALL + 54,
{
    text::lemma_position(BASECALLS@, text::upper(text::trimmed(s)), 0);
    match placed(short_call(s)) {
        Some(w) => {
            law_places28_round_trip(w);
        },
        None => {},
    }
}

proof fn lemma_trim_fill(c: Seq<char>, lead: nat, more: nat)
    requires
        c.len() > 0 ==> !text::is_white(c[0]) && !text::is_white(c.last()),
    ensures
        text::trimmed(Seq::new(lead, |i: int| ' ') + c + Seq::new(more, |i: int| ' ')) == c,
    decreases lead + more,
{
    let a = Seq::new(lead, |i: int| ' ');
    let b = Seq::new(more, |i: int| ' ');
    let s = a + c + b;
    if lead > 0 {
        lemma_trim_fill(c, (lead - 1) as nat, more);
        assert(s[0] == ' ');
        assert(s.drop_first() == Seq::new((lead - 1) as nat, |i: int| ' ') + c + b);
    } else if more > 0 {
        lemma_trim_fill(c, lead, (more - 1) as nat);
        let t = a + c + Seq::new((more - 1) as nat, |i: int| ' ');
        assert(s.last() == ' ');
        assert(s.drop_last() == t);
        if text::is_white(s[0]) {
            assert(c.len() == 0);
            assert(s.drop_first() == t);
        }
    } else {
        assert(s == c);
        text::lemma_trimmed_id(c);
    }
}

proof fn lemma_unspaced_clean(w: Seq<char>)
    ensures
        forall|i: int| 0 <= i < unspaced(w).len() ==> #[trigger] unspaced(w)[i] != ' ',
{
    broadcast use vstd::seq_lib::group_filter_ensures;

    let p = |c: char| c != ' ';
    assert forall|i: int| 0 <= i < unspaced(w).len() implies #[trigger] unspaced(w)[i] != ' ' by {
        assert(p(w.filter(p)[i]));
    }
}

proof fn lemma_short_call_clean(s: Seq<char>)
    ensures
        forall|i: int| 0 <= i < short_call(s).len() ==> #[trigger] short_call(s)[i] != ' ',
{
    lemma_unspaced_clean(text::upper(text::trimmed(s)));
    let b = bare_call(s);
    assert(forall|i: int| 0 <= i < b.len() ==> #[trigger] b[i] != ' ');
    let d = swazi_short(b);
    assert(forall|i: int| 0 <= i < d.len() ==> #[trigger] d[i] != ' ');
}

/// What a plain callsign reads after the trip through its 28-bit number: itself, in its short
/// form, with the long prefixes put back, and marked if it is portable.
pub proof fn law_callsign_round_trip(s: Seq<char>, portable: bool)
    requires
        text::position_from(BASECALLS@, text::upper(text::trimmed(s)), 0) is None,
        packed28(s) is Some,
    ensures
        0 <= packed28(s)->0 < NBASECALL,
        unpacked28(packed28(s)->0, portable) == full_call(short_call(s)) + portable_mark(portable),
{
    let c = short_call(s);
    lemma_short_call_clean(s);
    let w = placed(c)->0;
    law_places28_round_trip(w);
    let lead: nat = if w == aligned(c, 0) {
        0
    } else {
        1
    };
    assert(c.len() >= 2);
    assert(forall|i: int| 0 <= i < c.len() ==> #[trigger] c[i] == w[i + lead]);
    assert(forall|i: int| 0 <= i < c.len() ==> !text::is_white(#[trigger] c[i]));
    let more: nat = (6 - lead - c.len()) as nat;
    let front = Seq::new(lead, |i: int| ' ');
    let back = Seq::new(more, |i: int| ' ');
    let f = full_call(c);
    assert(w == front + c + back);
    assert(w.take(3)[0] == w[0] && w.take(3)[1] == w[1] && w.take(3)[2] == w[2]);
    if c.len() >= 3 {
        assert(c.take(3)[0] == c[0] && c.take(3)[1] == c[1] && c.take(3)[2] == c[2]);
    }
    let swazi = seq!['3', 'D', '0'];
    if lead == 1 {
        assert(c[1] == w[2]);
        assert(w[0] == ' ');
        assert(!text::starts_with(c, swazi)) by {
            if text::starts_with(c, swazi) {
                assert(c.take(3)[1] == 'D');
            }
        }
        assert(!text::starts_with(w, swazi)) by {
            if text::starts_with(w, swazi) {
                assert(w.take(3)[0] == '3');
            }
        }
        assert(f == c);
    } else {
        assert(c.len() >= 3);
        assert(c.take(3) =~= w.take(3));
        if text::starts_with(c, swazi) {
            assert(w.skip(3) =~= c.skip(3) + back);
        } else if f != c {
            assert(w.skip(1) =~= c.skip(1) + back);
        }
    }
    assert(full_call(w) =~= front + f + back);
    assert(f.len() > 0 && !text::is_white(f[0]) && !text::is_white(f.last()));
    lemma_trim_fill(f, lead, more);
}

/// A plain callsign in upper case comes back from its number as it was, if it is written
/// without spaces and `/P` and does not begin as only the short forms of long prefixes do.
pub proof fn law_callsign_identity(s: Seq<char>)
    requires
        text::position_from(BASECALLS@, s, 0) is None,
        packed28(s) is Some,
        text::upper(s) == s,
        forall|i: int| 0 <= i < s.len() ==> !text::is_white(#[trigger] s[i]),
        !text::ends_with(s, seq!['/', 'P']),
        !text::starts_with(s, seq!['3', 'D', '0']),
        !(s.len() >= 2 && s[0] == 'Q' && text::is_capital(s[1])),
    ensures
        unpacked28(packed28(s)->0, false) == s,
        unpacked28(packed28(s)->0, true) == s + seq!['/', 'P'],
{
    text::lemma_trimmed_id(s);
    lemma_unspaced_id(s);
    law_callsign_round_trip(s, false);
    law_callsign_round_trip(s, true);
    assert(bare_call(s) == s);
    let d = swazi_short(s);
    let g = guinea_short(s);
    if d != s {
        assert(s.take(4)[0] == '3' && s.take(4)[1] == 'D');
        assert(d[0] == '3' && d[1] == 'D' && d[2] == '0');
        assert(guinea_short(d) == d);
        assert(d.take(3) == seq!['3', 'D', '0']);
        assert(full_call(d) =~= s) by {
            assert(s.take(4) == seq!['3', 'D', 'A', '0']);
            assert(s.take(4)[0] == s[0] && s.take(4)[1] == s[1]);
            assert(s.take(4)[2] == s[2] && s.take(4)[3] == s[3]);
        }
    } else if g != s {
        assert(g[0] == 'Q' && g[1] == s[2]);
        assert(!text::starts_with(g, seq!['3', 'D', '0'])) by {
            if text::starts_with(g, seq!['3', 'D', '0']) {
                assert(g.take(3)[0] == '3');
            }
        }
        assert(full_call(g) =~= s);
    }
    assert(full_call(short_call(s)) == s);
    assert(s + Seq::<char>::empty() == s);
}

} // verus!

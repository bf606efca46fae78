//! Free text in data frames: the prefix code of the older frames and the dictionary code of
//! the newer ones.
use crate::js8::bits;
use crate::js8::msg::DecodedFrame;
use crate::js8::words;
use crate::text;
use vstd::prelude::*;

verus! {

/// The prefix code of the older data frames: characters and their bits.
pub const HUFF_TABLE: [(char, &'static str); 44] = [
    (' ', "01"),
    ('E', "100"),
    ('T', "1101"),
    ('A', "0011"),
    ('O', "11111"),
    ('I', "11100"),
    ('N', "10111"),
    ('S', "10100"),
    ('H', "00011"),
    ('R', "00000"),
    ('D', "111011"),
    ('L', "110011"),
    ('C', "110001"),
    ('U', "101101"),
    ('M', "101011"),
    ('W', "001011"),
    ('F', "001001"),
    ('G', "000101"),
    ('Y', "000011"),
    ('P', "1111011"),
    ('B', "1111001"),
    ('.', "1110100"),
    ('V', "1100101"),
    ('K', "1100100"),
    ('-', "1100001"),
    ('+', "1100000"),
    ('?', "1011001"),
    ('!', "1011000"),
    ('"', "1010101"),
    ('X', "1010100"),
    ('0', "0010101"),
    ('J', "0010100"),
    ('1', "0010001"),
    ('Q', "0010000"),
    ('2', "0001001"),
    ('Z', "0001000"),
    ('3', "0000101"),
    ('5', "0000100"),
    ('4', "11110101"),
    ('9', "11110100"),
    ('8', "11110001"),
    ('6', "11110000"),
    ('7', "11101011"),
    ('/', "11101010"),
];

/// Whether a text of `0` and `1` stands in front of a run of bits.
pub open spec fn code_leads(code: Seq<char>, bits: Seq<u8>) -> bool {
    &&& code.len() <= bits.len()
    &&& forall|i: int|
        0 <= i < code.len() ==> bits[i] == (if #[trigger] code[i] != '0' {
            1u8
        } else {
            0u8
        })
}

/// The first entry of the table, from place `k` on, whose code stands in front of the bits.
pub open spec fn leading_entry(bits: Seq<u8>, k: int) -> Option<int>
    decreases 44 - k,
{
    if k < 0 || k >= 44 {
        None
    } else if code_leads(HUFF_TABLE[k].1@, bits) {
        Some(k)
    } else {
        leading_entry(bits, k + 1)
    }
}

/// The text that bits write in the prefix code, up to the first place where no code fits.
pub open spec fn huff_text(bits: Seq<u8>) -> Seq<char>
    decreases bits.len(),
{
    match leading_entry(bits, 0) {
        Some(k) => if 0 < HUFF_TABLE[k].1@.len() <= bits.len() {
            seq![HUFF_TABLE[k].0] + huff_text(bits.skip(HUFF_TABLE[k].1@.len() as int))
        } else {
            Seq::empty()
        },
        None => Seq::empty(),
    }
}

fn leads(code: &[char], bits: &[u8], from: usize) -> (r: bool)
    requires
        from <= bits@.len(),
    ensures
        r == code_leads(code@, bits@.skip(from as int)),
{
    let ghost rest = bits@.skip(from as int);
    if code.len() > bits.len() - from {
        return false;
    }
    for i in 0..code.len()
        invariant
            from + code@.len() <= bits@.len(),
            bits@.len() <= usize::MAX,
            rest == bits@.skip(from as int),
            forall|j: int|
                0 <= j < i ==> rest[j] == (if #[trigger] code@[j] != '0' {
                    1u8
                } else {
                    0u8
                }),
    {
        let want: u8 = if code[i] != '0' {
            1
        } else {
            0
        };
        assert(rest[i as int] == bits@[from + i]);
        if bits[from + i] != want {
            assert(code@[i as int] != '0' || code@[i as int] == '0');
            return false;
        }
    }
    true
}

proof fn lemma_codes_not_empty(k: int)
    requires
        0 <= k < 44,
    ensures
        HUFF_TABLE[k].1@.len() > 0,
{
    if k == 0 {
        reveal_strlit("01");
    } else if k == 1 {
        reveal_strlit("100");
    } else if k == 2 {
        reveal_strlit("1101");
    } else if k == 3 {
        reveal_strlit("0011");
    } else if k == 4 {
        reveal_strlit("11111");
    } else if k == 5 {
        reveal_strlit("11100");
    } else if k == 6 {
        reveal_strlit("10111");
    } else if k == 7 {
        reveal_strlit("10100");
    } else if k == 8 {
        reveal_strlit("00011");
    } else if k == 9 {
        reveal_strlit("00000");
    } else if k == 10 {
        reveal_strlit("111011");
    } else if k == 11 {
        reveal_strlit("110011");
    } else if k == 12 {
        reveal_strlit("110001");
    } else if k == 13 {
        reveal_strlit("101101");
    } else if k == 14 {
        reveal_strlit("101011");
    } else if k == 15 {
        reveal_strlit("001011");
    } else if k == 16 {
        reveal_strlit("001001");
    } else if k == 17 {
        reveal_strlit("000101");
    } else if k == 18 {
        reveal_strlit("000011");
    } else if k == 19 {
        reveal_strlit("1111011");
    } else if k == 20 {
        reveal_strlit("1111001");
    } else if k == 21 {
        reveal_strlit("1110100");
    } else if k == 22 {
        reveal_strlit("1100101");
    } else if k == 23 {
        reveal_strlit("1100100");
    } else if k == 24 {
        reveal_strlit("1100001");
    } else if k == 25 {
        reveal_strlit("1100000");
    } else if k == 26 {
        reveal_strlit("1011001");
    } else if k == 27 {
        reveal_strlit("1011000");
    } else if k == 28 {
        reveal_strlit("1010101");
    } else if k == 29 {
        reveal_strlit("1010100");
    } else if k == 30 {
        reveal_strlit("0010101");
    } else if k == 31 {
        reveal_strlit("0010100");
    } else if k == 32 {
        reveal_strlit("0010001");
    } else if k == 33 {
        reveal_strlit("0010000");
    } else if k == 34 {
        reveal_strlit("0001001");
    } else if k == 35 {
        reveal_strlit("0001000");
    } else if k == 36 {
        reveal_strlit("0000101");
    } else if k == 37 {
        reveal_strlit("0000100");
    } else if k == 38 {
        reveal_strlit("11110101");
    } else if k == 39 {
        reveal_strlit("11110100");
    } else if k == 40 {
        reveal_strlit("11110001");
    } else if k == 41 {
        reveal_strlit("11110000");
    } else if k == 42 {
        reveal_strlit("11101011");
    } else if k == 43 {
        reveal_strlit("11101010");
    }
}

/// Decodes bits by the prefix code. Decoding ends where no code fits.
pub fn huff_decode(bits: &[u8]) -> (r: String)
    ensures
        r@ == huff_text(bits@),
{
    let mut out: Vec<char> = Vec::new();
    let mut i: usize = 0;
    assert(bits@.skip(0) == bits@);
    while i < bits.len()
        invariant_except_break
            i <= bits@.len(),
            out@ + huff_text(bits@.skip(i as int)) == huff_text(bits@),
        ensures
            out@ == huff_text(bits@),
        decreases bits@.len() - i,
    {
        let ghost rest = bits@.skip(i as int);
        let mut k: usize = 0;
        let mut width: usize = 0;
        while k < 44
            invariant_except_break
                k <= 44,
                i < bits@.len(),
                rest == bits@.skip(i as int),
                leading_entry(rest, 0) == leading_entry(rest, k as int),
                width == 0,
            ensures
                k <= 44,
                k < 44 ==> leading_entry(rest, 0) == Some(k as int) && width
                    == HUFF_TABLE[k as int].1@.len() && 0 < width <= rest.len(),
                k == 44 ==> leading_entry(rest, 0) is None,
            decreases 44 - k,
        {
            let code: Vec<char> = text::chars_of(HUFF_TABLE[k].1);
            if leads(code.as_slice(), bits, i) {
                proof {
                    lemma_codes_not_empty(k as int);
                }
                width = code.len();
                break;
            }
            k = k + 1;
        }
        if k == 44 {
            assert(huff_text(rest) == Seq::<char>::empty());
            break;
        }
        let ghost before = out@;
        out.push(HUFF_TABLE[k].0);
        proof {
            assert(rest.skip(width as int) == bits@.skip(i + width));
            let tail = huff_text(rest.skip(width as int));
            assert(huff_text(rest) == seq![HUFF_TABLE[k as int].0] + tail);
            assert(before + (seq![HUFF_TABLE[k as int].0] + tail) == out@ + tail);
        }
        i = i + width;
    }
    text::text_of(out.as_slice())
}

// ---- the dictionary code ----

/// The entry of a code that has no word.
pub const JSC_UNMAPPED: u32 = 0xFFFF_FFFF;

/// The run of a word's leading digits must write a number below this one.
pub const JSC_MAP_SIZE_CONST: u32 = 262_144;

/// Whether every code has no word, or leads to one.
pub open spec fn codes_lead(code_to_pos: Seq<u32>, words: Seq<String>) -> bool {
    forall|i: int|
        0 <= i < code_to_pos.len() ==> #[trigger] code_to_pos[i] == JSC_UNMAPPED || code_to_pos[i]
            < words.len()
}

/// The dictionary of the newer data frames: the place of each code's word, or [`JSC_UNMAPPED`], and
/// the word at each place.
pub struct JscMap {
    code_to_pos: Vec<u32>,
    words: Vec<String>,
}

impl JscMap {
    /// The place of each code's word.
    pub closed spec fn codes(&self) -> Seq<u32> {
        self.code_to_pos@
    }

    /// The words.
    pub closed spec fn entries(&self) -> Seq<String> {
        self.words@
    }

    /// Every mapped code leads to a word.
    pub open spec fn wf(&self) -> bool {
        codes_lead(self.codes(), self.entries())
    }

    /// The word with a given code.
    pub open spec fn word(&self, code: int) -> Option<Seq<char>> {
        if 0 <= code < self.codes().len() && self.codes()[code] != JSC_UNMAPPED {
            Some(self.entries()[self.codes()[code] as int]@)
        } else {
            None
        }
    }

    /// A dictionary of given codes and words; none where a code leads behind the last word.
    pub fn new(code_to_pos: Vec<u32>, words: Vec<String>) -> (r: Option<JscMap>)
        ensures
            r is Some <==> codes_lead(code_to_pos@, words@),
            r matches Some(map) ==> map.wf() && map.codes() == code_to_pos@ && map.entries()
                == words@,
    {
        for i in 0..code_to_pos.len()
            invariant
                forall|k: int|
                    0 <= k < i ==> #[trigger] code_to_pos@[k] == JSC_UNMAPPED || code_to_pos@[k]
                        < words@.len(),
        {
            let p: u32 = code_to_pos[i];
            if p != JSC_UNMAPPED && p as usize >= words.len() {
                assert(code_to_pos@[i as int] == p);
                return None;
            }
        }
        Some(JscMap { code_to_pos, words })
    }

    /// A dictionary without words.
    pub fn empty() -> (r: JscMap)
        ensures
            r.wf(),
            r.codes() == Seq::<u32>::empty(),
            r.entries() == Seq::<String>::empty(),
            forall|code: int| #[trigger] r.word(code) is None,
    {
        JscMap { code_to_pos: Vec::new(), words: Vec::new() }
    }
}

/// The four-bit digit at place `m`.
pub open spec fn nibble(b: Seq<u8>, m: int) -> int {
    bits::shifted8(b.subrange(4 * m, 4 * m + 4)) as int
}

/// How many digits of 7 and more stand in a row from place `start` on.
pub open spec fn run_length(b: Seq<u8>, start: int) -> nat
    decreases b.len() / 4 - start,
{
    if 0 <= start < b.len() / 4 && nibble(b, start) >= 7 {
        1 + run_length(b, start + 1)
    } else {
        0
    }
}

/// The number that `k` digits of 7 and more write in base 9.
pub open spec fn run_value(b: Seq<u8>, start: int, k: nat) -> int
    decreases k,
{
    if k == 0 {
        0
    } else {
        run_value(b, start, (k - 1) as nat) * 9 + (nibble(b, start + k - 1) - 7)
    }
}

/// Where the codes of words with `k` leading digits begin.
pub open spec fn code_base(k: nat) -> int {
    if k == 0 || k >= 8 {
        0
    } else {
        7 + 63 * (k - 1)
    }
}

/// The text that digits write from place `start` on: each word is a run of leading digits and
/// a final digit below 7, and a space follows it when the next bit is set. The text ends where
/// a word is not whole or not in the dictionary.
pub open spec fn jsc_text(b: Seq<u8>, map: JscMap, start: int) -> Seq<char>
    decreases b.len() / 4 - start,
{
    let k = run_length(b, start);
    let end = start + k;
    if start < 0 || end >= b.len() / 4 || run_value(b, start, k) >= JSC_MAP_SIZE_CONST {
        Seq::empty()
    } else {
        match map.word(run_value(b, start, k) * 7 + nibble(b, end) + code_base(k)) {
            None => Seq::empty(),
            Some(w) => w + (if 4 * end + 4 < b.len() && b[4 * end + 4] == 1 {
                seq![' ']
            } else {
                Seq::empty()
            }) + jsc_text(b, map, end + 1),
        }
    }
}

/// A run of leading digits ends in front of the first digit below 7.
pub proof fn lemma_run(b: Seq<u8>, start: int, k: nat)
    requires
        0 <= start,
        start + k <= b.len() / 4,
        forall|i: int| start <= i < start + k ==> #[trigger] nibble(b, i) >= 7,
        start + k == b.len() / 4 || nibble(b, start + k) < 7,
    ensures
        run_length(b, start) == k,
    decreases k,
{
    if k > 0 {
        assert(nibble(b, start) >= 7);
        lemma_run(b, start + 1, (k - 1) as nat);
    }
}

/// The leading digits of a word: how many there are, and their number, which stays at or above
/// the limit once it has reached it.
fn read_run(b: &[u8], start: usize) -> (r: (usize, u32))
    requires
        start <= b@.len() / 4,
    ensures
        r.0 == run_length(b@, start as int),
        start + r.0 <= b@.len() / 4,
        r.1 < JSC_MAP_SIZE_CONST ==> r.1 == run_value(b@, start as int, r.0 as nat),
        r.1 >= JSC_MAP_SIZE_CONST ==> run_value(b@, start as int, r.0 as nat)
            >= JSC_MAP_SIZE_CONST,
{
    let nb: usize = b.len() / 4;
    let mut k: usize = 0;
    let mut j: u32 = 0;
    while start + k < nb
        invariant
            nb == b@.len() / 4,
            b@.len() <= usize::MAX,
            start + k <= nb,
            j < JSC_MAP_SIZE_CONST * 9 + 256,
            j < JSC_MAP_SIZE_CONST ==> j == run_value(b@, start as int, k as nat),
            j >= JSC_MAP_SIZE_CONST ==> run_value(b@, start as int, k as nat)
                >= JSC_MAP_SIZE_CONST,
            forall|i: int| start <= i < start + k ==> #[trigger] nibble(b@, i) >= 7,
        ensures
            start + k <= nb,
            j < JSC_MAP_SIZE_CONST ==> j == run_value(b@, start as int, k as nat),
            j >= JSC_MAP_SIZE_CONST ==> run_value(b@, start as int, k as nat)
                >= JSC_MAP_SIZE_CONST,
            forall|i: int| start <= i < start + k ==> #[trigger] nibble(b@, i) >= 7,
            start + k == nb || nibble(b@, start + k) < 7,
        decreases nb - (start + k),
    {
        let d: u8 = bits::shift8(b, 4 * (start + k), 4 * (start + k) + 4);
        if d < 7 {
            break;
        }
        if j < JSC_MAP_SIZE_CONST {
            j = j * 9 + (d as u32 - 7);
        }
        k = k + 1;
    }
    proof {
        lemma_run(b@, start as int, k as nat);
    }
    (k, j)
}

/// Decodes dictionary text. `b` is a run of bits, most significant first; `None` when no
/// word is read.
pub fn jsc_decompress(b: &[u8], map: &JscMap) -> (r: Option<String>)
    requires
        map.wf(),
    ensures
        r is Some <==> jsc_text(b@, *map, 0).len() > 0,
        r matches Some(t) ==> t@ == jsc_text(b@, *map, 0),
{
    let nb: usize = b.len() / 4;
    let mut out: Vec<char> = Vec::new();
    let mut start: usize = 0;
    while start < nb
        invariant_except_break
            nb == b@.len() / 4,
            b@.len() <= usize::MAX,
            map.wf(),
            start <= nb,
            out@ + jsc_text(b@, *map, start as int) == jsc_text(b@, *map, 0),
        ensures
            out@ == jsc_text(b@, *map, 0),
        decreases nb - start,
    {
        let (k, run) = read_run(b, start);
        let end: usize = start + k;
        if run >= JSC_MAP_SIZE_CONST || end >= nb {
            break;
        }
        let base: u32 = if k == 0 || k >= 8 {
            0
        } else {
            7 + 63 * (k as u32 - 1)
        };
        let last: u8 = bits::shift8(b, 4 * end, 4 * end + 4);
        let code: usize = (run * 7 + last as u32 + base) as usize;
        if code >= map.code_to_pos.len() {
            break;
        }
        let p: u32 = map.code_to_pos[code];
        if p == JSC_UNMAPPED {
            break;
        }
        let ghost before = out@;
        let ghost w = map.word(code as int)->0;
        let ghost tail = jsc_text(b@, *map, end + 1);
        text::push_text(&mut out, map.words[p as usize].as_str());
        if 4 * end + 4 < b.len() && b[4 * end + 4] == 1 {
            out.push(' ');
            assert(before + (w + seq![' '] + tail) == out@ + tail);
        } else {
            assert(before + (w + Seq::<char>::empty() + tail) == out@ + tail);
        }
        start = end + 1;
    }
    if out.len() > 0 {
        Some(text::text_of(out.as_slice()))
    } else {
        None
    }
}

// ---- data frames ----

/// The 72 bits that twelve words join to.
pub open spec fn payload_bits(w: Seq<u8>) -> Seq<u8> {
    Seq::new(72, |i: int| bits::bit72(words::joined_value(w), words::joined_rest(w), i))
}

/// The kind and text of an older data frame: a set bit, a bit that chooses the code, the text, a
/// zero and ones to the end.
pub open spec fn legacy_text(w: Seq<u8>, map: JscMap) -> Option<(u8, Seq<char>)> {
    let b = payload_bits(w);
    let end = bits::last_zero(b);
    if b[0] != 1 || end <= 1 {
        None
    } else if b[1] == 1 {
        if jsc_text(b.subrange(2, end), map, 0).len() > 0 {
            Some((DecodedFrame::KIND_DATA_JSC_LEGACY, jsc_text(b.subrange(2, end), map, 0)))
        } else {
            None
        }
    } else {
        Some((DecodedFrame::KIND_DATA_HUFF, huff_text(b.subrange(2, end))))
    }
}

/// The text of a newer data frame: dictionary text, a zero and ones to the end.
pub open spec fn fast_text(w: Seq<u8>, map: JscMap) -> Option<Seq<char>> {
    let b = payload_bits(w);
    let t = jsc_text(b.take(bits::last_zero(b)), map, 0);
    if t.len() > 0 {
        Some(t)
    } else {
        None
    }
}

fn part(b: &[u8], from: usize, to: usize) -> (r: Vec<u8>)
    requires
        from <= to <= b@.len(),
    ensures
        r@ == b@.subrange(from as int, to as int),
{
    let mut out: Vec<u8> = Vec::new();
    for i in from..to
        invariant
            from <= to <= b@.len(),
            out@ == b@.subrange(from as int, i as int),
    {
        out.push(b[i]);
    }
    out
}

/// Unpacks an older data frame into its kind and text.
pub fn unpack_legacy_data(w: &[u8; 12], map: &JscMap) -> (r: Option<(u8, String)>)
    requires
        map.wf(),
    ensures
        r is Some <==> legacy_text(w@, *map) is Some,
        r matches Some(f) ==> legacy_text(w@, *map) == Some((f.0, f.1@)),
{
    let (value, rem) = words::unpack_72bits(w);
    let b: Vec<u8> = bits::bits72(value, rem);
    assert(b@ == payload_bits(w@));
    proof {
        bits::lemma_last_zero(b@);
    }
    if b[0] != 1 {
        return None;
    }
    let end: usize = bits::bit_last_zero(b.as_slice());
    if end <= 1 {
        return None;
    }
    let payload: Vec<u8> = part(b.as_slice(), 2, end);
    if b[1] == 1 {
        match jsc_decompress(payload.as_slice(), map) {
            Some(t) => Some((DecodedFrame::KIND_DATA_JSC_LEGACY, t)),
            None => None,
        }
    } else {
        Some((DecodedFrame::KIND_DATA_HUFF, huff_decode(payload.as_slice())))
    }
}

/// Unpacks a newer data frame into its text.
pub fn unpack_fast_data(w: &[u8; 12], map: &JscMap) -> (r: Option<String>)
    requires
        map.wf(),
    ensures
        r is Some <==> fast_text(w@, *map) is Some,
        r matches Some(t) ==> fast_text(w@, *map) == Some(t@),
{
    let (value, rem) = words::unpack_72bits(w);
    let b: Vec<u8> = bits::bits72(value, rem);
    assert(b@ == payload_bits(w@));
    proof {
        bits::lemma_last_zero(b@);
    }
    let end: usize = bits::bit_last_zero(b.as_slice());
    let payload: Vec<u8> = part(b.as_slice(), 0, end);
    assert(payload@ == b@.take(end as int));
    jsc_decompress(payload.as_slice(), map)
}

} // verus!

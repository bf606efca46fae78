//! Text as sequences of characters: trimming, ASCII case, searching, and the decimal
//! forms that frames carry.
//!
//! A `&str` or `String` is modelled by the sequence of its characters. Functions that take
//! text apart work on slices and vectors of characters.
use vstd::prelude::*;

verus! {

/// `String::push` of the standard library: the character goes to the end of the text.
pub assume_specification[ String::push ](s: &mut String, ch: char)
    ensures
        final(s)@ == old(s)@.push(ch),
;

/// The characters of a text, in order.
pub fn chars_of(s: &str) -> (r: Vec<char>)
    ensures
        r@ == s@,
{
    let mut out: Vec<char> = Vec::new();
    for c in it: s.chars()
        invariant
            it.seq() == s@,
            out@ == s@.take(it.index() as int),
    {
        out.push(c);
    }
    out
}

/// The text made of the given characters.
pub fn text_of(v: &[char]) -> (r: String)
    ensures
        r@ == v@,
{
    let mut out: String = String::new();
    for i in 0..v.len()
        invariant
            out@ == v@.take(i as int),
    {
        out.push(v[i]);
    }
    out
}

/// Appends the characters of a text.
pub fn push_text(out: &mut Vec<char>, s: &str)
    ensures
        final(out)@ == old(out)@ + s@,
{
    let more: Vec<char> = chars_of(s);
    push_chars(out, more.as_slice());
}

/// Appends characters.
pub fn push_chars(out: &mut Vec<char>, more: &[char])
    ensures
        final(out)@ == old(out)@ + more@,
{
    for i in 0..more.len()
        invariant
            out@ == old(out)@ + more@.take(i as int),
    {
        out.push(more[i]);
    }
    assert(more@.take(more@.len() as int) == more@);
}

/// The characters `from..to` of a slice.
pub fn slice_of(v: &[char], from: usize, to: usize) -> (r: Vec<char>)
    requires
        from <= to <= v@.len(),
    ensures
        r@ == v@.subrange(from as int, to as int),
{
    let mut out: Vec<char> = Vec::new();
    for i in from..to
        invariant
            from <= to <= v@.len(),
            out@ == v@.subrange(from as int, i as int),
    {
        out.push(v[i]);
    }
    out
}

/// Whether two runs of characters are the same.
pub fn same_chars(a: &[char], b: &[char]) -> (r: bool)
    ensures
        r == (a@ == b@),
{
    if a.len() != b.len() {
        return false;
    }
    for i in 0..a.len()
        invariant
            a@.len() == b@.len(),
            a@.take(i as int) == b@.take(i as int),
    {
        if a[i] != b[i] {
            assert(a@[i as int] != b@[i as int]);
            return false;
        }
        assert(a@.take(i + 1) == a@.take(i as int).push(a@[i as int]));
        assert(b@.take(i + 1) == b@.take(i as int).push(b@[i as int]));
    }
    assert(a@.take(a@.len() as int) == a@);
    assert(b@.take(b@.len() as int) == b@);
    true
}

/// Whether the characters are those of the text.
pub fn same_text(a: &[char], b: &str) -> (r: bool)
    ensures
        r == (a@ == b@),
{
    let c: Vec<char> = chars_of(b);
    same_chars(a, c.as_slice())
}

/// Whether `s` begins with `p`.
pub open spec fn starts_with(s: Seq<char>, p: Seq<char>) -> bool {
    p.len() <= s.len() && s.take(p.len() as int) == p
}

/// Whether `s` ends with `p`.
pub open spec fn ends_with(s: Seq<char>, p: Seq<char>) -> bool {
    s.len() >= p.len() && s.skip(s.len() - p.len()) == p
}

/// Whether the characters begin with the text.
pub fn begins_with(s: &[char], p: &str) -> (r: bool)
    ensures
        r == starts_with(s@, p@),
{
    let c: Vec<char> = chars_of(p);
    if c.len() > s.len() {
        return false;
    }
    let head: Vec<char> = slice_of(s, 0, c.len());
    same_chars(head.as_slice(), c.as_slice())
}

/// Whether `p` occurs in `s` at offset `i`.
pub open spec fn occurs_at(s: Seq<char>, p: Seq<char>, i: int) -> bool {
    0 <= i && i + p.len() <= s.len() && s.subrange(i, i + p.len()) == p
}

/// Whether `p` occurs somewhere in `s`.
pub open spec fn occurs(s: Seq<char>, p: Seq<char>) -> bool {
    exists|i: int| #[trigger] occurs_at(s, p, i)
}

/// Whether the second run of characters occurs in the first.
pub fn has_part(s: &[char], p: &[char]) -> (r: bool)
    ensures
        r == occurs(s@, p@),
{
    if p.len() > s.len() {
        return false;
    }
    let last: usize = s.len() - p.len();
    let mut i: usize = 0;
    loop
        invariant
            p@.len() <= s@.len(),
            last == s@.len() - p@.len(),
            s@.len() <= usize::MAX,
            i <= last,
            forall|k: int| 0 <= k < i ==> !occurs_at(s@, p@, k),
        decreases last - i,
    {
        let part: Vec<char> = slice_of(s, i, i + p.len());
        if same_chars(part.as_slice(), p) {
            assert(occurs_at(s@, p@, i as int));
            return true;
        }
        if i == last {
            return false;
        }
        i = i + 1;
    }
}

/// The place of the first text of a table that reads `name`, from place `from` on.
pub open spec fn position_from(table: Seq<&'static str>, name: Seq<char>, from: int) -> Option<int>
    decreases table.len() - from,
{
    if from < 0 || from >= table.len() {
        None
    } else if table[from]@ == name {
        Some(from)
    } else {
        position_from(table, name, from + 1)
    }
}

/// The place of the first text of a table that reads `name`.
pub fn position(table: &[&'static str], name: &[char]) -> (r: Option<usize>)
    ensures
        r is Some <==> position_from(table@, name@, 0) is Some,
        r matches Some(i) ==> i < table@.len() && position_from(table@, name@, 0) == Some(i as int),
{
    for i in 0..table.len()
        invariant
            position_from(table@, name@, 0) == position_from(table@, name@, i as int),
    {
        if same_text(name, table[i]) {
            return Some(i);
        }
    }
    None
}

/// What a found place means.
pub proof fn lemma_position(table: Seq<&'static str>, name: Seq<char>, from: int)
    requires
        0 <= from,
    ensures
        position_from(table, name, from) matches Some(i) ==> from <= i < table.len()
            && table[i]@ == name,
        position_from(table, name, from) is None ==> forall|i: int|
            from <= i < table.len() ==> #[trigger] table[i]@ != name,
    decreases table.len() - from,
{
    if from < table.len() && table[from]@ != name {
        lemma_position(table, name, from + 1);
    }
}

/// A text that stands nowhere before place `at` is found there.
pub proof fn lemma_position_at(table: Seq<&'static str>, name: Seq<char>, from: int, at: int)
    requires
        0 <= from <= at < table.len(),
        table[at]@ == name,
        forall|i: int| from <= i < at ==> #[trigger] table[i]@ != name,
    ensures
        position_from(table, name, from) == Some(at),
    decreases at - from,
{
    if from < at {
        lemma_position_at(table, name, from + 1, at);
    }
}

/// Whether a character is white space (the Unicode property `White_Space`).
pub open spec fn is_white(c: char) -> bool {
    let n = c as int;
    ||| 9 <= n <= 13
    ||| n == 32
    ||| n == 0x85
    ||| n == 0xa0
    ||| n == 0x1680
    ||| 0x2000 <= n <= 0x200a
    ||| n == 0x2028
    ||| n == 0x2029
    ||| n == 0x202f
    ||| n == 0x205f
    ||| n == 0x3000
}

/// Tests for white space.
pub fn white(c: char) -> (r: bool)
    ensures
        r == is_white(c),
{
    let n: u32 = c as u32;
    (9 <= n && n <= 13) || n == 32 || n == 0x85 || n == 0xa0 || n == 0x1680 || (0x2000 <= n && n
        <= 0x200a) || n == 0x2028 || n == 0x2029 || n == 0x202f || n == 0x205f || n == 0x3000
}

/// The text without the white space at its ends.
pub open spec fn trimmed(s: Seq<char>) -> Seq<char>
    decreases s.len(),
{
    if s.len() > 0 && is_white(s[0]) {
        trimmed(s.drop_first())
    } else if s.len() > 0 && is_white(s.last()) {
        trimmed(s.drop_last())
    } else {
        s
    }
}

/// A text with no white space at either end is its own trimmed form.
pub proof fn lemma_trimmed_id(s: Seq<char>)
    requires
        s.len() > 0 ==> !is_white(s[0]) && !is_white(s.last()),
    ensures
        trimmed(s) == s,
{
}

/// A trimmed text has no white space at either end.
pub proof fn lemma_trimmed_ends(s: Seq<char>)
    ensures
        trimmed(s).len() <= s.len(),
        trimmed(s).len() > 0 ==> !is_white(trimmed(s)[0]) && !is_white(trimmed(s).last()),
        trimmed(trimmed(s)) == trimmed(s),
    decreases s.len(),
{
    if s.len() > 0 && is_white(s[0]) {
        lemma_trimmed_ends(s.drop_first());
    } else if s.len() > 0 && is_white(s.last()) {
        lemma_trimmed_ends(s.drop_last());
    }
}

/// Drops the white space at both ends.
pub fn trim(s: &[char]) -> (r: Vec<char>)
    ensures
        r@ == trimmed(s@),
{
    let mut from: usize = 0;
    let mut to: usize = s.len();
    assert(s@.subrange(0, s@.len() as int) == s@);
    while from < to && white(s[from])
        invariant
            from <= to == s@.len(),
            trimmed(s@.subrange(from as int, to as int)) == trimmed(s@),
        ensures
            from <= to == s@.len(),
            trimmed(s@.subrange(from as int, to as int)) == trimmed(s@),
            from < to ==> !is_white(s@[from as int]),
        decreases to - from,
    {
        assert(s@.subrange(from as int, to as int).drop_first() == s@.subrange(
            from + 1,
            to as int,
        ));
        from = from + 1;
    }
    while from < to && white(s[to - 1])
        invariant
            from <= to <= s@.len(),
            from < to ==> !is_white(s@[from as int]),
            trimmed(s@.subrange(from as int, to as int)) == trimmed(s@),
        ensures
            from <= to <= s@.len(),
            trimmed(s@.subrange(from as int, to as int)) == trimmed(s@),
            from < to ==> !is_white(s@[from as int]) && !is_white(s@[to - 1]),
        decreases to - from,
    {
        assert(s@.subrange(from as int, to as int).drop_last() == s@.subrange(
            from as int,
            to - 1,
        ));
        to = to - 1;
    }
    proof {
        lemma_trimmed_id(s@.subrange(from as int, to as int));
    }
    slice_of(s, from, to)
}

/// The ASCII upper-case form of a character.
pub open spec fn upper_char(c: char) -> char {
    if 'a' <= c <= 'z' {
        (c as int - 32) as char
    } else {
        c
    }
}

/// The ASCII lower-case form of a character.
pub open spec fn lower_char(c: char) -> char {
    if 'A' <= c <= 'Z' {
        (c as int + 32) as char
    } else {
        c
    }
}

/// The text with its ASCII letters in upper case.
pub open spec fn upper(s: Seq<char>) -> Seq<char> {
    Seq::new(s.len(), |i: int| upper_char(s[i]))
}

/// The ASCII upper-case form of a character.
pub fn to_upper_char(c: char) -> (r: char)
    ensures
        r == upper_char(c),
{
    if 'a' <= c && c <= 'z' {
        ((c as u8) - 32) as char
    } else {
        c
    }
}

/// The ASCII lower-case form of a character.
pub fn to_lower_char(c: char) -> (r: char)
    ensures
        r == lower_char(c),
{
    if 'A' <= c && c <= 'Z' {
        ((c as u8) + 32) as char
    } else {
        c
    }
}

/// The characters with the ASCII letters in upper case.
pub fn to_upper(s: &[char]) -> (r: Vec<char>)
    ensures
        r@ == upper(s@),
{
    let mut out: Vec<char> = Vec::new();
    for i in 0..s.len()
        invariant
            out@ == upper(s@).take(i as int),
    {
        out.push(to_upper_char(s[i]));
        assert(upper(s@).take(i + 1) == upper(s@).take(i as int).push(upper_char(s@[i as int])));
    }
    assert(upper(s@).take(s@.len() as int) == upper(s@));
    out
}

/// Whether a character is an ASCII digit.
pub open spec fn is_digit(c: char) -> bool {
    '0' <= c <= '9'
}

/// Whether a character is an ASCII upper-case letter.
pub open spec fn is_capital(c: char) -> bool {
    'A' <= c <= 'Z'
}

/// Tests for an ASCII digit.
pub fn digit(c: char) -> (r: bool)
    ensures
        r == is_digit(c),
{
    '0' <= c && c <= '9'
}

/// Tests for an ASCII upper-case letter.
pub fn capital(c: char) -> (r: bool)
    ensures
        r == is_capital(c),
{
    'A' <= c && c <= 'Z'
}

/// The decimal digits of a number, without leading zeros.
pub open spec fn decimal(n: nat) -> Seq<char>
    decreases n,
{
    if n < 10 {
        seq![('0' as int + n) as char]
    } else {
        decimal(n / 10).push(('0' as int + n % 10) as char)
    }
}

/// The decimal form of an integer: a minus sign in front of a negative one.
pub open spec fn signed_decimal(n: int) -> Seq<char> {
    if n < 0 {
        seq!['-'] + decimal((-n) as nat)
    } else {
        decimal(n as nat)
    }
}

/// The number that a run of digits writes.
pub open spec fn digits_value(s: Seq<char>) -> nat
    decreases s.len(),
{
    if s.len() == 0 {
        0
    } else {
        digits_value(s.drop_last()) * 10 + (s.last() as int - '0' as int) as nat
    }
}

/// Whether every character is a digit and there is at least one.
pub open spec fn all_digits(s: Seq<char>) -> bool {
    s.len() > 0 && forall|i: int| 0 <= i < s.len() ==> is_digit(#[trigger] s[i])
}

/// The integer that a text writes: digits, with at most one sign in front.
pub open spec fn integer_value(s: Seq<char>) -> Option<int> {
    if s.len() > 0 && s[0] == '-' && all_digits(s.drop_first()) {
        Some(-(digits_value(s.drop_first()) as int))
    } else if s.len() > 0 && s[0] == '+' && all_digits(s.drop_first()) {
        Some(digits_value(s.drop_first()) as int)
    } else if all_digits(s) {
        Some(digits_value(s) as int)
    } else {
        None
    }
}

/// The integer that a text writes, if it lies in the given range.
pub open spec fn integer_within(s: Seq<char>, lo: int, hi: int) -> Option<int> {
    match integer_value(s) {
        Some(n) => if lo <= n <= hi {
            Some(n)
        } else {
            None
        },
        None => None,
    }
}

/// The digits of a number.
pub fn to_decimal(n: u64) -> (r: Vec<char>)
    ensures
        r@ == decimal(n as nat),
    decreases n,
{
    if n < 10 {
        let mut out: Vec<char> = Vec::new();
        out.push((48 + n as u8) as char);
        assert(out@ == decimal(n as nat));
        out
    } else {
        let mut out: Vec<char> = to_decimal(n / 10);
        out.push((48 + (n % 10) as u8) as char);
        out
    }
}

/// The decimal form of an integer.
pub fn to_signed_decimal(n: i32) -> (r: Vec<char>)
    requires
        n > i32::MIN,
    ensures
        r@ == signed_decimal(n as int),
{
    if n < 0 {
        let mut out: Vec<char> = Vec::new();
        out.push('-');
        let body: Vec<char> = to_decimal((-n) as u64);
        push_chars(&mut out, body.as_slice());
        assert(out@ == signed_decimal(n as int));
        out
    } else {
        to_decimal(n as u64)
    }
}

proof fn lemma_digits_grow(s: Seq<char>, k: int)
    requires
        0 <= k <= s.len(),
        forall|i: int| 0 <= i < s.len() ==> is_digit(#[trigger] s[i]),
    ensures
        digits_value(s.take(k)) <= digits_value(s),
    decreases s.len() - k,
{
    if k < s.len() {
        lemma_digits_grow(s, k + 1);
        assert(s.take(k + 1).drop_last() == s.take(k));
        assert(is_digit(s[k]));
    } else {
        assert(s.take(k) == s);
    }
}

/// Reads a run of digits; `None` when it is not one or its value exceeds `max`.
fn read_digits(s: &[char], max: u64) -> (r: Option<u64>)
    requires
        max <= 0xffff_ffff,
    ensures
        r is Some <==> all_digits(s@) && digits_value(s@) <= max,
        r matches Some(v) ==> v == digits_value(s@),
{
    if s.len() == 0 {
        return None;
    }
    let mut v: u64 = 0;
    for i in 0..s.len()
        invariant
            max <= 0xffff_ffff,
            v <= max,
            v == digits_value(s@.take(i as int)),
            forall|k: int| 0 <= k < i ==> is_digit(#[trigger] s@[k]),
    {
        if !digit(s[i]) {
            assert(!is_digit(s@[i as int]));
            return None;
        }
        let d: u64 = (s[i] as u64) - 48;
        v = v * 10 + d;
        assert(s@.take(i + 1).drop_last() == s@.take(i as int));
        if v > max {
            proof {
                if all_digits(s@) {
                    lemma_digits_grow(s@, i + 1);
                }
            }
            return None;
        }
    }
    assert(s@.take(s@.len() as int) == s@);
    Some(v)
}

proof fn lemma_sign_first(s: Seq<char>)
    requires
        s.len() > 0,
        s[0] == '-' || s[0] == '+',
    ensures
        !all_digits(s),
{
    assert(!is_digit(s[0]));
}

/// Reads an integer between `lo` and `hi`.
fn read_integer(s: &[char], lo: i64, hi: i64) -> (r: Option<i64>)
    requires
        -0x8000_0000 <= lo <= 0 <= hi <= 0x7fff_ffff,
    ensures
        r is Some <==> integer_within(s@, lo as int, hi as int) is Some,
        r matches Some(v) ==> integer_within(s@, lo as int, hi as int) == Some(v as int),
{
    if s.len() > 0 && (s[0] == '-' || s[0] == '+') {
        proof {
            lemma_sign_first(s@);
        }
        let rest: Vec<char> = slice_of(s, 1, s.len());
        assert(rest@ == s@.drop_first());
        if s[0] == '-' {
            match read_digits(rest.as_slice(), (-lo) as u64) {
                Some(v) => Some(-(v as i64)),
                None => None,
            }
        } else {
            match read_digits(rest.as_slice(), hi as u64) {
                Some(v) => Some(v as i64),
                None => None,
            }
        }
    } else {
        match read_digits(s, hi as u64) {
            Some(v) => Some(v as i64),
            None => None,
        }
    }
}

/// Reads a signed 32-bit integer: an optional sign and decimal digits, nothing else.
pub fn parse_i32(s: &[char]) -> (r: Option<i32>)
    ensures
        r is Some <==> integer_within(s@, i32::MIN as int, i32::MAX as int) is Some,
        r matches Some(v) ==> integer_within(s@, i32::MIN as int, i32::MAX as int) == Some(
            v as int,
        ),
{
    match read_integer(s, -0x8000_0000, 0x7fff_ffff) {
        Some(v) => Some(v as i32),
        None => None,
    }
}

/// Reads a signed 16-bit integer: an optional sign and decimal digits, nothing else.
pub fn parse_i16(s: &[char]) -> (r: Option<i16>)
    ensures
        r is Some <==> integer_within(s@, i16::MIN as int, i16::MAX as int) is Some,
        r matches Some(v) ==> integer_within(s@, i16::MIN as int, i16::MAX as int) == Some(
            v as int,
        ),
{
    match read_integer(s, -0x8000, 0x7fff) {
        Some(v) => Some(v as i16),
        None => None,
    }
}

/// A number's digits are digits and write that number.
pub proof fn lemma_decimal_value(n: nat)
    ensures
        all_digits(decimal(n)),
        digits_value(decimal(n)) == n,
    decreases n,
{
    reveal_with_fuel(digits_value, 2);
    if n < 10 {
        let s = seq![('0' as int + n) as char];
        assert(s.drop_last() == Seq::<char>::empty());
        assert(is_digit(s[0]));
    } else {
        lemma_decimal_value(n / 10);
        let s = decimal(n);
        assert(s.drop_last() == decimal(n / 10));
        assert(is_digit(s.last()));
    }
}

/// A number below 100 has as many digits as it needs.
pub proof fn lemma_decimal_len(n: nat)
    requires
        n < 100,
    ensures
        decimal(n).len() == (if n < 10 {
            1int
        } else {
            2
        }),
{
    assert(n >= 10 ==> decimal(n / 10).len() == 1);
}

/// The decimal form of an integer writes that integer.
pub proof fn lemma_signed_decimal_value(n: int)
    ensures
        integer_value(signed_decimal(n)) == Some(n),
{
    let s = signed_decimal(n);
    if n < 0 {
        lemma_decimal_value((-n) as nat);
        assert(s.drop_first() =~= decimal((-n) as nat));
    } else {
        lemma_decimal_value(n as nat);
        assert(is_digit(s[0]));
    }
}

/// The capital of a small letter is the letter of the alphabet that it is, and no other character
/// changes; the small letters likewise.
pub proof fn law_letter_case(k: int, c: char)
    requires
        0 <= k < 26,
    ensures
        upper_char(('a' as int + k) as char) as int == 'A' as int + k,
        lower_char(('A' as int + k) as char) as int == 'a' as int + k,
        c < 'a' || 'z' < c ==> upper_char(c) == c,
        c < 'A' || 'Z' < c ==> lower_char(c) == c,
{
}

} // verus!

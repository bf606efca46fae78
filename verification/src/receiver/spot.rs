//! Which decoded messages are worth reporting, and as what.
use crate::js8::msg::DecodedFrame;
use crate::js8::msg;
use crate::text;
use vstd::prelude::*;

verus! {

/// The reporting station.
#[derive(Debug, Clone, PartialEq, Eq)]
pub struct SpotStation {
    pub callsign: String,
    pub grid: String,
}

impl SpotStation {
    /// A station with a callsign and a locator.
    pub fn new(callsign: &str, grid: &str) -> (r: SpotStation)
        ensures
            r.callsign@ == callsign@,
            r.grid@ == grid@,
    {
        SpotStation { callsign: callsign.to_owned(), grid: grid.to_owned() }
    }
}

/// What is reported of a message.
#[derive(Debug, Clone, PartialEq, Eq)]
pub struct SpotFields {
    /// The sending station.
    pub caller: String,
    /// Its square, or empty.
    pub locator: String,
}

// ---- words ----

/// How many characters in front are no white space.
pub open spec fn word_length(s: Seq<char>) -> nat
    decreases s.len(),
{
    if s.len() == 0 || text::is_white(s[0]) {
        0
    } else {
        1 + word_length(s.drop_first())
    }
}

proof fn lemma_word_length(s: Seq<char>)
    ensures
        word_length(s) <= s.len(),
    decreases s.len(),
{
    if s.len() > 0 && !text::is_white(s[0]) {
        lemma_word_length(s.drop_first());
    }
}

/// The characters in front are no white space, and the next one is.
pub proof fn lemma_word_extent(s: Seq<char>)
    ensures
        word_length(s) <= s.len(),
        forall|i: int| 0 <= i < word_length(s) ==> !text::is_white(#[trigger] s[i]),
        word_length(s) < s.len() ==> text::is_white(s[word_length(s) as int]),
    decreases s.len(),
{
    if s.len() > 0 && !text::is_white(s[0]) {
        let rest = s.drop_first();
        lemma_word_extent(rest);
        assert forall|i: int| 0 <= i < word_length(s) implies !text::is_white(#[trigger] s[i]) by {
            if i > 0 {
                assert(s[i] == rest[i - 1]);
            }
        }
    }
}

/// The words of a text: its longest runs without white space.
pub open spec fn words(s: Seq<char>) -> Seq<Seq<char>>
    decreases s.len(),
{
    if s.len() == 0 {
        Seq::empty()
    } else if text::is_white(s[0]) {
        words(s.drop_first())
    } else if word_length(s) == 0 || word_length(s) > s.len() {
        Seq::empty()
    } else {
        seq![s.take(word_length(s) as int)] + words(s.skip(word_length(s) as int))
    }
}

/// The contents of words.
pub open spec fn word_views(v: Seq<Vec<char>>) -> Seq<Seq<char>> {
    Seq::new(v.len(), |i: int| v[i]@)
}

/// A run without white space that ends at white space or the end of the text is a word.
pub proof fn lemma_word_run(s: Seq<char>, n: nat)
    requires
        n <= s.len(),
        forall|i: int| 0 <= i < n ==> !text::is_white(#[trigger] s[i]),
        n == s.len() || text::is_white(s[n as int]),
    ensures
        word_length(s) == n,
    decreases n,
{
    if n > 0 {
        assert(!text::is_white(s[0]));
        assert forall|i: int| 0 <= i < n - 1 implies !text::is_white(
            #[trigger] s.drop_first()[i],
        ) by {
            assert(s.drop_first()[i] == s[i + 1]);
        }
        lemma_word_run(s.drop_first(), (n - 1) as nat);
    }
}

/// Splits a text at white space.
fn split_words(s: &[char]) -> (r: Vec<Vec<char>>)
    ensures
        word_views(r@) == words(s@),
{
    let mut out: Vec<Vec<char>> = Vec::new();
    let mut i: usize = 0;
    assert(s@.skip(0) =~= s@);
    assert(word_views(out@) =~= Seq::empty());
    assert(word_views(out@) + words(s@) =~= words(s@));
    while i < s.len()
        invariant
            i <= s@.len(),
            word_views(out@) + words(s@.skip(i as int)) == words(s@),
        decreases s@.len() - i,
    {
        let ghost rest = s@.skip(i as int);
        if text::white(s[i]) {
            assert(rest.drop_first() =~= s@.skip(i + 1));
            i = i + 1;
        } else {
            let mut j: usize = i + 1;
            while j < s.len() && !text::white(s[j])
                invariant
                    i < j <= s@.len(),
                    forall|k: int| i <= k < j ==> !text::is_white(#[trigger] s@[k]),
                ensures
                    i < j <= s@.len(),
                    forall|k: int| i <= k < j ==> !text::is_white(#[trigger] s@[k]),
                    j == s@.len() || text::is_white(s@[j as int]),
                decreases s@.len() - j,
            {
                j = j + 1;
            }
            let word: Vec<char> = text::slice_of(s, i, j);
            proof {
                let n = (j - i) as nat;
                assert forall|k: int| 0 <= k < n implies !text::is_white(#[trigger] rest[k]) by {
                    assert(rest[k] == s@[i + k]);
                }
                lemma_word_run(rest, n);
                assert(rest.take(n as int) =~= word@);
                assert(rest.skip(n as int) =~= s@.skip(j as int));
            }
            let ghost before = word_views(out@);
            let ghost tail = words(s@.skip(j as int));
            out.push(word);
            assert(word_views(out@) =~= before.push(word@));
            assert(before + (seq![word@] + tail) =~= word_views(out@) + tail);
            i = j;
        }
    }
    assert(word_views(out@) + words(s@.skip(i as int)) =~= word_views(out@));
    out
}

// ---- callsigns and squares ----

/// The place of the first occurrence of a character.
pub open spec fn first_place(s: Seq<char>, c: char) -> Option<int>
    decreases s.len(),
{
    if s.len() == 0 {
        None
    } else if s[0] == c {
        Some(0)
    } else {
        match first_place(s.drop_first(), c) {
            Some(i) => Some(i + 1),
            None => None,
        }
    }
}

/// The first place is the one in front of which the character does not occur.
pub proof fn lemma_first_place(s: Seq<char>, c: char, n: int)
    requires
        0 <= n <= s.len(),
        forall|i: int| 0 <= i < n ==> #[trigger] s[i] != c,
        n == s.len() || s[n] == c,
    ensures
        first_place(s, c) == (if n == s.len() {
            None::<int>
        } else {
            Some(n)
        }),
    decreases s.len(),
{
    if n > 0 {
        assert(s[0] != c);
        assert forall|i: int| 0 <= i < n - 1 implies #[trigger] s.drop_first()[i] != c by {
            assert(s.drop_first()[i] == s[i + 1]);
        }
        lemma_first_place(s.drop_first(), c, n - 1);
    }
}

fn find_char(s: &[char], c: char) -> (r: Option<usize>)
    ensures
        r is Some <==> first_place(s@, c) is Some,
        r matches Some(i) ==> i < s@.len() && first_place(s@, c) == Some(i as int),
{
    let mut i: usize = 0;
    while i < s.len()
        invariant
            i <= s@.len(),
            forall|k: int| 0 <= k < i ==> #[trigger] s@[k] != c,
        decreases s@.len() - i,
    {
        if s[i] == c {
            proof {
                lemma_first_place(s@, c, i as int);
            }
            return Some(i);
        }
        i = i + 1;
    }
    proof {
        lemma_first_place(s@, c, i as int);
    }
    None
}

/// The callsign proper in a compound one: the longer part around the first `/`, the one behind it
/// when both are equally long.
pub open spec fn base_call(s: Seq<char>) -> Seq<char> {
    match first_place(s, '/') {
        Some(i) => if s.len() - i - 1 >= i {
            s.skip(i + 1)
        } else {
            s.take(i)
        },
        None => s,
    }
}

/// The callsign proper in a compound one.
pub fn base_callsign(callsign: &str) -> (r: String)
    ensures
        r@ == base_call(callsign@),
{
    let c: Vec<char> = text::chars_of(callsign);
    let part: Vec<char> = match find_char(c.as_slice(), '/') {
        Some(i) => {
            if c.len() - i - 1 >= i {
                let tail: Vec<char> = text::slice_of(c.as_slice(), i + 1, c.len());
                assert(tail@ =~= c@.skip(i + 1));
                tail
            } else {
                let head: Vec<char> = text::slice_of(c.as_slice(), 0, i);
                assert(head@ =~= c@.take(i as int));
                head
            }
        },
        None => c,
    };
    text::text_of(part.as_slice())
}

/// Whether a text is a square: two letters to `R`, two digits, and perhaps two letters to `X`; but
/// not `RR73`, which is a greeting.
pub open spec fn is_square(g: Seq<char>) -> bool {
    &&& g.len() == 4 || g.len() == 6
    &&& 'A' <= g[0] <= 'R' && 'A' <= g[1] <= 'R'
    &&& text::is_digit(g[2]) && text::is_digit(g[3])
    &&& g.len() == 6 ==> 'A' <= g[4] <= 'X' && 'A' <= g[5] <= 'X'
    &&& !(g.len() == 4 && g[0] == 'R' && g[1] == 'R' && g[2] == '7' && g[3] == '3')
}

/// Whether a text is a square.
pub fn grid_is_square(grid: &str) -> (r: bool)
    ensures
        r == is_square(grid@),
{
    let g: Vec<char> = text::chars_of(grid);
    square_chars(g.as_slice())
}

fn square_chars(g: &[char]) -> (r: bool)
    ensures
        r == is_square(g@),
{
    (g.len() == 4 || g.len() == 6) && 'A' <= g[0] && g[0] <= 'R' && 'A' <= g[1] && g[1] <= 'R'
        && text::digit(g[2]) && text::digit(g[3]) && (g.len() != 6 || ('A' <= g[4] && g[4] <= 'X'
        && 'A' <= g[5] && g[5] <= 'X')) && !(g.len() == 4 && g[0] == 'R' && g[1] == 'R' && g[2]
        == '7' && g[3] == '3')
}

/// The first four characters of a locator.
pub open spec fn square4(grid: Seq<char>) -> Seq<char> {
    grid.take(crate::receiver::sink::least(grid.len() as int, 4))
}

fn first4(grid: &str) -> (r: Vec<char>)
    ensures
        r@ == square4(grid@),
{
    let mut g: Vec<char> = text::chars_of(grid);
    if g.len() > 4 {
        g.truncate(4);
        assert(g@ =~= square4(grid@));
    } else {
        assert(g@ =~= square4(grid@));
    }
    g
}

// ---- free text of the 77-bit family ----

/// Whether a word behind `CQ` only says whom the call is meant for: one to four capitals, or three
/// digits.
pub open spec fn is_tag(w: Seq<char>) -> bool {
    ||| 1 <= w.len() <= 4 && forall|i: int| 0 <= i < w.len() ==> text::is_capital(#[trigger] w[i])
    ||| w.len() == 3 && forall|i: int| 0 <= i < 3 ==> text::is_digit(#[trigger] w[i])
}

/// The place of the caller among the words.
pub open spec fn caller_place(w: Seq<Seq<char>>) -> int {
    if (w[0] == "CQ"@ || w[0] == "QRZ"@) && w.len() > 2 && is_tag(w[1]) {
        2
    } else {
        1
    }
}

/// The word at a place, or no text.
pub open spec fn word_at(w: Seq<Seq<char>>, i: int) -> Seq<char> {
    if i < w.len() {
        w[i]
    } else {
        Seq::empty()
    }
}

/// The locator behind the caller; an `R` between them is passed over.
pub open spec fn locator_word(w: Seq<Seq<char>>) -> Seq<char> {
    let i = caller_place(w);
    if word_at(w, i + 1) == "R"@ {
        word_at(w, i + 2)
    } else {
        word_at(w, i + 1)
    }
}

/// Whether a text is our own: it holds our callsign proper and our square.
pub open spec fn is_own_text(t: Seq<char>, callsign: Seq<char>, grid: Seq<char>) -> bool {
    base_call(callsign).len() > 0 && square4(grid).len() > 0 && text::occurs(
        t,
        base_call(callsign),
    ) && text::occurs(t, square4(grid))
}

/// Whether a text is a general call.
pub open spec fn is_cq_text(t: Seq<char>) -> bool {
    text::occurs(t, " CQ "@) || t == "CQ"@ || text::starts_with(t, "CQ "@)
}

/// What is reported of a free text: caller and locator in upper case. Nothing of a text with fewer
/// than two words, of our own, or of one that has no square and is no general call.
pub open spec fn wsjt_fields(t: Seq<char>, callsign: Seq<char>, grid: Seq<char>) -> Option<
    (Seq<char>, Seq<char>),
> {
    let w = words(t);
    if w.len() < 2 || is_own_text(t, callsign, grid) || !(is_square(locator_word(w)) || is_cq_text(
        t,
    )) {
        None
    } else {
        Some((text::upper(w[caller_place(w)]), text::upper(locator_word(w))))
    }
}

/// Whether a word behind `CQ` only says whom the call is meant for.
pub fn is_cq_tag(w: &[char]) -> (r: bool)
    ensures
        r == is_tag(w@),
{
    let mut capitals: bool = true;
    let mut digits: bool = true;
    for i in 0..w.len()
        invariant
            capitals == (forall|k: int| 0 <= k < i ==> text::is_capital(#[trigger] w@[k])),
            digits == (forall|k: int| 0 <= k < i ==> text::is_digit(#[trigger] w@[k])),
    {
        if !text::capital(w[i]) {
            assert(!text::is_capital(w@[i as int]));
            capitals = false;
        }
        if !text::digit(w[i]) {
            assert(!text::is_digit(w@[i as int]));
            digits = false;
        }
    }
    (1 <= w.len() && w.len() <= 4 && capitals) || (w.len() == 3 && digits)
}

fn word_or_nothing(w: &Vec<Vec<char>>, i: usize) -> (r: Vec<char>)
    ensures
        r@ == word_at(word_views(w@), i as int),
{
    if i < w.len() {
        text::slice_of(w[i].as_slice(), 0, w[i].len())
    } else {
        Vec::new()
    }
}

/// What is reported of a free text of the 77-bit family, given our own station.
pub fn wsjt_spot_fields(message: &str, st: &SpotStation) -> (r: Option<SpotFields>)
    ensures
        r is Some <==> wsjt_fields(message@, st.callsign@, st.grid@) is Some,
        r matches Some(f) ==> wsjt_fields(message@, st.callsign@, st.grid@) == Some(
            (f.caller@, f.locator@),
        ),
{
    let t: Vec<char> = text::chars_of(message);
    let w: Vec<Vec<char>> = split_words(t.as_slice());
    let ghost ws = words(t@);
    if w.len() < 2 {
        return None;
    }
    assert(ws[0] == w@[0]@ && ws[1] == w@[1]@);
    let i: usize = if (text::same_text(w[0].as_slice(), "CQ") || text::same_text(
        w[0].as_slice(),
        "QRZ",
    )) && w.len() > 2 && is_cq_tag(w[1].as_slice()) {
        2
    } else {
        1
    };
    assert(i == caller_place(ws));
    let mut grid: Vec<char> = word_or_nothing(&w, i + 1);
    if text::same_text(grid.as_slice(), "R") {
        grid = word_or_nothing(&w, i + 2);
    }
    assert(grid@ == locator_word(ws));
    let base: String = base_callsign(st.callsign.as_str());
    let b: Vec<char> = text::chars_of(base.as_str());
    let g4: Vec<char> = first4(st.grid.as_str());
    if b.len() > 0 && g4.len() > 0 && text::has_part(t.as_slice(), b.as_slice()) && text::has_part(
        t.as_slice(),
        g4.as_slice(),
    ) {
        return None;
    }
    let cq: Vec<char> = text::chars_of(" CQ ");
    if !(square_chars(grid.as_slice()) || text::has_part(t.as_slice(), cq.as_slice())
        || text::same_text(t.as_slice(), "CQ") || text::begins_with(t.as_slice(), "CQ ")) {
        return None;
    }
    let caller: Vec<char> = text::to_upper(w[i].as_slice());
    let locator: Vec<char> = text::to_upper(grid.as_slice());
    Some(
        SpotFields {
            caller: text::text_of(caller.as_slice()),
            locator: text::text_of(locator.as_slice()),
        },
    )
}

// ---- JS8 frames ----

/// Whether a character may stand in a callsign that leads a data frame.
pub open spec fn is_call_char(c: char) -> bool {
    text::is_digit(c) || text::is_capital(c) || 'a' <= c <= 'z' || c == '/' || c == '.' || c == '@'
}

/// The station that leads a data frame as `CALL:`.
pub open spec fn leading_call(t: Seq<char>) -> Option<Seq<char>> {
    let s = text::trimmed(t);
    match first_place(s, ':') {
        None => None,
        Some(p) => {
            let w = words(text::trimmed(s.take(p)));
            if w.len() == 1 && (forall|i: int|
                0 <= i < w[0].len() ==> is_call_char(#[trigger] w[0][i])) {
                Some(w[0])
            } else {
                None
            }
        },
    }
}

/// Whether a frame's kind has the sender in a field of its own.
pub open spec fn names_sender(kind: u8) -> bool {
    kind == msg::FRAME_HEARTBEAT || kind == msg::FRAME_COMPOUND || kind
        == msg::FRAME_COMPOUND_DIRECTED || kind == msg::FRAME_DIRECTED
}

/// The sender of a frame.
pub open spec fn frame_sender(f: msg::FrameText) -> Option<Seq<char>> {
    if names_sender(f.kind) && text::trimmed(f.callsign).len() > 0 {
        Some(text::trimmed(f.callsign))
    } else {
        leading_call(f.text)
    }
}

/// The square of a frame.
pub open spec fn frame_square(f: msg::FrameText) -> Option<Seq<char>> {
    match f.grid {
        Some(g) => if is_square(text::trimmed(g)) {
            Some(text::trimmed(g))
        } else {
            None
        },
        None => None,
    }
}

/// Whether a frame is our own: it comes from our callsign proper, and from our square or from none.
pub open spec fn is_own_frame(
    call: Seq<char>,
    square: Option<Seq<char>>,
    callsign: Seq<char>,
    grid: Seq<char>,
) -> bool {
    base_call(callsign).len() > 0 && text::upper(call) == text::upper(base_call(callsign)) && (
    match square {
        None => true,
        Some(g) => text::upper(g) == text::upper(square4(grid)),
    })
}

/// What is reported of a frame: its sender, and its square where it has one. Nothing of a frame
/// without a sender, or of our own.
pub open spec fn js8_fields(f: msg::FrameText, callsign: Seq<char>, grid: Seq<char>) -> Option<
    (Seq<char>, Seq<char>),
> {
    match frame_sender(f) {
        None => None,
        Some(call) => if is_own_frame(call, frame_square(f), callsign, grid) {
            None
        } else {
            Some(
                (
                    text::upper(call),
                    match frame_square(f) {
                        Some(g) => text::upper(g),
                        None => Seq::empty(),
                    },
                ),
            )
        },
    }
}

/// The station that leads a data frame as `CALL:`.
pub fn data_frame_caller(f: &DecodedFrame) -> (r: Option<String>)
    ensures
        r is Some <==> leading_call(f.text@) is Some,
        r matches Some(c) ==> leading_call(f.text@) == Some(c@),
{
    let chars: Vec<char> = text::chars_of(f.text.as_str());
    let t: Vec<char> = text::trim(chars.as_slice());
    let p: usize = match find_char(t.as_slice(), ':') {
        Some(p) => p,
        None => return None,
    };
    let lead: Vec<char> = text::slice_of(t.as_slice(), 0, p);
    assert(lead@ =~= t@.take(p as int));
    let head: Vec<char> = text::trim(lead.as_slice());
    let w: Vec<Vec<char>> = split_words(head.as_slice());
    let ghost ws = words(head@);
    if w.len() != 1 {
        return None;
    }
    let call: &Vec<char> = &w[0];
    assert(ws[0] == call@);
    let ghost whole = leading_call(f.text@);
    for i in 0..call.len()
        invariant
            whole == leading_call(f.text@),
            ws.len() == 1,
            ws[0] == call@,
            whole is Some ==> forall|k: int| 0 <= k < ws[0].len() ==> is_call_char(
                #[trigger] ws[0][k],
            ),
            forall|k: int| 0 <= k < i ==> is_call_char(#[trigger] call@[k]),
    {
        let c: char = call[i];
        if !(text::digit(c) || text::capital(c) || ('a' <= c && c <= 'z') || c == '/' || c == '.'
            || c == '@') {
            assert(!is_call_char(call@[i as int]));
            assert(!is_call_char(ws[0][i as int]));
            return None;
        }
    }
    Some(text::text_of(call.as_slice()))
}

/// What is reported of a JS8 frame, given our own station.
pub fn js8_spot_fields(f: &DecodedFrame, st: &SpotStation) -> (r: Option<SpotFields>)
    ensures
        r is Some <==> js8_fields(f@, st.callsign@, st.grid@) is Some,
        r matches Some(s) ==> js8_fields(f@, st.callsign@, st.grid@) == Some(
            (s.caller@, s.locator@),
        ),
{
    let own: Vec<char> = text::chars_of(f.callsign.as_str());
    let named: Vec<char> = text::trim(own.as_slice());
    let by_field: bool = (f.kind == msg::FRAME_HEARTBEAT || f.kind == msg::FRAME_COMPOUND || f.kind
        == msg::FRAME_COMPOUND_DIRECTED || f.kind == msg::FRAME_DIRECTED) && named.len() > 0;
    let call: Vec<char> = if by_field {
        named
    } else {
        match data_frame_caller(f) {
            Some(c) => text::chars_of(c.as_str()),
            None => return None,
        }
    };
    let square: Option<Vec<char>> = match &f.grid {
        Some(g) => {
            let chars: Vec<char> = text::chars_of(g.as_str());
            let t: Vec<char> = text::trim(chars.as_slice());
            if square_chars(t.as_slice()) {
                Some(t)
            } else {
                None
            }
        },
        None => None,
    };
    let caller: Vec<char> = text::to_upper(call.as_slice());
    let locator: Vec<char> = match &square {
        Some(g) => text::to_upper(g.as_slice()),
        None => Vec::new(),
    };
    let base: String = base_callsign(st.callsign.as_str());
    let b: Vec<char> = text::chars_of(base.as_str());
    if b.len() > 0 {
        let ub: Vec<char> = text::to_upper(b.as_slice());
        let g4: Vec<char> = first4(st.grid.as_str());
        let ug: Vec<char> = text::to_upper(g4.as_slice());
        if text::same_chars(caller.as_slice(), ub.as_slice()) && (square.is_none()
            || text::same_chars(locator.as_slice(), ug.as_slice())) {
            return None;
        }
    }
    Some(
        SpotFields {
            caller: text::text_of(caller.as_slice()),
            locator: text::text_of(locator.as_slice()),
        },
    )
}

// ---- laws ----

/// A free text that holds our own callsign and square is never reported.
pub proof fn law_own_text_not_reported(t: Seq<char>, callsign: Seq<char>, grid: Seq<char>)
    requires
        is_own_text(t, callsign, grid),
    ensures
        wsjt_fields(t, callsign, grid) is None,
{
}

/// A reported free text has a square behind its caller, or is a general call.
pub proof fn law_reported_text(t: Seq<char>, callsign: Seq<char>, grid: Seq<char>)
    requires
        wsjt_fields(t, callsign, grid) is Some,
    ensures
        is_square(locator_word(words(t))) || is_cq_text(t),
{
}

/// A frame's reported locator is a square or empty, and its caller is not empty.
pub proof fn law_reported_frame(f: msg::FrameText, callsign: Seq<char>, grid: Seq<char>)
    requires
        js8_fields(f, callsign, grid) is Some,
    ensures
        (js8_fields(f, callsign, grid)->0).0.len() > 0,
        ({
            let l = (js8_fields(f, callsign, grid)->0).1;
            l.len() == 0 || is_square(l)
        }),
{
    let c = frame_sender(f)->0;
    if !(names_sender(f.kind) && text::trimmed(f.callsign).len() > 0) {
        let s = text::trimmed(f.text);
        let p = first_place(s, ':')->0;
        lemma_words_not_empty(text::trimmed(s.take(p)));
        assert(words(text::trimmed(s.take(p)))[0] == c);
    }
    match frame_square(f) {
        Some(g) => {
            assert(text::upper(g) =~= g);
        },
        None => {},
    }
}

proof fn lemma_words_not_empty(s: Seq<char>)
    ensures
        forall|i: int| 0 <= i < words(s).len() ==> (#[trigger] words(s)[i]).len() > 0,
    decreases s.len(),
{
    if s.len() > 0 {
        if text::is_white(s[0]) {
            lemma_words_not_empty(s.drop_first());
            assert(words(s) == words(s.drop_first()));
        } else {
            lemma_word_length(s);
            let n = word_length(s);
            let rest = words(s.skip(n as int));
            lemma_words_not_empty(s.skip(n as int));
            assert forall|i: int| 0 <= i < words(s).len() implies (#[trigger] words(s)[i]).len()
                > 0 by {
                if i > 0 {
                    assert(words(s)[i] == rest[i - 1]);
                }
            }
        }
    }
}

/// A frame from our callsign with another square is still reported.
pub proof fn law_mobile_frame_reported(f: msg::FrameText, callsign: Seq<char>, grid: Seq<char>)
    requires
        frame_sender(f) is Some,
        frame_square(f) matches Some(g) && text::upper(g) != text::upper(square4(grid)),
    ensures
        js8_fields(f, callsign, grid) is Some,
{
}

} // verus!

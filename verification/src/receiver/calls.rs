//! Texts as they are sent, and what is reported of them.
use crate::js8::msg;
use crate::receiver::spot;
use crate::receiver::spot::{wsjt_fields, words};
use crate::text;
use vstd::prelude::*;

verus! {

// ---- words ----

/// Whether a text is one word.
pub open spec fn is_word(w: Seq<char>) -> bool {
    w.len() > 0 && forall|i: int| 0 <= i < w.len() ==> !text::is_white(#[trigger] w[i])
}

/// A word is its only word.
pub proof fn law_one_word(w: Seq<char>)
    requires
        is_word(w),
    ensures
        words(w) == seq![w],
{
    spot::lemma_word_run(w, w.len());
    assert(w.take(w.len() as int) =~= w);
    assert(words(w.skip(w.len() as int)) =~= Seq::<Seq<char>>::empty());
    assert(words(w) =~= seq![w]);
}

/// White space parts a text: its words are those in front of it, and then those behind it.
pub proof fn law_words_parted(a: Seq<char>, c: char, b: Seq<char>)
    requires
        text::is_white(c),
    ensures
        words(a.push(c) + b) == words(a) + words(b),
    decreases a.len(),
{
    let t = a.push(c) + b;
    if a.len() == 0 {
        assert(t[0] == c);
        assert(t.drop_first() =~= b);
        assert(words(a) + words(b) =~= words(b));
    } else if text::is_white(a[0]) {
        assert(t[0] == a[0]);
        assert(t.drop_first() =~= a.drop_first().push(c) + b);
        law_words_parted(a.drop_first(), c, b);
    } else {
        let n = spot::word_length(a);
        spot::lemma_word_extent(a);
        assert forall|i: int| 0 <= i < n implies !text::is_white(#[trigger] t[i]) by {
            assert(t[i] == a[i]);
        }
        assert(t[n as int] == (if n < a.len() {
            a[n as int]
        } else {
            c
        }));
        spot::lemma_word_run(t, n);
        assert(t[0] == a[0]);
        assert(t.take(n as int) =~= a.take(n as int));
        assert(t.skip(n as int) =~= a.skip(n as int).push(c) + b);
        law_words_parted(a.skip(n as int), c, b);
        assert(words(t) =~= words(a) + words(b));
    }
}

/// Words with one space between each two.
pub open spec fn joined(ws: Seq<Seq<char>>) -> Seq<char>
    decreases ws.len(),
{
    if ws.len() == 0 {
        Seq::empty()
    } else if ws.len() == 1 {
        ws[0]
    } else {
        ws[0].push(' ') + joined(ws.skip(1))
    }
}

/// The words that a text was made of are its words.
pub proof fn law_words_of_joined(ws: Seq<Seq<char>>)
    requires
        forall|i: int| 0 <= i < ws.len() ==> is_word(#[trigger] ws[i]),
    ensures
        words(joined(ws)) == ws,
    decreases ws.len(),
{
    if ws.len() > 0 {
        assert(is_word(ws[0]));
        law_one_word(ws[0]);
        if ws.len() > 1 {
            let rest = ws.skip(1);
            assert forall|i: int| 0 <= i < rest.len() implies is_word(#[trigger] rest[i]) by {
                assert(rest[i] == ws[i + 1]);
            }
            law_words_of_joined(rest);
            law_words_parted(ws[0], ' ', joined(rest));
            assert(seq![ws[0]] + rest =~= ws);
        } else {
            assert(seq![ws[0]] =~= ws);
        }
    } else {
        assert(words(joined(ws)) =~= ws);
    }
}

// ---- squares and callsigns ----

/// Whether a character is a letter from `A` on to a given one.
pub open spec fn is_letter_to(c: char, last: char) -> bool {
    'A' <= c && c <= last
}

/// Two letters to `R` and two digits are a square, except `RR73`; with two letters to `X` behind
/// them all of them are.
pub proof fn law_squares(a: char, b: char, d: char, e: char, x: char, y: char)
    requires
        is_letter_to(a, 'R'),
        is_letter_to(b, 'R'),
        '0' <= d <= '9',
        '0' <= e <= '9',
    ensures
        spot::is_square(seq![a, b, d, e]) == (seq![a, b, d, e] != seq!['R', 'R', '7', '3']),
        spot::is_square(seq![a, b, d, e, x, y]) == (is_letter_to(x, 'X') && is_letter_to(y, 'X')),
{
    let g = seq![a, b, d, e];
    if g == seq!['R', 'R', '7', '3'] {
        assert(g[0] == 'R' && g[1] == 'R' && g[2] == '7' && g[3] == '3');
    } else if a == 'R' && b == 'R' && d == '7' && e == '3' {
        assert(g =~= seq!['R', 'R', '7', '3']);
    }
}

/// No other text is a square.
pub proof fn law_only_squares(g: Seq<char>)
    requires
        spot::is_square(g),
    ensures
        g.len() == 4 || g.len() == 6,
        is_letter_to(g[0], 'R') && is_letter_to(g[1], 'R'),
        '0' <= g[2] <= '9' && '0' <= g[3] <= '9',
{
}

/// The callsign proper of a compound callsign is the longer part, and the one behind the first `/`
/// when both are equally long. A callsign without `/` is its own.
pub proof fn law_base_call(front: Seq<char>, back: Seq<char>)
    requires
        forall|i: int| 0 <= i < front.len() ==> #[trigger] front[i] != '/',
    ensures
        spot::base_call(front) == front,
        spot::base_call(front.push('/') + back) == (if front.len() > back.len() {
            front
        } else {
            back
        }),
{
    let s = front.push('/') + back;
    let n = front.len() as int;
    spot::lemma_first_place(front, '/', n);
    assert forall|i: int| 0 <= i < n implies #[trigger] s[i] != '/' by {
        assert(s[i] == front[i]);
    }
    spot::lemma_first_place(s, '/', n);
    assert(s.take(n) =~= front);
    assert(s.skip(n + 1) =~= back);
}

// ---- free texts ----

/// Whether a text is another's: our callsign proper or our square is not in it, or is empty.
pub open spec fn is_foreign(t: Seq<char>, call: Seq<char>, square: Seq<char>) -> bool {
    ||| call.len() == 0
    ||| square.len() == 0
    ||| !text::occurs(t, call)
    ||| !text::occurs(t, square)
}

/// Whether a word is one, two, three or four capitals, or three digits.
pub open spec fn says_whom(t: Seq<char>) -> bool {
    ||| t.len() == 1 && is_letter_to(t[0], 'Z')
    ||| t.len() == 2 && is_letter_to(t[0], 'Z') && is_letter_to(t[1], 'Z')
    ||| t.len() == 3 && is_letter_to(t[0], 'Z') && is_letter_to(t[1], 'Z') && is_letter_to(
        t[2],
        'Z',
    )
    ||| t.len() == 4 && is_letter_to(t[0], 'Z') && is_letter_to(t[1], 'Z') && is_letter_to(
        t[2],
        'Z',
    ) && is_letter_to(t[3], 'Z')
    ||| t.len() == 3 && '0' <= t[0] <= '9' && '0' <= t[1] <= '9' && '0' <= t[2] <= '9'
}

proof fn lemma_says_whom(t: Seq<char>)
    ensures
        says_whom(t) == spot::is_tag(t),
{
    if says_whom(t) {
        if is_letter_to(t[0], 'Z') {
            assert forall|i: int| 0 <= i < t.len() implies text::is_capital(#[trigger] t[i]) by {
                assert(i == 0 || i == 1 || i == 2 || i == 3);
            }
        } else {
            assert forall|i: int| 0 <= i < 3 implies text::is_digit(#[trigger] t[i]) by {
                assert(i == 0 || i == 1 || i == 2);
            }
        }
    }
}

/// Whether a text is another's, by our callsign proper and the first four characters of our locator.
pub open spec fn is_foreign_text(t: Seq<char>, callsign: Seq<char>, grid: Seq<char>) -> bool {
    is_foreign(
        t,
        spot::base_call(callsign),
        grid.take(
            if grid.len() < 4 {
                grid.len() as int
            } else {
                4
            },
        ),
    )
}

/// A text with our callsign proper and our square in it is ours, and is not reported.
pub proof fn law_own_text(t: Seq<char>, callsign: Seq<char>, grid: Seq<char>)
    requires
        !is_foreign_text(t, callsign, grid),
    ensures
        wsjt_fields(t, callsign, grid) is None,
{
}

/// A call to some stations only: of the four words `CQ`, whom it is meant for, a callsign and
/// a square, in another's text, the callsign and the square are reported, in upper case. `QRZ` may
/// stand for `CQ`. Whom it is meant for is one to four capitals or three digits.
pub proof fn law_call_to_some_reported(
    t: Seq<char>,
    first: Seq<char>,
    whom: Seq<char>,
    call: Seq<char>,
    square: Seq<char>,
    callsign: Seq<char>,
    grid: Seq<char>,
)
    requires
        first == "CQ"@ || first == "QRZ"@,
        says_whom(whom),
        spot::is_square(square),
        words(t) == seq![first, whom, call, square],
        is_foreign_text(t, callsign, grid),
    ensures
        wsjt_fields(t, callsign, grid) == Some((text::upper(call), text::upper(square))),
{
    lemma_says_whom(whom);
    reveal_strlit("R");
    assert(square != "R"@);
}

/// A call to all, or an answer: of three words in another's text, a first one, a callsign and
/// a square, the callsign and the square are reported, unless the call only says whom it is meant
/// for. An `R` may stand between the callsign and the square.
pub proof fn law_call_or_answer_reported(
    t: Seq<char>,
    first: Seq<char>,
    call: Seq<char>,
    square: Seq<char>,
    callsign: Seq<char>,
    grid: Seq<char>,
)
    requires
        first != "CQ"@ && first != "QRZ"@ || !says_whom(call),
        spot::is_square(square),
        words(t) == seq![first, call, square] || words(t) == seq![first, call, "R"@, square],
        is_foreign_text(t, callsign, grid),
    ensures
        wsjt_fields(t, callsign, grid) == Some((text::upper(call), text::upper(square))),
{
    lemma_says_whom(call);
    reveal_strlit("R");
    assert(square != "R"@);
}

/// In a call to some stations an `R` may stand between the callsign and the square as well.
pub proof fn law_call_to_some_with_r(
    t: Seq<char>,
    first: Seq<char>,
    whom: Seq<char>,
    call: Seq<char>,
    square: Seq<char>,
    callsign: Seq<char>,
    grid: Seq<char>,
)
    requires
        first == "CQ"@ || first == "QRZ"@,
        says_whom(whom),
        spot::is_square(square),
        words(t) == seq![first, whom, call, "R"@, square],
        is_foreign_text(t, callsign, grid),
    ensures
        wsjt_fields(t, callsign, grid) == Some((text::upper(call), text::upper(square))),
{
    lemma_says_whom(whom);
}

/// A general call without a square is reported with what stands in the square's place.
pub proof fn law_call_without_square_reported(
    rest: Seq<char>,
    call: Seq<char>,
    callsign: Seq<char>,
    grid: Seq<char>,
)
    requires
        words(rest) == seq![call],
        is_foreign_text(seq!['C', 'Q', ' '] + rest, callsign, grid),
    ensures
        wsjt_fields(seq!['C', 'Q', ' '] + rest, callsign, grid) == Some(
            (text::upper(call), Seq::<char>::empty()),
        ),
{
    let t = seq!['C', 'Q', ' '] + rest;
    let cq = seq!['C', 'Q'];
    reveal_strlit("CQ");
    reveal_strlit("CQ ");
    reveal_strlit("R");
    law_one_word(cq);
    law_words_parted(cq, ' ', rest);
    assert(cq.push(' ') + rest =~= t);
    assert(words(t) =~= seq![cq, call]);
    assert(t.take(3) =~= "CQ "@);
    assert(text::upper(Seq::<char>::empty()) =~= Seq::<char>::empty());
}

proof fn lemma_cq_is_word(t: Seq<char>)
    requires
        spot::is_cq_text(t),
    ensures
        words(t).contains("CQ"@),
{
    let cq = seq!['C', 'Q'];
    reveal_strlit("CQ");
    reveal_strlit("CQ ");
    reveal_strlit(" CQ ");
    assert(cq =~= "CQ"@);
    law_one_word(cq);
    if t == "CQ"@ {
        assert(words(t)[0] == cq);
    } else if text::starts_with(t, "CQ "@) {
        assert(t.take(3)[0] == 'C' && t.take(3)[1] == 'Q' && t.take(3)[2] == ' ');
        assert(t =~= cq.push(' ') + t.skip(3));
        law_words_parted(cq, ' ', t.skip(3));
        assert(words(t)[0] == cq);
    } else {
        let i = choose|i: int| #[trigger] text::occurs_at(t, " CQ "@, i);
        let part = t.subrange(i, i + 4);
        assert(part[0] == ' ' && part[1] == 'C' && part[2] == 'Q' && part[3] == ' ');
        let front = t.take(i);
        let back = t.skip(i + 4);
        assert(t =~= front.push(' ') + (cq.push(' ') + back));
        law_words_parted(front, ' ', cq.push(' ') + back);
        law_words_parted(cq, ' ', back);
        assert(words(t)[words(front).len() as int] == cq);
    }
}

/// Nothing is reported of a text of fewer than two words, nor of three words without `CQ` among
/// them of which the last is no square.
pub proof fn law_not_reported(t: Seq<char>, callsign: Seq<char>, grid: Seq<char>)
    requires
        words(t).len() < 2 || words(t).len() == 2 && !words(t).contains("CQ"@) || words(t).len()
            == 3 && !words(t).contains("CQ"@) && words(t)[0] != "QRZ"@ && !spot::is_square(
            words(t)[2],
        ),
    ensures
        wsjt_fields(t, callsign, grid) is None,
{
    if words(t).len() >= 2 {
        assert(words(t)[0] != "CQ"@);
        if spot::is_cq_text(t) {
            lemma_cq_is_word(t);
        }
    }
}

// ---- frames ----

/// A data frame that begins with a callsign and a colon comes from that station.
pub proof fn law_data_frame_sender(call: Seq<char>, rest: Seq<char>)
    requires
        call.len() > 0,
        forall|i: int|
            0 <= i < call.len() ==> ('A' <= #[trigger] call[i] <= 'Z' || 'a' <= call[i] <= 'z'
                || '0' <= call[i] <= '9' || call[i] == '/' || call[i] == '.' || call[i] == '@'),
        rest.len() > 0 ==> !text::is_white(rest.last()),
    ensures
        spot::leading_call(call.push(':') + rest) == Some(call),
{
    let t = call.push(':') + rest;
    let n = call.len() as int;
    assert(t[0] == call[0]);
    assert(t.last() == (if rest.len() > 0 {
        rest.last()
    } else {
        ':'
    }));
    text::lemma_trimmed_id(t);
    assert forall|i: int| 0 <= i < n implies #[trigger] t[i] != ':' by {
        assert(t[i] == call[i]);
    }
    spot::lemma_first_place(t, ':', n);
    assert(t.take(n) =~= call);
    text::lemma_trimmed_id(call);
    assert(is_word(call));
    law_one_word(call);
}

/// A frame that names its sender in a field is reported with that sender, in upper case, and its
/// square: unless the sender is our own callsign proper and the square, if any, is our own.
pub proof fn law_named_sender_reported(
    f: msg::FrameText,
    square: Option<Seq<char>>,
    callsign: Seq<char>,
    grid: Seq<char>,
)
    requires
        f.kind < 4,
        is_word(f.callsign),
        f.grid == square,
        square matches Some(g) ==> spot::is_square(g),
        text::upper(f.callsign) != text::upper(spot::base_call(callsign)) || spot::base_call(
            callsign,
        ).len() == 0,
    ensures
        spot::js8_fields(f, callsign, grid) == Some(
            (
                text::upper(f.callsign),
                match square {
                    Some(g) => g,
                    None => Seq::empty(),
                },
            ),
        ),
{
    text::lemma_trimmed_id(f.callsign);
    if let Some(g) = square {
        text::lemma_trimmed_id(g);
        assert(text::upper(g) =~= g);
    }
}

/// Our own frames are not reported: those from our callsign proper with our square or none.
pub proof fn law_own_frame_not_reported(f: msg::FrameText, callsign: Seq<char>, grid: Seq<char>)
    requires
        f.kind < 4,
        is_word(f.callsign),
        spot::base_call(callsign).len() > 0,
        text::upper(f.callsign) == text::upper(spot::base_call(callsign)),
        f.grid is None || spot::is_square(f.grid->0) && grid.len() >= 4 && text::upper(f.grid->0)
            == text::upper(grid.take(4)),
    ensures
        spot::js8_fields(f, callsign, grid) is None,
{
    text::lemma_trimmed_id(f.callsign);
    if let Some(g) = f.grid {
        text::lemma_trimmed_id(g);
    }
}

} // verus!

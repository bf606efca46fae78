//! Frames as they are displayed: the stations, the command and the number all stand in the text.
use crate::js8::callsign;
use crate::js8::command;
use crate::js8::data::JscMap;
use crate::js8::frame;
use crate::js8::grid;
use crate::js8::msg;
use crate::js8::msg::frame_of;
use crate::js8::names;
use crate::js8::words;
use crate::text;
use vstd::prelude::*;

verus! {

/// Whether a text shows a number of at most two digits: the digits that it needs, a minus sign in
/// front of a negative number, and a plus sign in front of another one if signs are asked for.
pub open spec fn shows_number(t: Seq<char>, signed: bool, n: int) -> bool {
    &&& text::integer_value(t) == Some(n)
    &&& t.len() == (if -10 < n < 10 {
        1int
    } else {
        2
    }) + (if signed || n < 0 {
        1int
    } else {
        0
    })
    &&& signed || n < 0 ==> t[0] == (if n < 0 {
        '-'
    } else {
        '+'
    })
}

/// Whether a command's number is a signal report.
pub open spec fn is_report_name(cmd: Seq<char>) -> bool {
    cmd == "SNR"@ || cmd == "HEARTBEAT SNR"@
}

proof fn lemma_report_shows(n: int)
    requires
        -60 <= n <= 60,
    ensures
        command::report_text(n) matches Some(t) && shows_number(t, true, n),
{
    let m: nat = if n < 0 {
        (-n) as nat
    } else {
        n as nat
    };
    command::law_report_reads_back(n);
    text::lemma_decimal_len(m);
}

proof fn lemma_signed_decimal_shows(n: int)
    requires
        -100 < n < 100,
    ensures
        shows_number(text::signed_decimal(n), false, n),
{
    let m: nat = if n < 0 {
        (-n) as nat
    } else {
        n as nat
    };
    text::lemma_signed_decimal_value(n);
    text::lemma_decimal_len(m);
}

/// A directed message is displayed as the two stations, the command, and the number if there is
/// one: each behind the other with a space between them, and a space at the end. A signal report
/// always has a sign.
pub proof fn law_directed_displayed(bits: Seq<u8>, map: JscMap)
    requires
        frame_of(bits, map) is Some,
        frame_of(bits, map)->0.kind == 3,
    ensures
        ({
            let f = frame_of(bits, map)->0;
            let head = f.callsign + seq![' '] + f.to->0 + seq![' '] + f.cmd->0;
            &&& f.to is Some
            &&& f.cmd is Some
            &&& f.num is None ==> f.message == head + seq![' ']
            &&& f.num matches Some(n) ==> exists|t: Seq<char>| #[trigger]
                shows_number(t, is_report_name(f.cmd->0), n) && f.message == head + seq![' '] + t
                    + seq![' ']
        }),
{
    let f = frame_of(bits, map)->0;
    let head = f.callsign + seq![' '] + f.to->0 + seq![' '] + f.cmd->0;
    match f.num {
        None => {
            assert(head + Seq::<char>::empty() =~= head);
        },
        Some(n) => {
            let t = msg::number_text(f.cmd->0, n);
            lemma_report_shows(n);
            lemma_signed_decimal_shows(n);
            assert(shows_number(t, is_report_name(f.cmd->0), n));
            assert(f.message =~= head + seq![' '] + t + seq![' ']);
        },
    }
}

/// The text of a general call, by variant.
pub open spec fn general_call(bits3: int) -> Seq<char> {
    if bits3 == 0 {
        "CQ CQ CQ"@
    } else if bits3 == 1 {
        "CQ DX"@
    } else if bits3 == 2 {
        "CQ QRP"@
    } else if bits3 == 3 {
        "CQ CONTEST"@
    } else if bits3 == 4 {
        "CQ FIELD"@
    } else if bits3 == 5 {
        "CQ FD"@
    } else if bits3 == 6 {
        "CQ CQ"@
    } else {
        "CQ"@
    }
}

/// A heartbeat is displayed as the station with a colon, then `HEARTBEAT`, or `HB` in a variant
/// other than 0, or the general call of the variant, then the square if there is one: with a space
/// between them, and a space at the end.
pub proof fn law_heartbeat_displayed(bits: Seq<u8>, map: JscMap)
    requires
        frame_of(bits, map) is Some,
        frame_of(bits, map)->0.kind == 0,
    ensures
        ({
            let f = frame_of(bits, map)->0;
            let what = if f.is_alt {
                general_call(f.bits3 as int)
            } else if f.bits3 == 0 {
                "HEARTBEAT"@
            } else {
                "HB"@
            };
            let head = f.callsign + seq![':', ' '] + what;
            &&& f.bits3 < 8
            &&& f.grid is None ==> f.message == head + seq![' ']
            &&& f.grid matches Some(g) ==> g.len() == 4 && f.message == head + seq![' '] + g + seq![
                ' ',
            ]
        }),
{
    let f = frame_of(bits, map)->0;
    let what = if f.is_alt {
        general_call(f.bits3 as int)
    } else if f.bits3 == 0 {
        "HEARTBEAT"@
    } else {
        "HB"@
    };
    let head = f.callsign + seq![':', ' '] + what;
    assert(f.is_alt ==> what == msg::CQS[f.bits3 as int]@);
    match f.grid {
        None => {
            assert(head + Seq::<char>::empty() =~= head);
        },
        Some(g) => {
            assert(f.message =~= head + seq![' '] + g + seq![' ']);
        },
    }
}

/// What stands beside a callsign, and how it is taken apart.
proof fn lemma_extra(num: int)
    requires
        0 <= num < 0x1_0000,
        msg::compound_extra(num) is Some,
    ensures
        ({
            let e = msg::compound_extra(num)->0;
            let (cmd, n) = command::command_and_number(Some(e));
            &&& cmd is Some
            &&& n is None ==> e == cmd->0
            &&& n matches Some(v) ==> is_report_name(cmd->0) && exists|t: Seq<char>| #[trigger]
                shows_number(t, true, v) && e == cmd->0 + seq![' '] + t
        }),
{
    let e = msg::compound_extra(num)->0;
    reveal_strlit("SNR ");
    reveal_strlit("HEARTBEAT SNR ");
    reveal_strlit("SNR");
    reveal_strlit("HEARTBEAT SNR");
    if num <= grid::NBASEGRID {
        assert(e.len() == 4);
        text::lemma_trimmed_id(e);
        assert(e[2] != 'R');
        assert(!text::starts_with(e, "SNR "@)) by {
            if text::starts_with(e, "SNR "@) {
                assert(e.take(4)[2] == 'R');
            }
        }
    } else {
        let b = (num - grid::NUSERGRID) % 256;
        let c = command::command_of_byte(b).0->0;
        let n = command::command_of_byte(b).1;
        let name = command::DIRECTED_CMDS[c]@;
        if command::is_report(c) {
            lemma_report_shows(n);
            let t = command::report_text(n)->0;
            assert(e == name + seq![' '] + t);
            assert(e.len() > 0 && !text::is_white(e[0]));
            assert(text::is_digit(t.last())) by {
                let m: nat = if n < 0 {
                    (-n) as nat
                } else {
                    n as nat
                };
                text::lemma_decimal_value(m);
                text::lemma_decimal_len(m);
                assert(t.last() == text::decimal(m).last());
            }
            assert(e.last() == t.last());
            text::lemma_trimmed_id(e);
            if c == 25 {
                assert(e.take(4) =~= "SNR "@);
                assert(e.skip(4) =~= t);
            } else {
                assert(e.take(14) =~= "HEARTBEAT SNR "@);
                assert(e.skip(14) =~= t);
                assert(!text::starts_with(e, "SNR "@)) by {
                    assert(e.take(4)[0] == 'H');
                }
            }
            assert(shows_number(t, true, n));
        } else {
            names::lemma_command_plain(c);
        }
    }
}

/// A compound frame is displayed as the station with a colon, then the command if there is one, or
/// the square, which counts as one, then the number of a report: with a space between them, and a
/// space at the end.
pub proof fn law_compound_displayed(bits: Seq<u8>, map: JscMap)
    requires
        frame_of(bits, map) is Some,
        frame_of(bits, map)->0.kind == 1 || frame_of(bits, map)->0.kind == 2,
    ensures
        ({
            let f = frame_of(bits, map)->0;
            let head = f.callsign + seq![':'];
            &&& f.cmd is None ==> f.num is None && f.message == head + seq![' ']
            &&& f.cmd matches Some(c) ==> f.num is None ==> f.message == head + seq![' '] + c
                + seq![' ']
            &&& f.cmd matches Some(c) ==> f.num matches Some(n) ==> is_report_name(c) && exists|
                t: Seq<char>,
            | #[trigger]
                shows_number(t, true, n) && f.message == head + seq![' '] + c + seq![' '] + t
                    + seq![' ']
            &&& f.grid is Some ==> f.kind == 1 && f.grid == f.cmd && f.num is None
        }),
{
    let f = frame_of(bits, map)->0;
    let head = f.callsign + seq![':'];
    let w = crate::js8::bits::words_of_bits(bits);
    let num = msg::compound_num(w);
    let extra = msg::compound_extra(num);
    assert(0 <= num < 0x1_0000);
    match extra {
        None => {
            assert(head + Seq::<char>::empty() =~= head);
        },
        Some(e) => {
            lemma_extra(num);
            let (cmd, n) = command::command_and_number(extra);
            if let Some(v) = n {
                let t = choose|t: Seq<char>| #[trigger]
                    shows_number(t, true, v) && e == cmd->0 + seq![' '] + t;
                assert(f.message =~= head + seq![' '] + cmd->0 + seq![' '] + t + seq![' ']);
            } else {
                assert(f.message =~= head + seq![' '] + cmd->0 + seq![' ']);
            }
        },
    }
}

/// Beside a callsign the numbers up to 32400 are squares and those from 32410 on are commands: the
/// command of the table with that code, `SNR` from 128 further on and `HEARTBEAT SNR` from 192
/// further on, both with a number that is 31 less than what goes beyond that.
pub proof fn law_command_beside_callsign(c: int, n: int)
    requires
        0 <= c < 32,
        -31 <= n <= 32,
    ensures
        c != 25 && c != 29 ==> msg::compound_extra(32_410 + c) == Some(
            command::DIRECTED_CMDS[c]@,
        ),
        msg::compound_extra(32_410 + 128 + n + 31) matches Some(e) && exists|t: Seq<char>| #[trigger]
            shows_number(t, true, n) && e == "SNR"@ + seq![' '] + t,
        msg::compound_extra(32_410 + 192 + n + 31) matches Some(e) && exists|t: Seq<char>| #[trigger]
            shows_number(t, true, n) && e == "HEARTBEAT SNR"@ + seq![' '] + t,
{
    lemma_report_shows(n);
    let t = command::report_text(n)->0;
    assert(shows_number(t, true, n));
}

/// Beside a callsign the numbers 32401 to 32409, and those from 32767 on, say nothing.
pub proof fn law_nothing_beside_callsign(num: int)
    requires
        32_400 < num < 32_410 || 32_767 <= num,
    ensures
        msg::compound_extra(num) is None,
{
}

/// A station as it goes into a directed message, and comes out of it again as it was: a plain
/// callsign in upper case, without spaces, that does not begin as only the short forms of long
/// prefixes do, with or without `/P` behind it.
pub open spec fn is_plain_station(s: Seq<char>, portable: bool) -> bool {
    &&& text::position_from(callsign::BASECALLS@, s, 0) is None
    &&& callsign::packed28(s) is Some
    &&& text::upper(s) == s
    &&& forall|i: int| 0 <= i < s.len() ==> !text::is_white(#[trigger] s[i])
    &&& !text::ends_with(s, seq!['/', 'P'])
    &&& !text::starts_with(s, seq!['3', 'D', '0'])
    &&& !(s.len() >= 2 && s[0] == 'Q' && text::is_capital(s[1]))
    &&& portable ==> s.len() > 0
}

/// The mark of a portable station.
pub open spec fn mark(portable: bool) -> Seq<char> {
    if portable {
        seq!['/', 'P']
    } else {
        Seq::empty()
    }
}

proof fn lemma_station(s: Seq<char>, portable: bool)
    requires
        is_plain_station(s, portable),
    ensures
        msg::is_portable(s + mark(portable)) == portable,
        msg::fixed_call(s + mark(portable)) == s,
        callsign::unpacked28(callsign::packed28(s)->0, portable) == s + mark(portable),
{
    let t = s + mark(portable);
    text::lemma_trimmed_id(t);
    callsign::law_callsign_identity(s);
    if portable {
        assert(t.skip(t.len() - 2) =~= seq!['/', 'P']);
        assert(t.take(t.len() - 2) =~= s);
    } else {
        assert(t =~= s);
    }
}

/// A directed message between two plain stations that is packed, sent and received is displayed as
/// it was put in: `FROM TO COMMAND`, and the number between -30 and 31 if there is one.
pub proof fn law_directed_arrives(
    from: Seq<char>,
    from_portable: bool,
    to: Seq<char>,
    to_portable: bool,
    c: int,
    num: Option<int>,
    kind: u8,
    w: Seq<u8>,
    map: JscMap,
)
    requires
        is_plain_station(from, from_portable),
        is_plain_station(to, to_portable),
        0 <= c < 32,
        num matches Some(n) ==> -30 <= n <= 31,
        kind < 4,
        words::six_bit(w),
        msg::packed_directed(
            from + mark(from_portable),
            to + mark(to_portable),
            command::DIRECTED_CMDS[c]@,
            num,
        ) == Some(words::number72(w)),
    ensures
        frame_of(frame::message_bits(w, kind), map) matches Some(f) && f.kind == 3 && f.callsign
            == from + mark(from_portable) && f.to == Some(to + mark(to_portable)) && f.cmd == Some(
            command::DIRECTED_CMDS[c]@,
        ) && f.num == num,
        num is None ==> frame_of(frame::message_bits(w, kind), map)->0.message == from + mark(
            from_portable,
        ) + seq![' '] + (to + mark(to_portable)) + seq![' '] + command::DIRECTED_CMDS[c]@ + seq![
            ' ',
        ],
{
    lemma_station(from, from_portable);
    lemma_station(to, to_portable);
    names::law_command_name(c);
    msg::law_directed_received(
        from + mark(from_portable),
        to + mark(to_portable),
        command::DIRECTED_CMDS[c]@,
        num,
        kind,
        w,
        map,
    );
    law_directed_displayed(frame::message_bits(w, kind), map);
}

} // verus!

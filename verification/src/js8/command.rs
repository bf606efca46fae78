//! Directed commands: their table, their 8-bit form with a number, and signal reports.
use crate::text;
use vstd::prelude::*;

verus! {

/// Directed commands by code. Code 0 also answers to `?`.
pub const DIRECTED_CMDS: [&'static str; 32] = [
    "SNR?",
    "DIT DIT",
    "NACK",
    "HEARING?",
    "GRID?",
    ">",
    "STATUS?",
    "STATUS",
    "HEARING",
    "MSG",
    "MSG TO:",
    "QUERY",
    "QUERY MSGS",
    "QUERY CALL",
    "ACK",
    "GRID",
    "INFO?",
    "INFO",
    "FB",
    "HW CPY?",
    "SK",
    "RR",
    "QSL?",
    "QSL",
    "CMD",
    "SNR",
    "NO",
    "YES",
    "73",
    "HEARTBEAT SNR",
    "AGN?",
    "",
];

/// The text of a signal report between -60 and 60 dB: a sign and the digits.
pub open spec fn report_text(snr: int) -> Option<Seq<char>> {
    if snr < -60 || snr > 60 {
        None
    } else if snr < 0 {
        Some(seq!['-'] + text::decimal((-snr) as nat))
    } else {
        Some(seq!['+'] + text::decimal(snr as nat))
    }
}

/// Whether a command carries a signal report.
pub open spec fn is_report(cmd: int) -> bool {
    cmd == 25 || cmd == 29
}

/// The larger of `lo` and the smaller of `n` and `hi`.
pub open spec fn clamped(n: int, lo: int, hi: int) -> int {
    if n < lo {
        lo
    } else if n > hi {
        hi
    } else {
        n
    }
}

/// The code of a command name: `?` asks for the report, any other name stands in the table.
pub open spec fn command_code(name: Seq<char>) -> Option<int> {
    let t = text::trimmed(name);
    if t == seq!['?'] {
        Some(0)
    } else {
        text::position_from(DIRECTED_CMDS@, t, 0)
    }
}

/// The 8-bit form of a command: for a report the top bit, a bit for the heartbeat report and six
/// bits of number; for another command its code in seven bits.
pub open spec fn command_byte(cmd: int, num: int) -> int {
    if cmd == 29 {
        192 + num % 64
    } else if cmd == 25 {
        128 + num % 64
    } else {
        cmd % 128
    }
}

/// The command and number in an 8-bit form.
pub open spec fn command_of_byte(b: int) -> (Option<int>, int) {
    if b >= 192 {
        (Some(29), b % 64 - 31)
    } else if b >= 128 {
        (Some(25), b % 64 - 31)
    } else if b < 32 {
        (Some(b), 0)
    } else {
        (None, 0)
    }
}

/// A command name and number, taken apart again.
pub open spec fn command_and_number(extra: Option<Seq<char>>) -> (Option<Seq<char>>, Option<int>) {
    match extra {
        None => (None, None),
        Some(s) => {
            let t = text::trimmed(s);
            if text::starts_with(t, "SNR "@) {
                (
                    Some("SNR"@),
                    text::integer_within(t.skip(4), i16::MIN as int, i16::MAX as int),
                )
            } else if text::starts_with(t, "HEARTBEAT SNR "@) {
                (
                    Some("HEARTBEAT SNR"@),
                    text::integer_within(t.skip(14), i16::MIN as int, i16::MAX as int),
                )
            } else {
                (Some(t), None)
            }
        },
    }
}

/// Formats a signal report for display, such as `+20`.
pub fn format_snr(snr: i32) -> (r: Option<String>)
    ensures
        r is Some <==> report_text(snr as int) is Some,
        r matches Some(t) ==> report_text(snr as int) == Some(t@),
{
    if snr < -60 || snr > 60 {
        return None;
    }
    let mut out: Vec<char> = Vec::new();
    if snr < 0 {
        out.push('-');
        let body: Vec<char> = text::to_decimal((-snr) as u64);
        text::push_chars(&mut out, body.as_slice());
        assert(out@ == seq!['-'] + text::decimal((-snr) as nat));
    } else {
        out.push('+');
        let body: Vec<char> = text::to_decimal(snr as u64);
        text::push_chars(&mut out, body.as_slice());
        assert(out@ == seq!['+'] + text::decimal(snr as nat));
    }
    Some(text::text_of(out.as_slice()))
}

/// Whether a command carries a signal report.
pub fn is_snr(cmd_idx: usize) -> (r: bool)
    ensures
        r == is_report(cmd_idx as int),
{
    cmd_idx == 25 || cmd_idx == 29
}

/// Packs a number text into 1..=62: `clamp(n, -30, 31) + 31`. `None` when the text, without
/// the white space around it, is not a 32-bit integer.
pub fn pack_num(num: &str) -> (r: Option<u8>)
    ensures
        r is Some <==> text::integer_within(
            text::trimmed(num@),
            i32::MIN as int,
            i32::MAX as int,
        ) is Some,
        r matches Some(p) ==> p == clamped(
            text::integer_value(text::trimmed(num@))->0,
            -30,
            31,
        ) + 31,
{
    let chars: Vec<char> = text::chars_of(num);
    let t: Vec<char> = text::trim(chars.as_slice());
    match text::parse_i32(t.as_slice()) {
        Some(n) => {
            let c: i32 = if n < -30 {
                -30
            } else if n > 31 {
                31
            } else {
                n
            };
            Some((c + 31) as u8)
        },
        None => None,
    }
}

/// Looks up a command by name, without the white space around it.
pub fn cmd_index(name: &str) -> (r: Option<usize>)
    ensures
        r is Some <==> command_code(name@) is Some,
        r matches Some(i) ==> i < 32 && command_code(name@) == Some(i as int),
{
    let chars: Vec<char> = text::chars_of(name);
    let t: Vec<char> = text::trim(chars.as_slice());
    if t.len() == 1 && t[0] == '?' {
        assert(t@ == seq!['?']);
        return Some(0);
    }
    let table: [&'static str; 32] = DIRECTED_CMDS;
    text::position(table.as_slice(), t.as_slice())
}

/// Packs a command and its number into 8 bits.
pub fn pack_cmd(cmd_idx: usize, num: u8) -> (r: u8)
    ensures
        r == command_byte(cmd_idx as int, num as int),
{
    if cmd_idx == 29 {
        192 + num % 64
    } else if cmd_idx == 25 {
        128 + num % 64
    } else {
        (cmd_idx % 128) as u8
    }
}

/// Unpacks 8 bits into a command code. `pnum` is set to the number, 0 for a command without one.
pub fn unpack_cmd(value: u8, pnum: &mut Option<i16>) -> (r: Option<usize>)
    ensures
        r is Some <==> command_of_byte(value as int).0 is Some,
        r matches Some(i) ==> i < 32 && command_of_byte(value as int).0 == Some(i as int),
        *final(pnum) is Some,
        final(pnum)->0 == command_of_byte(value as int).1,
{
    if value >= 128 {
        *pnum = Some((value % 64) as i16 - 31);
        if value >= 192 {
            Some(29)
        } else {
            Some(25)
        }
    } else {
        *pnum = Some(0);
        if value < 32 {
            Some(value as usize)
        } else {
            None
        }
    }
}

/// Splits text such as `SNR +20` or `HEARTBEAT SNR -5` into command and number. Any other text
/// is a command without a number.
pub fn split_cmd_num(extra: Option<&str>) -> (r: (Option<String>, Option<i16>))
    ensures
        ({
            let want = command_and_number(
                match extra {
                    Some(s) => Some(s@),
                    None => None,
                },
            );
            &&& r.0 is Some <==> want.0 is Some
            &&& r.0 is Some ==> want.0 == Some(r.0->0@)
            &&& r.1 is Some <==> want.1 is Some
            &&& r.1 is Some ==> want.1 == Some(r.1->0 as int)
        }),
{
    match extra {
        None => (None, None),
        Some(s) => {
            proof {
                reveal_strlit("SNR ");
                reveal_strlit("HEARTBEAT SNR ");
            }
            let chars: Vec<char> = text::chars_of(s);
            let t: Vec<char> = text::trim(chars.as_slice());
            if text::begins_with(t.as_slice(), "SNR ") {
                let rest: Vec<char> = text::slice_of(t.as_slice(), 4, t.len());
                assert(rest@ == t@.skip(4));
                (Some("SNR".to_owned()), text::parse_i16(rest.as_slice()))
            } else if text::begins_with(t.as_slice(), "HEARTBEAT SNR ") {
                let rest: Vec<char> = text::slice_of(t.as_slice(), 14, t.len());
                assert(rest@ == t@.skip(14));
                (Some("HEARTBEAT SNR".to_owned()), text::parse_i16(rest.as_slice()))
            } else {
                (Some(text::text_of(t.as_slice())), None)
            }
        },
    }
}

/// The code of a command is a place of the table.
pub proof fn lemma_command_code_range(name: Seq<char>)
    ensures
        command_code(name) matches Some(c) ==> 0 <= c < 32,
{
    text::lemma_position(DIRECTED_CMDS@, text::trimmed(name), 0);
}

/// A packed command unpacks to itself: a report to its number in -31..=32, any other command of
/// the table to no number.
pub proof fn law_command_round_trip(cmd: int, num: int)
    requires
        0 <= cmd < 32,
        0 <= num < 64,
    ensures
        0 <= command_byte(cmd, num) < 256,
        is_report(cmd) ==> command_of_byte(command_byte(cmd, num)) == (Some(cmd), num - 31),
        !is_report(cmd) ==> command_of_byte(command_byte(cmd, num)) == (Some(cmd), 0int),
{
}

/// A displayed signal report reads back as the number it was made of.
pub proof fn law_report_reads_back(snr: int)
    requires
        -60 <= snr <= 60,
    ensures
        text::integer_value(report_text(snr)->0) == Some(snr),
{
    let s = report_text(snr)->0;
    let n: nat = if snr < 0 {
        (-snr) as nat
    } else {
        snr as nat
    };
    text::lemma_decimal_value(n);
    assert(s.drop_first() == text::decimal(n));
}

/// A number is brought to the nearest one within bounds: itself, if it lies within them.
pub proof fn law_clamped_is_nearest(n: int, lo: int, hi: int, m: int)
    requires
        lo <= m <= hi,
    ensures
        lo <= clamped(n, lo, hi) <= hi,
        lo <= n <= hi ==> clamped(n, lo, hi) == n,
        n <= m ==> clamped(n, lo, hi) <= m,
        m <= n ==> m <= clamped(n, lo, hi),
{
}

} // verus!

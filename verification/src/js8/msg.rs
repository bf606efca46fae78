//! Message frames: packing and unpacking of the frame families, and the dispatcher that turns 87
//! received message bits into a frame.
//!
//! A message is 72 payload bits, 3 type bits and 12 checksum bits. If the data bit of the type is
//! set, the payload is dictionary text. If it is not, and the first payload bit is set, the payload
//! is an older data frame. Otherwise the first three payload bits name the family: heartbeat,
//! compound, compound directed or directed.
use crate::js8::bits;
use crate::js8::callsign;
use crate::js8::command;
use crate::js8::data;
use crate::js8::data::JscMap;
use crate::js8::frame;
use crate::js8::grid;
use crate::js8::words;
use crate::text;
use vstd::prelude::*;

verus! {

/// Type bit of the first frame of a transmission.
pub const JS8_FIRST: u8 = 1;

/// Type bit of the last frame of a transmission.
pub const JS8_LAST: u8 = 2;

/// Type bit of a data frame.
pub const JS8_DATA: u8 = 4;

/// Heartbeat or general call.
pub const FRAME_HEARTBEAT: u8 = 0;

/// A compound callsign with a square or a command.
pub const FRAME_COMPOUND: u8 = 1;

/// A compound callsign that a directed message goes to.
pub const FRAME_COMPOUND_DIRECTED: u8 = 2;

/// A directed message.
pub const FRAME_DIRECTED: u8 = 3;

/// The general calls, by heartbeat variant.
pub const CQS: [&'static str; 8] = [
    "CQ CQ CQ",
    "CQ DX",
    "CQ QRP",
    "CQ CONTEST",
    "CQ FIELD",
    "CQ FD",
    "CQ CQ",
    "CQ",
];

/// A decoded frame.
#[derive(Debug, Clone, PartialEq, Eq)]
pub struct DecodedFrame {
    /// The family, or one of the data kinds.
    pub kind: u8,
    /// The sending station. Empty for data frames.
    pub callsign: String,
    /// Directed frames: the station that is called.
    pub to: Option<String>,
    /// The square, if the frame carries one.
    pub grid: Option<String>,
    /// The command name, if the frame carries one.
    pub cmd: Option<String>,
    /// The command's number, if the frame carries one.
    pub num: Option<i16>,
    /// Heartbeat variant.
    pub bits3: u8,
    /// Heartbeat: whether this is a general call.
    pub is_alt: bool,
    /// Data frames: the text.
    pub text: String,
    /// The frame as it is displayed.
    pub message: String,
}

impl DecodedFrame {
    /// An older data frame in the prefix code.
    pub const KIND_DATA_HUFF: u8 = 0x10;

    /// An older data frame in the dictionary code.
    pub const KIND_DATA_JSC_LEGACY: u8 = 0x11;

    /// A newer data frame.
    pub const KIND_DATA_JSC: u8 = 0x12;
}

/// What a decoded frame says.
pub struct FrameText {
    pub kind: u8,
    pub callsign: Seq<char>,
    pub to: Option<Seq<char>>,
    pub grid: Option<Seq<char>>,
    pub cmd: Option<Seq<char>>,
    pub num: Option<int>,
    pub bits3: u8,
    pub is_alt: bool,
    pub text: Seq<char>,
    pub message: Seq<char>,
}

/// The characters of an optional text.
pub open spec fn opt_text(o: Option<String>) -> Option<Seq<char>> {
    match o {
        Some(s) => Some(s@),
        None => None,
    }
}

/// An optional number without its width.
pub open spec fn opt_int(o: Option<i16>) -> Option<int> {
    match o {
        Some(n) => Some(n as int),
        None => None,
    }
}

impl View for DecodedFrame {
    type V = FrameText;

    open spec fn view(&self) -> FrameText {
        FrameText {
            kind: self.kind,
            callsign: self.callsign@,
            to: opt_text(self.to),
            grid: opt_text(self.grid),
            cmd: opt_text(self.cmd),
            num: opt_int(self.num),
            bits3: self.bits3,
            is_alt: self.is_alt,
            text: self.text@,
            message: self.message@,
        }
    }
}

// ---- compound frames ----

/// The payload number of a compound frame: three bits of family, 50 of callsign, 16 of number
/// and three of variant.
pub open spec fn compound_number(call: int, family: int, num: int, bits3: int) -> int {
    (family * 0x2000_0000_0000_0000 + call * 2048 + num / 32) * 256 + (num % 32) * 8 + bits3 % 8
}

/// The family in the first three payload bits.
pub open spec fn family_of(w: Seq<u8>) -> int {
    words::joined_value(w) as int / 0x2000_0000_0000_0000
}

/// The callsign of a compound frame.
pub open spec fn compound_call(w: Seq<u8>) -> Seq<char> {
    callsign::unpacked50(words::joined_value(w) as int / 2048 % 0x4_0000_0000_0000)
}

/// The number of a compound frame.
pub open spec fn compound_num(w: Seq<u8>) -> int {
    words::joined_value(w) as int % 2048 * 32 + words::joined_rest(w) as int / 8
}

/// The variant of a compound frame.
pub open spec fn compound_bits3(w: Seq<u8>) -> int {
    words::joined_rest(w) as int % 8
}

/// Packs a compound frame. `None` for a family above [`FRAME_DIRECTED`] and for a callsign that
/// packs to zero.
pub fn pack_compound_frame(callsign: &str, frame_type: u8, num: u16, bits3: u8) -> (r: Option<
    [u8; 12],
>)
    ensures
        r is Some <==> frame_type <= 3 && callsign::packed50(callsign@) != 0,
        r matches Some(w) ==> words::six_bit(w@) && words::number72(w@) == compound_number(
            callsign::packed50(callsign@),
            frame_type as int,
            num as int,
            bits3 as int,
        ),
{
    if frame_type > FRAME_DIRECTED {
        return None;
    }
    let call: u64 = callsign::pack_alphanumeric50(callsign);
    if call == 0 {
        return None;
    }
    let value: u64 = frame_type as u64 * 0x2000_0000_0000_0000 + call * 2048 + (num / 32) as u64;
    let rem: u8 = (num % 32) as u8 * 8 + bits3 % 8;
    words::pack_72bits(value, rem)
}

/// Unpacks a compound frame into family, callsign, number and variant. `None` for a family
/// above [`FRAME_DIRECTED`].
pub fn unpack_compound_frame(w: &[u8; 12]) -> (r: Option<(u8, String, u16, u8)>)
    ensures
        r is Some <==> family_of(w@) <= 3,
        r matches Some(f) ==> f.0 as int == family_of(w@) && f.1@ == compound_call(w@) && f.2 as int
            == compound_num(w@) && f.3 as int == compound_bits3(w@),
{
    let (value, rem) = words::unpack_72bits(w);
    let family: u8 = (value / 0x2000_0000_0000_0000) as u8;
    if family > 3 {
        return None;
    }
    let call: String = callsign::unpack_alphanumeric50(value / 2048 % 0x4_0000_0000_0000);
    let num: u16 = (value % 2048) as u16 * 32 + (rem / 8) as u16;
    Some((family, call, num, rem % 8))
}

/// What was packed into a compound frame comes out of it: the family, the callsign as its
/// 50-bit form keeps it, the number, and three bits of variant.
pub proof fn law_compound_round_trip(call: Seq<char>, family: int, num: int, bits3: int, w: Seq<u8>)
    requires
        0 <= family <= 3,
        0 <= num < 0x1_0000,
        0 <= bits3,
        words::six_bit(w),
        words::number72(w) == compound_number(callsign::packed50(call), family, num, bits3),
    ensures
        family_of(w) == family,
        compound_call(w) == callsign::unpacked50(callsign::packed50(call)),
        compound_num(w) == num,
        compound_bits3(w) == bits3 % 8,
{
    callsign::lemma_packed50_range(call);
    let p = callsign::packed50(call);
    let value = family * 0x2000_0000_0000_0000 + p * 2048 + num / 32;
    let rem = (num % 32) * 8 + bits3 % 8;
    words::law_72bits_round_trip(value as u64, rem as u8, w);
    assert(value / 0x2000_0000_0000_0000 == family);
    assert(value / 2048 == family * 0x4_0000_0000_0000 + p);
    assert(value / 2048 % 0x4_0000_0000_0000 == p);
    assert(value % 2048 == num / 32);
}

/// What a heartbeat says: callsign, square, whether it is a general call, and variant.
pub open spec fn heartbeat_of(w: Seq<u8>) -> Option<(Seq<char>, Option<Seq<char>>, bool, int)> {
    if family_of(w) != FRAME_HEARTBEAT {
        None
    } else {
        let g = grid::square_text(compound_num(w) % 0x8000);
        Some(
            (
                compound_call(w),
                if g.len() == 0 {
                    None
                } else {
                    Some(g)
                },
                compound_num(w) >= 0x8000,
                compound_bits3(w),
            ),
        )
    }
}

/// Unpacks a heartbeat or general call.
pub fn unpack_heartbeat(w: &[u8; 12]) -> (r: Option<(String, Option<String>, bool, u8)>)
    ensures
        r is Some <==> heartbeat_of(w@) is Some,
        r matches Some(f) ==> heartbeat_of(w@) == Some((f.0@, opt_text(f.1), f.2, f.3 as int)),
{
    match unpack_compound_frame(w) {
        None => None,
        Some((family, call, num, bits3)) => {
            if family != FRAME_HEARTBEAT {
                return None;
            }
            let g: String = grid::unpack_grid(num % 0x8000);
            let square: Option<String> = if g.as_str().is_empty() {
                None
            } else {
                Some(g)
            };
            Some((call, square, num >= 0x8000, bits3))
        },
    }
}

/// What stands beside the callsign of a compound frame: a square, or a command, which for a report
/// is followed by its number.
pub open spec fn compound_extra(num: int) -> Option<Seq<char>> {
    if num <= grid::NBASEGRID {
        Some(grid::square_text(num))
    } else if grid::NUSERGRID <= num < grid::NMAXGRID {
        match command::command_of_byte((num - grid::NUSERGRID) % 256) {
            (Some(c), n) => if command::is_report(c) {
                Some(command::DIRECTED_CMDS[c]@ + seq![' '] + command::report_text(n)->0)
            } else {
                Some(command::DIRECTED_CMDS[c]@)
            },
            (None, _) => None,
        }
    } else {
        None
    }
}

fn extra_text(num: u16) -> (r: Option<String>)
    ensures
        opt_text(r) == compound_extra(num as int),
{
    if num <= grid::NBASEGRID {
        Some(grid::unpack_grid(num))
    } else if grid::NUSERGRID <= num as u32 && num < grid::NMAXGRID {
        let mut n: Option<i16> = None;
        match command::unpack_cmd(((num as u32 - grid::NUSERGRID) % 256) as u8, &mut n) {
            Some(c) => {
                if command::is_snr(c) {
                    let mut out: Vec<char> = text::chars_of(command::DIRECTED_CMDS[c]);
                    out.push(' ');
                    if let Some(v) = n {
                        if let Some(s) = command::format_snr(v as i32) {
                            text::push_text(&mut out, s.as_str());
                        }
                    }
                    Some(text::text_of(out.as_slice()))
                } else {
                    Some(command::DIRECTED_CMDS[c].to_owned())
                }
            },
            None => None,
        }
    } else {
        None
    }
}

/// Unpacks a compound frame into family, callsign, and the square or command beside it.
pub fn unpack_compound(w: &[u8; 12]) -> (r: Option<(u8, String, Option<String>)>)
    ensures
        r is Some <==> family_of(w@) == FRAME_COMPOUND || family_of(w@) == FRAME_COMPOUND_DIRECTED,
        r matches Some(f) ==> f.0 as int == family_of(w@) && f.1@ == compound_call(w@) && opt_text(
            f.2,
        ) == compound_extra(compound_num(w@)),
{
    match unpack_compound_frame(w) {
        None => None,
        Some((family, call, num, _bits3)) => {
            if family != FRAME_COMPOUND && family != FRAME_COMPOUND_DIRECTED {
                return None;
            }
            Some((family, call, extra_text(num)))
        },
    }
}

// ---- directed frames ----

/// The six-bit form of a number: 31 more, between 0 and 62; 0 for no number.
pub open spec fn number_code(num: Option<int>) -> int {
    match num {
        Some(n) => command::clamped(n + 31, 0, 62),
        None => 0,
    }
}

/// Whether a station's text is that of a portable station.
pub open spec fn is_portable(s: Seq<char>) -> bool {
    let t = text::trimmed(s);
    t.len() > 2 && text::ends_with(t, seq!['/', 'P'])
}

/// A station's text without the mark of a portable station.
pub open spec fn fixed_call(s: Seq<char>) -> Seq<char> {
    let t = text::trimmed(s);
    if is_portable(s) {
        t.take(t.len() - 2)
    } else {
        t
    }
}

/// A bit as a number.
pub open spec fn bit(b: bool) -> int {
    if b {
        1
    } else {
        0
    }
}

/// The payload number of a directed frame: three bits of family, 28 for each station, five of
/// command, a bit for each portable station, and six of number.
pub open spec fn directed_number(
    from: int,
    to: int,
    cmd: int,
    from_p: bool,
    to_p: bool,
    num: int,
) -> int {
    (3 * 0x2000_0000_0000_0000 + from * 0x2_0000_0000 + to * 32 + cmd) * 256 + bit(from_p) * 128
        + bit(to_p) * 64 + num
}

/// The payload number of a directed frame, if the command and both stations can be packed.
pub open spec fn packed_directed(
    from: Seq<char>,
    to: Seq<char>,
    cmd: Seq<char>,
    num: Option<int>,
) -> Option<int> {
    match (
        command::command_code(cmd),
        callsign::packed28(fixed_call(from)),
        callsign::packed28(fixed_call(to)),
    ) {
        (Some(c), Some(f), Some(t)) => Some(
            directed_number(f, t, c, is_portable(from), is_portable(to), number_code(num)),
        ),
        _ => None,
    }
}

/// What a directed frame says: from, to, command and number.
pub open spec fn directed_of(w: Seq<u8>) -> Option<(Seq<char>, Seq<char>, Seq<char>, Option<int>)> {
    let v = words::joined_value(w) as int;
    let e = words::joined_rest(w) as int;
    if family_of(w) != FRAME_DIRECTED {
        None
    } else {
        Some(
            (
                callsign::unpacked28(v / 0x2_0000_0000 % 0x1000_0000, e >= 128),
                callsign::unpacked28(v / 32 % 0x1000_0000, e % 128 >= 64),
                command::DIRECTED_CMDS[v % 32]@,
                if e % 64 == 0 {
                    None
                } else {
                    Some(e % 64 - 31)
                },
            ),
        )
    }
}

/// Unpacks a directed frame into from, to, command and number.
pub fn unpack_directed(w: &[u8; 12]) -> (r: Option<(String, String, String, Option<i16>)>)
    ensures
        r is Some <==> directed_of(w@) is Some,
        r matches Some(f) ==> directed_of(w@) == Some((f.0@, f.1@, f.2@, opt_int(f.3))),
{
    let (value, extra) = words::unpack_72bits(w);
    if value / 0x2000_0000_0000_0000 != 3 {
        return None;
    }
    let from: String = callsign::unpack_callsign(
        (value / 0x2_0000_0000 % 0x1000_0000) as u32,
        extra >= 128,
    );
    let to: String = callsign::unpack_callsign(
        (value / 32 % 0x1000_0000) as u32,
        extra % 128 >= 64,
    );
    let cmd: String = command::DIRECTED_CMDS[(value % 32) as usize].to_owned();
    let num: Option<i16> = if extra % 64 == 0 {
        None
    } else {
        Some((extra % 64) as i16 - 31)
    };
    Some((from, to, cmd, num))
}

/// A station's text taken apart: the packed station, and whether it is portable.
fn pack_station(s: &str) -> (r: Option<(u32, bool)>)
    ensures
        r is Some <==> callsign::packed28(fixed_call(s@)) is Some,
        r matches Some(p) ==> callsign::packed28(fixed_call(s@)) == Some(p.0 as int) && p.1
            == is_portable(s@) && p.0 < 0x1000_0000,
{
    let chars: Vec<char> = text::chars_of(s);
    let mut t: Vec<char> = text::trim(chars.as_slice());
    let n: usize = t.len();
    let portable: bool = n > 2 && t[n - 2] == '/' && t[n - 1] == 'P';
    proof {
        if n > 2 {
            assert(t@.skip(n - 2)[0] == t@[n - 2] && t@.skip(n - 2)[1] == t@[n - 1]);
            if portable {
                assert(t@.skip(n - 2) == seq!['/', 'P']);
            }
        }
    }
    if portable {
        t.truncate(n - 2);
    }
    let call: String = text::text_of(t.as_slice());
    match callsign::pack_callsign(call.as_str()) {
        Some(p) => Some((p, portable)),
        None => None,
    }
}

/// The six bits of a command's number.
fn code_of_number(num: Option<i16>) -> (r: u8)
    ensures
        r == number_code(opt_int(num)),
        r < 64,
{
    match num {
        Some(n) => {
            let m: i32 = n as i32 + 31;
            if m < 0 {
                0
            } else if m > 62 {
                62
            } else {
                m as u8
            }
        },
        None => 0,
    }
}

/// The words of a directed frame's fields.
fn directed_words(f: u32, t: u32, c: usize, fp: bool, tp: bool, n: u8) -> (r: Option<[u8; 12]>)
    requires
        f < 0x1000_0000,
        t < 0x1000_0000,
        c < 32,
        n < 64,
    ensures
        r is Some,
        words::six_bit(r->0@),
        words::number72(r->0@) == directed_number(
            f as int,
            t as int,
            c as int,
            fp,
            tp,
            n as int,
        ),
{
    let value: u64 = 3 * 0x2000_0000_0000_0000 + f as u64 * 0x2_0000_0000 + t as u64 * 32
        + c as u64;
    let extra: u8 = (if fp {
        128u8
    } else {
        0u8
    }) + (if tp {
        64u8
    } else {
        0u8
    }) + n;
    words::pack_72bits(value, extra)
}

/// Packs a directed frame. `None` if the command is not in the table or a station cannot
/// be packed.
pub fn pack_directed(from: &str, to: &str, cmd: &str, num: Option<i16>) -> (r: Option<[u8; 12]>)
    ensures
        r is Some <==> packed_directed(from@, to@, cmd@, opt_int(num)) is Some,
        r matches Some(w) ==> words::six_bit(w@) && packed_directed(from@, to@, cmd@, opt_int(num))
            == Some(words::number72(w@)),
{
    let c: usize = match command::cmd_index(cmd) {
        Some(c) => c,
        None => return None,
    };
    let n: u8 = code_of_number(num);
    let (f, fp) = match pack_station(from) {
        Some(p) => p,
        None => return None,
    };
    let (t, tp) = match pack_station(to) {
        Some(p) => p,
        None => return None,
    };
    directed_words(f, t, c, fp, tp, n)
}

proof fn lemma_directed_value(f: int, t: int, c: int)
    requires
        0 <= f < 0x1000_0000,
        0 <= t < 0x1000_0000,
        0 <= c < 32,
    ensures
        ({
            let value = 3 * 0x2000_0000_0000_0000 + f * 0x2_0000_0000 + t * 32 + c;
            &&& value / 0x2000_0000_0000_0000 == 3
            &&& value / 0x2_0000_0000 % 0x1000_0000 == f
            &&& value / 32 % 0x1000_0000 == t
            &&& value % 32 == c
        }),
{
    let value = 3 * 0x2000_0000_0000_0000 + f * 0x2_0000_0000 + t * 32 + c;
    vstd::arithmetic::div_mod::lemma_fundamental_div_mod_converse(
        value,
        0x2000_0000_0000_0000,
        3,
        f * 0x2_0000_0000 + t * 32 + c,
    );
    vstd::arithmetic::div_mod::lemma_fundamental_div_mod_converse(value, 0x2_0000_0000, 3 * 0x1000_0000 + f, t * 32 + c);
    vstd::arithmetic::div_mod::lemma_fundamental_div_mod_converse(3 * 0x1000_0000 + f, 0x1000_0000, 3, f);
    vstd::arithmetic::div_mod::lemma_fundamental_div_mod_converse(value, 32, (3 * 0x1000_0000 + f) * 0x1000_0000 + t, c);
    vstd::arithmetic::div_mod::lemma_fundamental_div_mod_converse(
        (3 * 0x1000_0000 + f) * 0x1000_0000 + t,
        0x1000_0000,
        3 * 0x1000_0000 + f,
        t,
    );
}

proof fn lemma_directed_fields(
    f: int,
    t: int,
    c: int,
    fp: bool,
    tp: bool,
    n: int,
    w: Seq<u8>,
)
    requires
        words::six_bit(w),
        0 <= f < 0x1000_0000,
        0 <= t < 0x1000_0000,
        0 <= c < 32,
        0 <= n < 64,
        words::number72(w) == directed_number(f, t, c, fp, tp, n),
    ensures
        family_of(w) == 3,
        words::joined_value(w) as int / 0x2_0000_0000 % 0x1000_0000 == f,
        words::joined_value(w) as int / 32 % 0x1000_0000 == t,
        words::joined_value(w) as int % 32 == c,
        (words::joined_rest(w) >= 128) == fp,
        (words::joined_rest(w) as int % 128 >= 64) == tp,
        words::joined_rest(w) as int % 64 == n,
{
    let value = 3 * 0x2000_0000_0000_0000 + f * 0x2_0000_0000 + t * 32 + c;
    let rem = bit(fp) * 128 + bit(tp) * 64 + n;
    words::law_72bits_round_trip(value as u64, rem as u8, w);
    lemma_directed_value(f, t, c);
}

/// What was packed into a directed frame comes out of it: both stations as their 28-bit form
/// keeps them, the command, and the number within -30..=31.
pub proof fn law_directed_round_trip(
    from: Seq<char>,
    to: Seq<char>,
    cmd: Seq<char>,
    num: Option<int>,
    w: Seq<u8>,
)
    requires
        words::six_bit(w),
        packed_directed(from, to, cmd, num) == Some(words::number72(w)),
    ensures
        directed_of(w) == Some(
            (
                callsign::unpacked28(callsign::packed28(fixed_call(from))->0, is_portable(from)),
                callsign::unpacked28(callsign::packed28(fixed_call(to))->0, is_portable(to)),
                command::DIRECTED_CMDS[command::command_code(cmd)->0]@,
                if number_code(num) == 0 {
                    None
                } else {
                    Some(number_code(num) - 31)
                },
            ),
        ),
{
    callsign::lemma_packed28_range(fixed_call(from));
    callsign::lemma_packed28_range(fixed_call(to));
    command::lemma_command_code_range(cmd);
    lemma_directed_fields(
        callsign::packed28(fixed_call(from))->0,
        callsign::packed28(fixed_call(to))->0,
        command::command_code(cmd)->0,
        is_portable(from),
        is_portable(to),
        number_code(num),
        w,
    );
}

// ---- received messages ----

/// A data frame with a given text.
pub open spec fn data_frame(kind: u8, t: Seq<char>) -> FrameText {
    FrameText {
        kind,
        callsign: Seq::empty(),
        to: None,
        grid: None,
        cmd: None,
        num: None,
        bits3: 0,
        is_alt: false,
        text: t,
        message: t,
    }
}

/// The frame of a heartbeat: `CALL: HEARTBEAT SQUARE`, or a general call in its place.
pub open spec fn heartbeat_frame(w: Seq<u8>) -> Option<FrameText> {
    match heartbeat_of(w) {
        None => None,
        Some((call, square, alt, bits3)) => {
            let what = if alt {
                CQS[bits3]@
            } else if bits3 == 0 {
                "HEARTBEAT"@
            } else {
                "HB"@
            };
            let place = match square {
                Some(g) => seq![' '] + g,
                None => Seq::empty(),
            };
            Some(
                FrameText {
                    kind: FRAME_HEARTBEAT,
                    callsign: call,
                    to: None,
                    grid: square,
                    cmd: None,
                    num: None,
                    bits3: bits3 as u8,
                    is_alt: alt,
                    text: Seq::empty(),
                    message: call + seq![':', ' '] + what + place + seq![' '],
                },
            )
        },
    }
}

/// The square beside the callsign of a compound frame, where its number is one.
pub open spec fn compound_square(num: int) -> Option<Seq<char>> {
    if num <= grid::NBASEGRID {
        Some(grid::square_text(num))
    } else {
        None
    }
}

/// The frame of a compound call: `CALL: SQUARE` or `CALL: COMMAND`. The plain family counts a
/// square as the place of the station.
pub open spec fn compound_frame(w: Seq<u8>) -> Option<FrameText> {
    if family_of(w) != FRAME_COMPOUND && family_of(w) != FRAME_COMPOUND_DIRECTED {
        None
    } else {
        let extra = compound_extra(compound_num(w));
        let (cmd, num) = command::command_and_number(extra);
        let beside = match extra {
            Some(e) => seq![' '] + e,
            None => Seq::empty(),
        };
        Some(
            FrameText {
                kind: family_of(w) as u8,
                callsign: compound_call(w),
                to: None,
                grid: if family_of(w) == FRAME_COMPOUND {
                    compound_square(compound_num(w))
                } else {
                    None
                },
                cmd,
                num,
                bits3: 0,
                is_alt: false,
                text: Seq::empty(),
                message: compound_call(w) + seq![':'] + beside + seq![' '],
            },
        )
    }
}

/// How the number of a directed command is displayed: a report with its sign.
pub open spec fn number_text(cmd: Seq<char>, n: int) -> Seq<char> {
    if cmd == "SNR"@ || cmd == "HEARTBEAT SNR"@ {
        match command::report_text(n) {
            Some(t) => t,
            None => Seq::empty(),
        }
    } else {
        text::signed_decimal(n)
    }
}

/// The frame of a directed message: `FROM TO COMMAND NUMBER`.
pub open spec fn directed_frame(w: Seq<u8>) -> Option<FrameText> {
    match directed_of(w) {
        None => None,
        Some((from, to, cmd, num)) => {
            let behind = match num {
                Some(n) => seq![' '] + number_text(cmd, n),
                None => Seq::empty(),
            };
            Some(
                FrameText {
                    kind: FRAME_DIRECTED,
                    callsign: from,
                    to: Some(to),
                    grid: None,
                    cmd: Some(cmd),
                    num,
                    bits3: 0,
                    is_alt: false,
                    text: Seq::empty(),
                    message: from + seq![' '] + to + seq![' '] + cmd + behind + seq![' '],
                },
            )
        },
    }
}

/// The frame of twelve payload words, type bits, and the three leading payload bits.
pub open spec fn frame_of_words(w: Seq<u8>, kind: u8, lead: u8, first: u8, map: JscMap) -> Option<
    FrameText,
> {
    if kind & JS8_DATA != 0 {
        match data::fast_text(w, map) {
            Some(t) => Some(data_frame(DecodedFrame::KIND_DATA_JSC, t)),
            None => None,
        }
    } else if first == 1 {
        match data::legacy_text(w, map) {
            Some((k, t)) => if t.len() == 0 {
                None
            } else {
                Some(data_frame(k, t))
            },
            None => None,
        }
    } else if lead == FRAME_HEARTBEAT {
        heartbeat_frame(w)
    } else if lead == FRAME_COMPOUND || lead == FRAME_COMPOUND_DIRECTED {
        compound_frame(w)
    } else if lead == FRAME_DIRECTED {
        directed_frame(w)
    } else {
        None
    }
}

/// The frame that 87 message bits carry, if their checksum holds.
pub open spec fn frame_of(msg: Seq<u8>, map: JscMap) -> Option<FrameText> {
    if !frame::crc_holds(msg) {
        None
    } else {
        frame_of_words(
            bits::words_of_bits(msg),
            bits::shifted8(msg.subrange(72, 75)),
            bits::shifted8(msg.subrange(0, 3)),
            msg[0],
            map,
        )
    }
}

fn words_of(msg: &[u8; 87]) -> (r: [u8; 12])
    ensures
        r@ == bits::words_of_bits(msg@),
{
    let mut w: [u8; 12] = [0;12];
    for i in 0..12usize
        invariant
            forall|k: int| 0 <= k < i ==> #[trigger] w@[k] == bits::words_of_bits(msg@)[k],
    {
        w[i] = bits::shift8(msg.as_slice(), 6 * i, 6 * i + 6);
    }
    assert(w@ =~= bits::words_of_bits(msg@));
    w
}

fn frame_of_data(kind: u8, t: String) -> (r: DecodedFrame)
    ensures
        r@ == data_frame(kind, t@),
{
    let message: String = t.clone();
    DecodedFrame {
        kind,
        callsign: String::new(),
        to: None,
        grid: None,
        cmd: None,
        num: None,
        bits3: 0,
        is_alt: false,
        text: t,
        message,
    }
}

fn read_heartbeat(w: &[u8; 12]) -> (r: Option<DecodedFrame>)
    ensures
        r is Some <==> heartbeat_frame(w@) is Some,
        r matches Some(f) ==> heartbeat_frame(w@) == Some(f@),
{
    match unpack_heartbeat(w) {
        None => None,
        Some((call, square, alt, bits3)) => {
            let mut m: Vec<char> = text::chars_of(call.as_str());
            m.push(':');
            m.push(' ');
            if alt {
                text::push_text(&mut m, CQS[bits3 as usize]);
            } else if bits3 == 0 {
                text::push_text(&mut m, "HEARTBEAT");
            } else {
                text::push_text(&mut m, "HB");
            }
            if let Some(g) = &square {
                m.push(' ');
                text::push_text(&mut m, g.as_str());
            }
            m.push(' ');
            let f: DecodedFrame = DecodedFrame {
                kind: FRAME_HEARTBEAT,
                callsign: call,
                to: None,
                grid: square,
                cmd: None,
                num: None,
                bits3,
                is_alt: alt,
                text: String::new(),
                message: text::text_of(m.as_slice()),
            };
            assert(f@.message =~= heartbeat_frame(w@)->0.message);
            Some(f)
        },
    }
}

fn copy_opt(o: &Option<String>) -> (r: Option<String>)
    ensures
        opt_text(r) == opt_text(*o),
{
    match o {
        Some(s) => Some(s.clone()),
        None => None,
    }
}

fn read_compound(w: &[u8; 12]) -> (r: Option<DecodedFrame>)
    ensures
        r is Some <==> compound_frame(w@) is Some,
        r matches Some(f) ==> compound_frame(w@) == Some(f@),
{
    match unpack_compound_frame(w) {
        None => None,
        Some((family, call, n, _bits3)) => {
            if family != FRAME_COMPOUND && family != FRAME_COMPOUND_DIRECTED {
                return None;
            }
            let extra: Option<String> = extra_text(n);
            let mut m: Vec<char> = text::chars_of(call.as_str());
            m.push(':');
            if let Some(e) = &extra {
                m.push(' ');
                text::push_text(&mut m, e.as_str());
            }
            m.push(' ');
            let (cmd, num) = match &extra {
                Some(e) => command::split_cmd_num(Some(e.as_str())),
                None => command::split_cmd_num(None),
            };
            let square: Option<String> = if family == FRAME_COMPOUND && n <= grid::NBASEGRID {
                copy_opt(&extra)
            } else {
                None
            };
            let f: DecodedFrame = DecodedFrame {
                kind: family,
                callsign: call,
                to: None,
                grid: square,
                cmd,
                num,
                bits3: 0,
                is_alt: false,
                text: String::new(),
                message: text::text_of(m.as_slice()),
            };
            assert(f@.message =~= compound_frame(w@)->0.message);
            Some(f)
        },
    }
}

fn read_directed(w: &[u8; 12]) -> (r: Option<DecodedFrame>)
    ensures
        r is Some <==> directed_frame(w@) is Some,
        r matches Some(f) ==> directed_frame(w@) == Some(f@),
{
    match unpack_directed(w) {
        None => None,
        Some((from, to, cmd, num)) => {
            let mut m: Vec<char> = text::chars_of(from.as_str());
            m.push(' ');
            text::push_text(&mut m, to.as_str());
            m.push(' ');
            text::push_text(&mut m, cmd.as_str());
            if let Some(n) = num {
                m.push(' ');
                let c: Vec<char> = text::chars_of(cmd.as_str());
                if text::same_text(c.as_slice(), "SNR") || text::same_text(
                    c.as_slice(),
                    "HEARTBEAT SNR",
                ) {
                    if let Some(s) = command::format_snr(n as i32) {
                        text::push_text(&mut m, s.as_str());
                    }
                } else {
                    let s: Vec<char> = text::to_signed_decimal(n as i32);
                    text::push_chars(&mut m, s.as_slice());
                }
            }
            m.push(' ');
            let f: DecodedFrame = DecodedFrame {
                kind: FRAME_DIRECTED,
                callsign: from,
                to: Some(to),
                grid: None,
                cmd: Some(cmd),
                num,
                bits3: 0,
                is_alt: false,
                text: String::new(),
                message: text::text_of(m.as_slice()),
            };
            assert(f@.message =~= directed_frame(w@)->0.message);
            Some(f)
        },
    }
}

/// Unpacks 87 message bits into a frame. `None` if the checksum does not hold, the family is
/// unknown, or the payload is none of its family.
pub fn unpack_frame(msg: &[u8; 87], map: &JscMap) -> (r: Option<DecodedFrame>)
    requires
        map.wf(),
    ensures
        r is Some <==> frame_of(msg@, *map) is Some,
        r matches Some(f) ==> frame_of(msg@, *map) == Some(f@),
{
    if !frame::check_crc(msg) {
        return None;
    }
    let w: [u8; 12] = words_of(msg);
    let kind: u8 = bits::shift8(msg.as_slice(), 72, 75);
    if kind & JS8_DATA != 0 {
        return match data::unpack_fast_data(&w, map) {
            Some(t) => Some(frame_of_data(DecodedFrame::KIND_DATA_JSC, t)),
            None => None,
        };
    }
    if msg[0] == 1 {
        return match data::unpack_legacy_data(&w, map) {
            Some((k, t)) => {
                if t.as_str().is_empty() {
                    None
                } else {
                    Some(frame_of_data(k, t))
                }
            },
            None => None,
        };
    }
    let lead: u8 = bits::shift8(msg.as_slice(), 0, 3);
    if lead == FRAME_HEARTBEAT {
        read_heartbeat(&w)
    } else if lead == FRAME_COMPOUND || lead == FRAME_COMPOUND_DIRECTED {
        read_compound(&w)
    } else if lead == FRAME_DIRECTED {
        read_directed(&w)
    } else {
        None
    }
}

/// The family of six-bit words is the upper half of the first one.
proof fn lemma_family(w: Seq<u8>)
    requires
        words::six_bit(w),
    ensures
        family_of(w) == w[0] as int / 8,
{
    words::lemma_joined(w);
    let v = words::joined_value(w) as int;
    let a = ((w[1] * 64 + w[2]) * 64 + w[3]) * 64 + w[4];
    let b = (((a * 64 + w[5]) * 64 + w[6]) * 64 + w[7]) * 64 + w[8];
    let low = (b * 64 + w[9]) * 16 + w[10] as int / 4;
    assert(v == w[0] as int * 0x400_0000_0000_0000 + low);
    vstd::arithmetic::div_mod::lemma_fundamental_div_mod_converse(
        v,
        0x2000_0000_0000_0000,
        w[0] as int / 8,
        (w[0] as int % 8) * 0x400_0000_0000_0000 + low,
    );
}

/// The types below 4 are those without the data bit.
pub(crate) proof fn lemma_no_data_bit(kind: u8)
    requires
        kind < 8,
    ensures
        (kind & JS8_DATA == 0) == (kind < 4),
{
    assert((kind & 4 == 0) == (kind < 4)) by (bit_vector)
        requires
            kind < 8,
    ;
}

/// A message that carries six-bit words and a type is received as the frame of these words.
pub proof fn law_message_received(w: Seq<u8>, kind: u8, map: JscMap)
    requires
        words::six_bit(w),
        kind < 8,
    ensures
        frame_of(frame::message_bits(w, kind), map) == frame_of_words(
            w,
            kind,
            family_of(w) as u8,
            (w[0] / 32) as u8,
            map,
        ),
{
    let msg = frame::message_bits(w, kind);
    frame::law_message_checks(w, kind);
    frame::law_message_words(w, kind);
    frame::law_message_type(w, kind);
    frame::lemma_message_lead(w, kind);
    lemma_family(w);
}

/// A heartbeat that is packed, sent and received says what went in: the callsign, the square
/// of the number's low 15 bits, the general-call bit and the variant.
pub proof fn law_heartbeat_received(
    call: Seq<char>,
    num: int,
    bits3: int,
    kind: u8,
    w: Seq<u8>,
    map: JscMap,
)
    requires
        callsign::fits50(call),
        0 <= num < 0x1_0000,
        0 <= bits3 < 8,
        kind < 4,
        words::six_bit(w),
        words::number72(w) == compound_number(callsign::packed50(call), 0, num, bits3),
    ensures
        frame_of(frame::message_bits(w, kind), map) matches Some(f) && f.kind == FRAME_HEARTBEAT
            && f.callsign == call && f.is_alt == (num >= 0x8000) && f.bits3 == bits3 && f.grid == (
        if num % 0x8000 > grid::NBASEGRID {
            None::<Seq<char>>
        } else {
            Some(grid::square_text(num % 0x8000))
        }),
{
    law_message_received(w, kind, map);
    law_compound_round_trip(call, 0, num, bits3, w);
    callsign::law_alphanumeric50_identity(call);
    grid::lemma_square_text_len(num % 0x8000);
    lemma_family(w);
    lemma_no_data_bit(kind);
}

/// A compound frame that is packed, sent and received says what went in: the callsign, and beside
/// it the square or the command that the number stands for.
pub proof fn law_compound_received(
    call: Seq<char>,
    family: int,
    num: int,
    bits3: int,
    kind: u8,
    w: Seq<u8>,
    map: JscMap,
)
    requires
        family == FRAME_COMPOUND || family == FRAME_COMPOUND_DIRECTED,
        callsign::fits50(call),
        0 <= num < 0x1_0000,
        0 <= bits3,
        kind < 4,
        words::six_bit(w),
        words::number72(w) == compound_number(callsign::packed50(call), family, num, bits3),
    ensures
        frame_of(frame::message_bits(w, kind), map) matches Some(f) && f.kind == family
            && f.callsign == call && f.grid == (if family == FRAME_COMPOUND {
            compound_square(num)
        } else {
            None
        }) && f.cmd == command::command_and_number(compound_extra(num)).0 && f.num
            == command::command_and_number(compound_extra(num)).1,
{
    law_message_received(w, kind, map);
    law_compound_round_trip(call, family, num, bits3, w);
    callsign::law_alphanumeric50_identity(call);
    lemma_family(w);
    lemma_no_data_bit(kind);
}

/// A directed message that is packed, sent and received says what went in, as the 28-bit
/// form keeps both stations.
pub proof fn law_directed_received(
    from: Seq<char>,
    to: Seq<char>,
    cmd: Seq<char>,
    num: Option<int>,
    kind: u8,
    w: Seq<u8>,
    map: JscMap,
)
    requires
        kind < 4,
        words::six_bit(w),
        packed_directed(from, to, cmd, num) == Some(words::number72(w)),
    ensures
        frame_of(frame::message_bits(w, kind), map) matches Some(f) && f.kind == FRAME_DIRECTED
            && f.callsign == callsign::unpacked28(
            callsign::packed28(fixed_call(from))->0,
            is_portable(from),
        ) && f.to == Some(
            callsign::unpacked28(callsign::packed28(fixed_call(to))->0, is_portable(to)),
        ) && f.cmd == Some(command::DIRECTED_CMDS[command::command_code(cmd)->0]@) && f.num == (
        if number_code(num) == 0 {
            None::<int>
        } else {
            Some(number_code(num) - 31)
        }),
{
    law_message_received(w, kind, map);
    law_directed_round_trip(from, to, cmd, num, w);
    lemma_family(w);
    lemma_no_data_bit(kind);
}

} // verus!

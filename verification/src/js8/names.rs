//! The names in the command and group tables are told apart by a few of their characters, so
//! each one is found at its own place.
use crate::js8::callsign;
use crate::js8::command;
use crate::text;
use vstd::prelude::*;

verus! {

/// The place of a command name in its table, told from its length and its end characters.
spec fn command_place(s: Seq<char>) -> int {
    if s.len() == 0 {
        31
    } else if s.len() == 4 && s[0] == 'S' && s.last() == '?' {
        0
    } else if s.len() == 7 && s[0] == 'D' && s.last() == 'T' {
        1
    } else if s.len() == 4 && s[0] == 'N' && s.last() == 'K' {
        2
    } else if s.len() == 8 && s[0] == 'H' && s.last() == '?' {
        3
    } else if s.len() == 5 && s[0] == 'G' && s.last() == '?' {
        4
    } else if s.len() == 1 && s[0] == '>' && s.last() == '>' {
        5
    } else if s.len() == 7 && s[0] == 'S' && s.last() == '?' {
        6
    } else if s.len() == 6 && s[0] == 'S' && s.last() == 'S' {
        7
    } else if s.len() == 7 && s[0] == 'H' && s.last() == 'G' {
        8
    } else if s.len() == 3 && s[0] == 'M' && s.last() == 'G' {
        9
    } else if s.len() == 7 && s[0] == 'M' && s.last() == ':' {
        10
    } else if s.len() == 5 && s[0] == 'Q' && s.last() == 'Y' {
        11
    } else if s.len() == 10 && s[0] == 'Q' && s.last() == 'S' {
        12
    } else if s.len() == 10 && s[0] == 'Q' && s.last() == 'L' {
        13
    } else if s.len() == 3 && s[0] == 'A' && s.last() == 'K' {
        14
    } else if s.len() == 4 && s[0] == 'G' && s.last() == 'D' {
        15
    } else if s.len() == 5 && s[0] == 'I' && s.last() == '?' {
        16
    } else if s.len() == 4 && s[0] == 'I' && s.last() == 'O' {
        17
    } else if s.len() == 2 && s[0] == 'F' && s.last() == 'B' {
        18
    } else if s.len() == 7 && s[0] == 'H' && s.last() == '?' {
        19
    } else if s.len() == 2 && s[0] == 'S' && s.last() == 'K' {
        20
    } else if s.len() == 2 && s[0] == 'R' && s.last() == 'R' {
        21
    } else if s.len() == 4 && s[0] == 'Q' && s.last() == '?' {
        22
    } else if s.len() == 3 && s[0] == 'Q' && s.last() == 'L' {
        23
    } else if s.len() == 3 && s[0] == 'C' && s.last() == 'D' {
        24
    } else if s.len() == 3 && s[0] == 'S' && s.last() == 'R' {
        25
    } else if s.len() == 2 && s[0] == 'N' && s.last() == 'O' {
        26
    } else if s.len() == 3 && s[0] == 'Y' && s.last() == 'S' {
        27
    } else if s.len() == 2 && s[0] == '7' && s.last() == '3' {
        28
    } else if s.len() == 13 && s[0] == 'H' && s.last() == 'R' {
        29
    } else if s.len() == 4 && s[0] == 'A' && s.last() == '?' {
        30
    } else {
        -1
    }
}

proof fn lemma_command_place(i: int)
    requires
        0 <= i < 32,
    ensures
        command_place(command::DIRECTED_CMDS[i]@) == i,
        text::trimmed(command::DIRECTED_CMDS[i]@) == command::DIRECTED_CMDS[i]@,
        command::DIRECTED_CMDS[i]@ != seq!['?'],
        command::DIRECTED_CMDS[i]@.len() < 14,
        command::DIRECTED_CMDS[i]@.len() > 3 && command::DIRECTED_CMDS[i]@[0] == 'S'
            ==> command::DIRECTED_CMDS[i]@[3] != ' ',
{
    let s = command::DIRECTED_CMDS[i]@;
    if i == 0 {
        reveal_strlit("SNR?");
    } else if i == 1 {
        reveal_strlit("DIT DIT");
    } else if i == 2 {
        reveal_strlit("NACK");
    } else if i == 3 {
        reveal_strlit("HEARING?");
    } else if i == 4 {
        reveal_strlit("GRID?");
    } else if i == 5 {
        reveal_strlit(">");
    } else if i == 6 {
        reveal_strlit("STATUS?");
    } else if i == 7 {
        reveal_strlit("STATUS");
    } else if i == 8 {
        reveal_strlit("HEARING");
    } else if i == 9 {
        reveal_strlit("MSG");
    } else if i == 10 {
        reveal_strlit("MSG TO:");
    } else if i == 11 {
        reveal_strlit("QUERY");
    } else if i == 12 {
        reveal_strlit("QUERY MSGS");
    } else if i == 13 {
        reveal_strlit("QUERY CALL");
    } else if i == 14 {
        reveal_strlit("ACK");
    } else if i == 15 {
        reveal_strlit("GRID");
    } else if i == 16 {
        reveal_strlit("INFO?");
    } else if i == 17 {
        reveal_strlit("INFO");
    } else if i == 18 {
        reveal_strlit("FB");
    } else if i == 19 {
        reveal_strlit("HW CPY?");
    } else if i == 20 {
        reveal_strlit("SK");
    } else if i == 21 {
        reveal_strlit("RR");
    } else if i == 22 {
        reveal_strlit("QSL?");
    } else if i == 23 {
        reveal_strlit("QSL");
    } else if i == 24 {
        reveal_strlit("CMD");
    } else if i == 25 {
        reveal_strlit("SNR");
    } else if i == 26 {
        reveal_strlit("NO");
    } else if i == 27 {
        reveal_strlit("YES");
    } else if i == 28 {
        reveal_strlit("73");
    } else if i == 29 {
        reveal_strlit("HEARTBEAT SNR");
    } else if i == 30 {
        reveal_strlit("AGN?");
    } else if i == 31 {
        reveal_strlit("");
    }
    assert(s.len() == 1 ==> s[0] == '>');
    text::lemma_trimmed_id(s);
}

/// No command name has white space around it, and none is a report with its number.
pub proof fn lemma_command_plain(i: int)
    requires
        0 <= i < 32,
    ensures
        text::trimmed(command::DIRECTED_CMDS[i]@) == command::DIRECTED_CMDS[i]@,
        !text::starts_with(command::DIRECTED_CMDS[i]@, "SNR "@),
        !text::starts_with(command::DIRECTED_CMDS[i]@, "HEARTBEAT SNR "@),
{
    let s = command::DIRECTED_CMDS[i]@;
    lemma_command_place(i);
    reveal_strlit("SNR ");
    reveal_strlit("HEARTBEAT SNR ");
    if text::starts_with(s, "SNR "@) {
        assert(s.take(4)[0] == 'S' && s.take(4)[3] == ' ');
    }
}

/// Every command of the table is found under its name.
pub proof fn law_command_name(i: int)
    requires
        0 <= i < 32,
    ensures
        command::command_code(command::DIRECTED_CMDS[i]@) == Some(i),
{
    let t = command::DIRECTED_CMDS@;
    lemma_command_place(i);
    assert forall|j: int| 0 <= j < i implies #[trigger] t[j]@ != t[i]@ by {
        lemma_command_place(j);
    }
    text::lemma_position_at(t, t[i]@, 0, i);
}

/// The place of a group name in its table, told from its length and three of its characters.
spec fn group_place(s: Seq<char>) -> int {
    if s.len() == 6 && s[1] == '.' && s[s.len() - 2] == '.' && s.last() == '>' {
        0
    } else if s.len() == 8 && s[1] == 'A' && s[s.len() - 2] == 'L' && s.last() == 'L' {
        1
    } else if s.len() == 7 && s[1] == 'J' && s[s.len() - 2] == 'E' && s.last() == 'T' {
        2
    } else if s.len() == 6 && s[1] == 'D' && s[s.len() - 2] == 'N' && s.last() == 'A' {
        3
    } else if s.len() == 6 && s[1] == 'D' && s[s.len() - 2] == 'S' && s.last() == 'A' {
        4
    } else if s.len() == 6 && s[1] == 'D' && s[s.len() - 2] == 'E' && s.last() == 'U' {
        5
    } else if s.len() == 6 && s[1] == 'D' && s[s.len() - 2] == 'A' && s.last() == 'S' {
        6
    } else if s.len() == 6 && s[1] == 'D' && s[s.len() - 2] == 'A' && s.last() == 'F' {
        7
    } else if s.len() == 6 && s[1] == 'D' && s[s.len() - 2] == 'O' && s.last() == 'C' {
        8
    } else if s.len() == 6 && s[1] == 'D' && s[s.len() - 2] == 'A' && s.last() == 'N' {
        9
    } else if s.len() == 9 && s[1] == 'R' && s[s.len() - 2] == '/' && s.last() == '1' {
        10
    } else if s.len() == 9 && s[1] == 'R' && s[s.len() - 2] == '/' && s.last() == '2' {
        11
    } else if s.len() == 9 && s[1] == 'R' && s[s.len() - 2] == '/' && s.last() == '3' {
        12
    } else if s.len() == 8 && s[1] == 'G' && s[s.len() - 2] == '/' && s.last() == '0' {
        13
    } else if s.len() == 8 && s[1] == 'G' && s[s.len() - 2] == '/' && s.last() == '1' {
        14
    } else if s.len() == 8 && s[1] == 'G' && s[s.len() - 2] == '/' && s.last() == '2' {
        15
    } else if s.len() == 8 && s[1] == 'G' && s[s.len() - 2] == '/' && s.last() == '3' {
        16
    } else if s.len() == 8 && s[1] == 'G' && s[s.len() - 2] == '/' && s.last() == '4' {
        17
    } else if s.len() == 8 && s[1] == 'G' && s[s.len() - 2] == '/' && s.last() == '5' {
        18
    } else if s.len() == 8 && s[1] == 'G' && s[s.len() - 2] == '/' && s.last() == '6' {
        19
    } else if s.len() == 8 && s[1] == 'G' && s[s.len() - 2] == '/' && s.last() == '7' {
        20
    } else if s.len() == 8 && s[1] == 'G' && s[s.len() - 2] == '/' && s.last() == '8' {
        21
    } else if s.len() == 8 && s[1] == 'G' && s[s.len() - 2] == '/' && s.last() == '9' {
        22
    } else if s.len() == 8 && s[1] == 'C' && s[s.len() - 2] == 'N' && s.last() == 'D' {
        23
    } else if s.len() == 8 && s[1] == 'C' && s[s.len() - 2] == 'O' && s.last() == 'L' {
        24
    } else if s.len() == 4 && s[1] == 'N' && s[s.len() - 2] == 'E' && s.last() == 'T' {
        25
    } else if s.len() == 4 && s[1] == 'N' && s[s.len() - 2] == 'T' && s.last() == 'S' {
        26
    } else if s.len() == 10 && s[1] == 'R' && s[s.len() - 2] == '/' && s.last() == '0' {
        27
    } else if s.len() == 10 && s[1] == 'R' && s[s.len() - 2] == '/' && s.last() == '1' {
        28
    } else if s.len() == 10 && s[1] == 'R' && s[s.len() - 2] == '/' && s.last() == '2' {
        29
    } else if s.len() == 10 && s[1] == 'R' && s[s.len() - 2] == '/' && s.last() == '3' {
        30
    } else if s.len() == 10 && s[1] == 'R' && s[s.len() - 2] == '/' && s.last() == '4' {
        31
    } else if s.len() == 7 && s[1] == 'A' && s[s.len() - 2] == 'I' && s.last() == 'S' {
        32
    } else if s.len() == 8 && s[1] == 'R' && s[s.len() - 2] == 'E' && s.last() == 'W' {
        33
    } else if s.len() == 4 && s[1] == 'J' && s[s.len() - 2] == 'S' && s.last() == '8' {
        34
    } else if s.len() == 7 && s[1] == 'E' && s[s.len() - 2] == 'M' && s.last() == 'M' {
        35
    } else if s.len() == 5 && s[1] == 'A' && s[s.len() - 2] == 'E' && s.last() == 'S' {
        36
    } else if s.len() == 5 && s[1] == 'M' && s[s.len() - 2] == 'R' && s.last() == 'S' {
        37
    } else if s.len() == 7 && s[1] == 'A' && s[s.len() - 2] == 'O' && s.last() == 'N' {
        38
    } else if s.len() == 6 && s[1] == 'R' && s[s.len() - 2] == 'E' && s.last() == 'S' {
        39
    } else if s.len() == 7 && s[1] == 'R' && s[s.len() - 2] == 'E' && s.last() == 'T' {
        40
    } else if s.len() == 6 && s[1] == 'R' && s[s.len() - 2] == 'A' && s.last() == 'R' {
        41
    } else if s.len() == 8 && s[1] == 'S' && s[s.len() - 2] == 'R' && s.last() == 'N' {
        42
    } else if s.len() == 3 && s[1] == 'C' && s[s.len() - 2] == 'C' && s.last() == 'Q' {
        43
    } else if s.len() == 3 && s[1] == 'H' && s[s.len() - 2] == 'H' && s.last() == 'B' {
        44
    } else if s.len() == 4 && s[1] == 'Q' && s[s.len() - 2] == 'S' && s.last() == 'O' {
        45
    } else if s.len() == 9 && s[1] == 'Q' && s[s.len() - 2] == 'T' && s.last() == 'Y' {
        46
    } else if s.len() == 8 && s[1] == 'C' && s[s.len() - 2] == 'S' && s.last() == 'T' {
        47
    } else if s.len() == 9 && s[1] == 'F' && s[s.len() - 2] == 'A' && s.last() == 'Y' {
        48
    } else if s.len() == 5 && s[1] == 'S' && s[s.len() - 2] == 'T' && s.last() == 'A' {
        49
    } else if s.len() == 5 && s[1] == 'I' && s[s.len() - 2] == 'T' && s.last() == 'A' {
        50
    } else if s.len() == 5 && s[1] == 'P' && s[s.len() - 2] == 'T' && s.last() == 'A' {
        51
    } else if s.len() == 4 && s[1] == 'Q' && s[s.len() - 2] == 'R' && s.last() == 'P' {
        52
    } else if s.len() == 4 && s[1] == 'Q' && s[s.len() - 2] == 'R' && s.last() == 'O' {
        53
    } else {
        -1
    }
}

proof fn lemma_group_place(i: int)
    requires
        0 <= i < 54,
    ensures
        group_place(callsign::BASECALLS[i]@) == i,
        text::upper(text::trimmed(callsign::BASECALLS[i]@)) == callsign::BASECALLS[i]@,
        callsign::BASECALLS[i]@[0] == '@' || callsign::BASECALLS[i]@[0] == '<',
{
    let s = callsign::BASECALLS[i]@;
    if i == 0 {
        reveal_strlit("<....>");
        assert(s =~= seq!['<', '.', '.', '.', '.', '>']);
    } else if i == 1 {
        reveal_strlit("@ALLCALL");
        assert(s =~= seq!['@', 'A', 'L', 'L', 'C', 'A', 'L', 'L']);
    } else if i == 2 {
        reveal_strlit("@JS8NET");
        assert(s =~= seq!['@', 'J', 'S', '8', 'N', 'E', 'T']);
    } else if i == 3 {
        reveal_strlit("@DX/NA");
        assert(s =~= seq!['@', 'D', 'X', '/', 'N', 'A']);
    } else if i == 4 {
        reveal_strlit("@DX/SA");
        assert(s =~= seq!['@', 'D', 'X', '/', 'S', 'A']);
    } else if i == 5 {
        reveal_strlit("@DX/EU");
        assert(s =~= seq!['@', 'D', 'X', '/', 'E', 'U']);
    } else if i == 6 {
        reveal_strlit("@DX/AS");
        assert(s =~= seq!['@', 'D', 'X', '/', 'A', 'S']);
    } else if i == 7 {
        reveal_strlit("@DX/AF");
        assert(s =~= seq!['@', 'D', 'X', '/', 'A', 'F']);
    } else if i == 8 {
        reveal_strlit("@DX/OC");
        assert(s =~= seq!['@', 'D', 'X', '/', 'O', 'C']);
    } else if i == 9 {
        reveal_strlit("@DX/AN");
        assert(s =~= seq!['@', 'D', 'X', '/', 'A', 'N']);
    } else if i == 10 {
        reveal_strlit("@REGION/1");
        assert(s =~= seq!['@', 'R', 'E', 'G', 'I', 'O', 'N', '/', '1']);
    } else if i == 11 {
        reveal_strlit("@REGION/2");
        assert(s =~= seq!['@', 'R', 'E', 'G', 'I', 'O', 'N', '/', '2']);
    } else if i == 12 {
        reveal_strlit("@REGION/3");
        assert(s =~= seq!['@', 'R', 'E', 'G', 'I', 'O', 'N', '/', '3']);
    } else if i == 13 {
        reveal_strlit("@GROUP/0");
        assert(s =~= seq!['@', 'G', 'R', 'O', 'U', 'P', '/', '0']);
    } else if i == 14 {
        reveal_strlit("@GROUP/1");
        assert(s =~= seq!['@', 'G', 'R', 'O', 'U', 'P', '/', '1']);
    } else if i == 15 {
        reveal_strlit("@GROUP/2");
        assert(s =~= seq!['@', 'G', 'R', 'O', 'U', 'P', '/', '2']);
    } else if i == 16 {
        reveal_strlit("@GROUP/3");
        assert(s =~= seq!['@', 'G', 'R', 'O', 'U', 'P', '/', '3']);
    } else if i == 17 {
        reveal_strlit("@GROUP/4");
        assert(s =~= seq!['@', 'G', 'R', 'O', 'U', 'P', '/', '4']);
    } else if i == 18 {
        reveal_strlit("@GROUP/5");
        assert(s =~= seq!['@', 'G', 'R', 'O', 'U', 'P', '/', '5']);
    } else if i == 19 {
        reveal_strlit("@GROUP/6");
        assert(s =~= seq!['@', 'G', 'R', 'O', 'U', 'P', '/', '6']);
    } else if i == 20 {
        reveal_strlit("@GROUP/7");
        assert(s =~= seq!['@', 'G', 'R', 'O', 'U', 'P', '/', '7']);
    } else if i == 21 {
        reveal_strlit("@GROUP/8");
        assert(s =~= seq!['@', 'G', 'R', 'O', 'U', 'P', '/', '8']);
    } else if i == 22 {
        reveal_strlit("@GROUP/9");
        assert(s =~= seq!['@', 'G', 'R', 'O', 'U', 'P', '/', '9']);
    } else if i == 23 {
        reveal_strlit("@COMMAND");
        assert(s =~= seq!['@', 'C', 'O', 'M', 'M', 'A', 'N', 'D']);
    } else if i == 24 {
        reveal_strlit("@CONTROL");
        assert(s =~= seq!['@', 'C', 'O', 'N', 'T', 'R', 'O', 'L']);
    } else if i == 25 {
        reveal_strlit("@NET");
        assert(s =~= seq!['@', 'N', 'E', 'T']);
    } else if i == 26 {
        reveal_strlit("@NTS");
        assert(s =~= seq!['@', 'N', 'T', 'S']);
    } else if i == 27 {
        reveal_strlit("@RESERVE/0");
        assert(s =~= seq!['@', 'R', 'E', 'S', 'E', 'R', 'V', 'E', '/', '0']);
    } else if i == 28 {
        reveal_strlit("@RESERVE/1");
        assert(s =~= seq!['@', 'R', 'E', 'S', 'E', 'R', 'V', 'E', '/', '1']);
    } else if i == 29 {
        reveal_strlit("@RESERVE/2");
        assert(s =~= seq!['@', 'R', 'E', 'S', 'E', 'R', 'V', 'E', '/', '2']);
    } else if i == 30 {
        reveal_strlit("@RESERVE/3");
        assert(s =~= seq!['@', 'R', 'E', 'S', 'E', 'R', 'V', 'E', '/', '3']);
    } else if i == 31 {
        reveal_strlit("@RESERVE/4");
        assert(s =~= seq!['@', 'R', 'E', 'S', 'E', 'R', 'V', 'E', '/', '4']);
    } else if i == 32 {
        reveal_strlit("@APRSIS");
        assert(s =~= seq!['@', 'A', 'P', 'R', 'S', 'I', 'S']);
    } else if i == 33 {
        reveal_strlit("@RAGCHEW");
        assert(s =~= seq!['@', 'R', 'A', 'G', 'C', 'H', 'E', 'W']);
    } else if i == 34 {
        reveal_strlit("@JS8");
        assert(s =~= seq!['@', 'J', 'S', '8']);
    } else if i == 35 {
        reveal_strlit("@EMCOMM");
        assert(s =~= seq!['@', 'E', 'M', 'C', 'O', 'M', 'M']);
    } else if i == 36 {
        reveal_strlit("@ARES");
        assert(s =~= seq!['@', 'A', 'R', 'E', 'S']);
    } else if i == 37 {
        reveal_strlit("@MARS");
        assert(s =~= seq!['@', 'M', 'A', 'R', 'S']);
    } else if i == 38 {
        reveal_strlit("@AMRRON");
        assert(s =~= seq!['@', 'A', 'M', 'R', 'R', 'O', 'N']);
    } else if i == 39 {
        reveal_strlit("@RACES");
        assert(s =~= seq!['@', 'R', 'A', 'C', 'E', 'S']);
    } else if i == 40 {
        reveal_strlit("@RAYNET");
        assert(s =~= seq!['@', 'R', 'A', 'Y', 'N', 'E', 'T']);
    } else if i == 41 {
        reveal_strlit("@RADAR");
        assert(s =~= seq!['@', 'R', 'A', 'D', 'A', 'R']);
    } else if i == 42 {
        reveal_strlit("@SKYWARN");
        assert(s =~= seq!['@', 'S', 'K', 'Y', 'W', 'A', 'R', 'N']);
    } else if i == 43 {
        reveal_strlit("@CQ");
        assert(s =~= seq!['@', 'C', 'Q']);
    } else if i == 44 {
        reveal_strlit("@HB");
        assert(s =~= seq!['@', 'H', 'B']);
    } else if i == 45 {
        reveal_strlit("@QSO");
        assert(s =~= seq!['@', 'Q', 'S', 'O']);
    } else if i == 46 {
        reveal_strlit("@QSOPARTY");
        assert(s =~= seq!['@', 'Q', 'S', 'O', 'P', 'A', 'R', 'T', 'Y']);
    } else if i == 47 {
        reveal_strlit("@CONTEST");
        assert(s =~= seq!['@', 'C', 'O', 'N', 'T', 'E', 'S', 'T']);
    } else if i == 48 {
        reveal_strlit("@FIELDDAY");
        assert(s =~= seq!['@', 'F', 'I', 'E', 'L', 'D', 'D', 'A', 'Y']);
    } else if i == 49 {
        reveal_strlit("@SOTA");
        assert(s =~= seq!['@', 'S', 'O', 'T', 'A']);
    } else if i == 50 {
        reveal_strlit("@IOTA");
        assert(s =~= seq!['@', 'I', 'O', 'T', 'A']);
    } else if i == 51 {
        reveal_strlit("@POTA");
        assert(s =~= seq!['@', 'P', 'O', 'T', 'A']);
    } else if i == 52 {
        reveal_strlit("@QRP");
        assert(s =~= seq!['@', 'Q', 'R', 'P']);
    } else if i == 53 {
        reveal_strlit("@QRO");
        assert(s =~= seq!['@', 'Q', 'R', 'O']);
    }
    text::lemma_trimmed_id(s);
    assert(text::upper(s) =~= s);
}

/// A text that begins with a letter or digit is no group name.
pub proof fn lemma_no_group(s: Seq<char>)
    requires
        s.len() > 0,
        text::is_capital(s[0]) || text::is_digit(s[0]),
    ensures
        text::position_from(callsign::BASECALLS@, s, 0) is None,
{
    text::lemma_position(callsign::BASECALLS@, s, 0);
    if let Some(i) = text::position_from(callsign::BASECALLS@, s, 0) {
        lemma_group_place(i);
    }
}

/// Every group name packs to its own number and comes back from it.
pub proof fn law_group_round_trip(i: int, portable: bool)
    requires
        0 <= i < 54,
    ensures
        callsign::packed28(callsign::BASECALLS[i]@) == Some(callsign::NBASECALL + i + 1),
        callsign::unpacked28(callsign::NBASECALL + i + 1, portable) == callsign::BASECALLS[i]@,
{
    let t = callsign::BASECALLS@;
    lemma_group_place(i);
    assert forall|j: int| 0 <= j < i implies #[trigger] t[j]@ != t[i]@ by {
        lemma_group_place(j);
    }
    text::lemma_position_at(t, t[i]@, 0, i);
}

} // verus!

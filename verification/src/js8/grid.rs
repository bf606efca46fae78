//! Maidenhead squares (`FN42`) in 15 bits.
//!
//! A square is a column of 2 degrees of longitude, counted eastward from 180 W, and a row of one
//! degree of latitude, counted northward from the south pole.
use crate::text;
use vstd::prelude::*;

verus! {

/// The numbers up to this one are squares.
pub const NBASEGRID: u16 = 32_400;

/// The numbers from this one on are commands.
pub const NUSERGRID: u32 = 32_410;

/// The number that stands for no square.
pub const NMAXGRID: u16 = 32_767;

/// The western edge of a square in degrees west, from its first and third characters.
pub open spec fn west_edge(a: char, z: char) -> int {
    180 - 20 * (text::upper_char(a) as int - 'A' as int) - 2 * (text::lower_char(z) as int
        - '0' as int)
}

/// The southern edge of a square in degrees north, from its second and fourth characters.
pub open spec fn south_edge(b: char, d: char) -> int {
    -90 + 10 * (text::upper_char(b) as int - 'A' as int) + (text::lower_char(d) as int
        - '0' as int)
}

/// The whole degrees, cut toward zero, of the longitude that lies 1 1/24 degrees inside the
/// western edge: the middle of the square.
pub open spec fn middle_west(edge: int) -> int {
    if edge >= 2 {
        edge - 2
    } else {
        edge - 1
    }
}

/// The whole degrees, cut toward zero, of the latitude that lies 25/48 degrees inside the
/// southern edge: the middle of the square.
pub open spec fn middle_north(edge: int) -> int {
    if edge >= 0 {
        edge
    } else {
        edge + 1
    }
}

/// Half of a number, cut toward zero.
pub open spec fn half(n: int) -> int {
    if n >= 0 {
        n / 2
    } else {
        -((-n) / 2)
    }
}

/// The number of the square that four characters name.
pub open spec fn square_number(g: Seq<char>) -> int {
    let east = half(middle_west(west_edge(g[0], g[2])) + 180);
    let north = middle_north(south_edge(g[1], g[3])) + 90;
    (east % 0x1_0000) * 180 + north % 0x1_0000
}

/// The characters of the square at a column and a row.
pub open spec fn square(col: int, row: int) -> Seq<char> {
    seq![
        ('A' as int + col / 10) as char,
        ('A' as int + row / 10) as char,
        ('0' as int + col % 10) as char,
        ('0' as int + row % 10) as char,
    ]
}

/// The square with a given number; no text for a number behind the last square.
pub open spec fn square_text(n: int) -> Seq<char> {
    if n > NBASEGRID {
        Seq::empty()
    } else if n / 180 == 180 {
        square(179, n % 180)
    } else {
        square(179 - n / 180, n % 180)
    }
}

/// Packs a square into its number: the first four characters, without white space in front.
/// Text of fewer than four characters packs to [`NMAXGRID`].
pub fn pack_grid(value: &str) -> (r: u16)
    requires
        text::trimmed(value@).len() >= 4 ==> {
            &&& forall|i: int| 0 <= i < 4 ==> (#[trigger] text::trimmed(value@)[i] as int) < 128
            &&& square_number(text::trimmed(value@)) <= u16::MAX
        },
    ensures
        r == (if text::trimmed(value@).len() < 4 {
            NMAXGRID as int
        } else {
            square_number(text::trimmed(value@))
        }),
{
    let chars: Vec<char> = text::chars_of(value);
    let g: Vec<char> = text::trim(chars.as_slice());
    if g.len() < 4 {
        return NMAXGRID;
    }
    let a: i32 = text::to_upper_char(g[0]) as i32;
    let b: i32 = text::to_upper_char(g[1]) as i32;
    let z: i32 = text::to_lower_char(g[2]) as i32;
    let d: i32 = text::to_lower_char(g[3]) as i32;
    let west: i32 = 180 - 20 * (a - 65) - 2 * (z - 48);
    let south: i32 = -90 + 10 * (b - 65) + (d - 48);
    let long: i32 = (if west >= 2 {
        west - 2
    } else {
        west - 1
    }) + 180;
    let north: i32 = (if south >= 0 {
        south
    } else {
        south + 1
    }) + 90;
    let east: i32 = if long >= 0 {
        long / 2
    } else {
        -((-long) / 2)
    };
    let e: i32 = if east < 0 {
        east + 0x1_0000
    } else {
        east
    };
    let n: i32 = if north < 0 {
        north + 0x1_0000
    } else {
        north
    };
    (e * 180 + n) as u16
}

fn square_chars(col: u16, row: u16) -> (r: String)
    requires
        col < 180,
        row < 180,
    ensures
        r@ == square(col as int, row as int),
{
    let s: [char; 4] = [
        (65 + (col / 10) as u8) as char,
        (65 + (row / 10) as u8) as char,
        (48 + (col % 10) as u8) as char,
        (48 + (row % 10) as u8) as char,
    ];
    assert(s@ == square(col as int, row as int));
    text::text_of(s.as_slice())
}

/// Unpacks a number to a square. Numbers above [`NBASEGRID`] unpack to the empty text.
pub fn unpack_grid(value: u16) -> (r: String)
    ensures
        r@ == square_text(value as int),
{
    if value > NBASEGRID {
        return String::new();
    }
    let q: u16 = value / 180;
    if q == 180 {
        square_chars(179, value % 180)
    } else {
        square_chars(179 - q, value % 180)
    }
}

/// The number of a well-formed square, and what it unpacks to: the square itself from the equator
/// northward; south of it the row cut toward zero is the next one to the north.
pub proof fn law_grid_round_trip(col: int, row: int)
    requires
        0 <= col < 180,
        0 <= row < 180,
    ensures
        square_number(square(col, row)) == (179 - col) * 180 + (if row >= 90 {
            row
        } else {
            row + 1
        }),
        square_text(square_number(square(col, row))) == (if row >= 90 {
            square(col, row)
        } else {
            square(col, row + 1)
        }),
{
    let g = square(col, row);
    assert(west_edge(g[0], g[2]) == 180 - 2 * col) by {
        assert(col == 10 * (col / 10) + col % 10);
    }
    assert(south_edge(g[1], g[3]) == row - 90) by {
        assert(row == 10 * (row / 10) + row % 10);
    }
    let r = if row >= 90 {
        row
    } else {
        row + 1
    };
    assert(square_number(g) == (179 - col) * 180 + r);
    assert(((179 - col) * 180 + r) / 180 == 179 - col);
    assert(((179 - col) * 180 + r) % 180 == r);
}

/// A square text has four characters, or none behind the last square.
pub proof fn lemma_square_text_len(n: int)
    ensures
        square_text(n).len() == (if n > NBASEGRID {
            0int
        } else {
            4
        }),
{
}

/// The numbers up to 32400 are squares; no other is.
pub proof fn law_square_numbers(n: int)
    ensures
        square_text(n).len() == 4 <==> n <= 32_400,
        n > 32_400 ==> square_text(n).len() == 0,
{
}

} // verus!

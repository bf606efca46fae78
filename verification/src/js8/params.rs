//! Protocol constants and the table of speeds.
//!
//! The four speeds share the frame of 79 symbols and its coding. They differ in the samples per
//! symbol, the length of the cycle, and in the constants of the search for signals. Samples are
//! counted at 12 kHz.
use vstd::prelude::*;

verus! {

/// Symbols of a transmission: 21 for sync and 58 of data.
pub const NN: usize = 79;

/// Sync symbols: three blocks of seven.
pub const NS: usize = 21;

/// Data symbols, three bits each.
pub const ND: usize = 58;

/// Codeword bits.
pub const N: usize = 174;

/// Message bits: 72 of payload, 3 of type, 12 of checksum.
pub const K: usize = 87;

/// Parity bits.
pub const M: usize = 87;

/// Tones of a symbol.
pub const NROWS: usize = 8;

/// Bins of the symbol spectrum for each tone.
pub const NFOS: usize = 2;

/// Steps of the search in a symbol.
pub const NSSY: usize = 4;

/// Half the number of frequency steps of the fine search.
pub const NFSRCH: i32 = 5;

/// How many candidates are tried at most.
pub const NMAXCAND: usize = 300;

/// The length of the filter that a decoded signal is subtracted through.
pub const NFILT: usize = 1_400;

/// The largest number of codeword bits that a parity check covers.
pub const BP_MAX_ROWS: usize = 7;

/// The number of parity checks that cover a codeword bit.
pub const BP_MAX_CHECKS: usize = 3;

/// How often belief propagation is repeated at most.
pub const BP_MAX_ITERATIONS: usize = 30;

/// The degree of the noise baseline's polynomial.
pub const BASELINE_DEGREE: usize = 5;

/// The percentile of the spectrum that counts as noise.
pub const BASELINE_SAMPLE: usize = 10;

/// Samples in a second.
pub const SAMPLES_PER_SECOND: usize = 12_000;

/// The sync blocks of the original speed.
pub const COSTAS_ORIGINAL: [[usize; 7]; 3] = [
    [4, 2, 5, 6, 1, 3, 0],
    [4, 2, 5, 6, 1, 3, 0],
    [4, 2, 5, 6, 1, 3, 0],
];

/// The sync blocks of the other speeds.
pub const COSTAS_MODIFIED: [[usize; 7]; 3] = [
    [0, 6, 2, 3, 5, 4, 1],
    [1, 5, 0, 2, 3, 6, 4],
    [2, 5, 0, 6, 4, 1, 3],
];

/// One speed.
#[derive(Debug, Clone, Copy)]
pub struct Mode {
    /// Number of the speed: A is 0, C is 1, B is 2 and E is 4.
    pub id: u8,
    /// Short name.
    pub name: &'static str,
    /// Samples per symbol.
    pub nsps: usize,
    /// Length of the cycle in seconds.
    pub ntxdur: usize,
    /// Samples per symbol after downsampling.
    pub ndownsps: usize,
    /// Length of the taper of an extracted band.
    pub ndd: usize,
    /// Half the range of the search in time, in quarter symbols.
    pub jz: usize,
    /// Delay of the transmission within the cycle, in samples.
    pub astart: usize,
    /// Offset of the noise baseline, in dB.
    pub basesub: usize,
    /// Distance in Hz within which candidates count as one.
    pub az: usize,
    /// The sync blocks.
    pub costas: [[usize; 7]; 3],
    /// Samples of a cycle.
    pub nmax: usize,
    /// Length of the symbol spectrum.
    pub nfft1: usize,
    /// Samples of a quarter symbol.
    pub nstep: usize,
    /// Symbol spectra of a cycle.
    pub nhsym: usize,
    /// Downsampling factor.
    pub ndown: usize,
    /// Quarter of a downsampled symbol.
    pub nqsymbol: usize,
    /// Length of the transform that a band is cut out of.
    pub ndfft1: usize,
    /// Length of the transform of a band.
    pub ndfft2: usize,
    /// Downsampled samples of a transmission.
    pub np2: usize,
    /// Delay of the transmission, in whole quarter symbols.
    pub jstrt: usize,
    /// Length of the cycle in milliseconds.
    pub cycle_ms: u64,
}

/// A speed from its chosen constants: the other fields follow from them.
pub open spec fn derived(
    id: u8,
    name: &'static str,
    nsps: usize,
    ntxdur: usize,
    ndownsps: usize,
    ndd: usize,
    jz: usize,
    astart: usize,
    basesub: usize,
    az: usize,
    costas: [[usize; 7]; 3],
) -> Mode {
    let nmax = ntxdur * 12_000;
    let nstep = nsps as int / 4;
    let ndown = nsps as int / ndownsps as int;
    let ndfft1 = nsps * ndd;
    Mode {
        id,
        name,
        nsps,
        ntxdur,
        ndownsps,
        ndd,
        jz,
        astart,
        basesub,
        az,
        costas,
        nmax: nmax as usize,
        nfft1: (nsps * 2) as usize,
        nstep: nstep as usize,
        nhsym: (nmax / nstep - 3) as usize,
        ndown: ndown as usize,
        nqsymbol: (ndownsps as int / 4) as usize,
        ndfft1: ndfft1 as usize,
        ndfft2: (ndfft1 / ndown) as usize,
        np2: (79 * ndownsps) as usize,
        jstrt: (astart as int / nstep) as usize,
        cycle_ms: (ntxdur * 1_000) as u64,
    }
}

/// Derives the fields of a speed from its chosen constants.
fn mode_const(
    id: u8,
    name: &'static str,
    nsps: usize,
    ntxdur: usize,
    ndownsps: usize,
    ndd: usize,
    jz: usize,
    astart: usize,
    basesub: usize,
    az: usize,
    costas: [[usize; 7]; 3],
) -> (r: Mode)
    requires
        4 <= nsps <= 4_000,
        1 <= ntxdur <= 60,
        1 <= ndownsps <= nsps,
        nsps * ndd <= 1_000_000,
    ensures
        r == derived(
            id,
            name,
            nsps,
            ntxdur,
            ndownsps,
            ndd,
            jz,
            astart,
            basesub,
            az,
            costas,
        ),
{
    let nmax: usize = ntxdur * 12_000;
    let nstep: usize = nsps / 4;
    let ndown: usize = nsps / ndownsps;
    let ndfft1: usize = nsps * ndd;
    proof {
        assert(nmax as int / nstep as int >= 3) by (nonlinear_arith)
            requires
                1 <= nstep <= 1_000,
                nmax >= 12_000,
        ;
        vstd::arithmetic::div_mod::lemma_div_non_zero(nsps as int, ndownsps as int);
        vstd::arithmetic::div_mod::lemma_div_is_ordered_by_denominator(ndfft1 as int, 1, ndown as int);
        vstd::arithmetic::div_mod::lemma_div_is_ordered_by_denominator(nmax as int, 1, nstep as int);
    }
    Mode {
        id,
        name,
        nsps,
        ntxdur,
        ndownsps,
        ndd,
        jz,
        astart,
        basesub,
        az,
        costas,
        nmax,
        nfft1: nsps * 2,
        nstep,
        nhsym: nmax / nstep - 3,
        ndown,
        nqsymbol: ndownsps / 4,
        ndfft1,
        ndfft2: ndfft1 / ndown,
        np2: 79 * ndownsps,
        jstrt: astart / nstep,
        cycle_ms: ntxdur as u64 * 1_000,
    }
}

/// The normal speed: a cycle of 15 s.
pub open spec fn normal_speed() -> Mode {
    derived(0, "JS8A", 1920, 15, 32, 100, 62, 6000, 40, 4, COSTAS_ORIGINAL)
}

/// The normal speed: a cycle of 15 s.
pub fn mode_a() -> (r: Mode)
    ensures
        r == normal_speed(),
{
    mode_const(0, "JS8A", 1920, 15, 32, 100, 62, 6000, 40, 4, COSTAS_ORIGINAL)
}

/// The fast speed: a cycle of 10 s.
pub open spec fn fast_speed() -> Mode {
    derived(2, "JS8B", 1200, 10, 20, 100, 144, 2400, 39, 8, COSTAS_MODIFIED)
}

/// The fast speed: a cycle of 10 s.
pub fn mode_b() -> (r: Mode)
    ensures
        r == fast_speed(),
{
    mode_const(2, "JS8B", 1200, 10, 20, 100, 144, 2400, 39, 8, COSTAS_MODIFIED)
}

/// The turbo speed: a cycle of 6 s.
pub open spec fn turbo_speed() -> Mode {
    derived(1, "JS8C", 600, 6, 12, 120, 172, 1200, 38, 12, COSTAS_MODIFIED)
}

/// The turbo speed: a cycle of 6 s.
pub fn mode_c() -> (r: Mode)
    ensures
        r == turbo_speed(),
{
    mode_const(1, "JS8C", 600, 6, 12, 120, 172, 1200, 38, 12, COSTAS_MODIFIED)
}

/// The slow speed: a cycle of 30 s.
pub open spec fn slow_speed() -> Mode {
    derived(4, "JS8E", 3840, 30, 32, 94, 32, 6000, 42, 2, COSTAS_MODIFIED)
}

/// The slow speed: a cycle of 30 s.
pub fn mode_e() -> (r: Mode)
    ensures
        r == slow_speed(),
{
    mode_const(4, "JS8E", 3840, 30, 32, 94, 32, 6000, 42, 2, COSTAS_MODIFIED)
}

/// The speed at a place of the list.
pub open spec fn speed(i: int) -> Mode {
    if i == 0 {
        normal_speed()
    } else if i == 1 {
        fast_speed()
    } else if i == 2 {
        turbo_speed()
    } else {
        slow_speed()
    }
}

/// All speeds, in the order in which they are decoded.
pub fn modes() -> (r: [Mode; 4])
    ensures
        forall|i: int| 0 <= i < 4 ==> #[trigger] r@[i] == speed(i),
{
    [mode_a(), mode_b(), mode_c(), mode_e()]
}

impl Mode {
    /// The speed with a given number: A is 0, C is 1, B is 2 and E is 4.
    pub fn by_id(id: u8) -> (r: Option<Mode>)
        ensures
            r == (if id == 0 {
                Some(normal_speed())
            } else if id == 1 {
                Some(turbo_speed())
            } else if id == 2 {
                Some(fast_speed())
            } else if id == 4 {
                Some(slow_speed())
            } else {
                None
            }),
    {
        let all: [Mode; 4] = modes();
        let mut i: usize = 0;
        while i < 4
            invariant
                i <= 4,
                forall|k: int| 0 <= k < 4 ==> #[trigger] all@[k] == speed(k),
                forall|k: int| 0 <= k < i ==> (#[trigger] speed(k)).id != id,
            decreases 4 - i,
        {
            if all[i].id == id {
                assert(speed(i as int).id == id);
                return Some(all[i]);
            }
            assert(speed(i as int).id != id);
            i = i + 1;
        }
        assert(speed(0).id == 0 && speed(1).id == 2 && speed(2).id == 1 && speed(3).id == 4);
        None
    }
}

/// The numbers of the speeds are all different.
pub proof fn law_speeds_distinct(i: int, j: int)
    requires
        0 <= i < j < 4,
    ensures
        speed(i).id != speed(j).id,
{
}

/// Every sync block holds each of the tones 0 to 6.
pub proof fn law_costas_permutation(b: int, tone: usize)
    requires
        0 <= b < 3,
        tone < 7,
    ensures
        exists|j: int| 0 <= j < 7 && #[trigger] COSTAS_ORIGINAL@[b]@[j] == tone,
        exists|j: int| 0 <= j < 7 && #[trigger] COSTAS_MODIFIED@[b]@[j] == tone,
{
    let r = COSTAS_ORIGINAL@[b]@;
    let m = COSTAS_MODIFIED@[b]@;
    assert(r[0] == 4 && r[1] == 2 && r[2] == 5 && r[3] == 6 && r[4] == 1 && r[5] == 3 && r[6] == 0);
    if b == 0 {
        assert(m[0] == 0 && m[1] == 6 && m[2] == 2 && m[3] == 3 && m[4] == 5 && m[5] == 4 && m[6]
            == 1);
    } else if b == 1 {
        assert(m[0] == 1 && m[1] == 5 && m[2] == 0 && m[3] == 2 && m[4] == 3 && m[5] == 6 && m[6]
            == 4);
    } else {
        assert(m[0] == 2 && m[1] == 5 && m[2] == 0 && m[3] == 6 && m[4] == 4 && m[5] == 1 && m[6]
            == 3);
    }
}

/// The speeds: for each the samples of a symbol, the seconds of a cycle, the samples of a symbol once
/// it is downsampled, and the samples that a transmission is late.
pub proof fn law_speed_table()
    ensures
        speed(0).nsps == 1_920 && speed(0).ntxdur == 15 && speed(0).ndownsps == 32 && speed(
            0,
        ).astart == 6_000,
        speed(1).nsps == 1_200 && speed(1).ntxdur == 10 && speed(1).ndownsps == 20 && speed(
            1,
        ).astart == 2_400,
        speed(2).nsps == 600 && speed(2).ntxdur == 6 && speed(2).ndownsps == 12 && speed(2).astart
            == 1_200,
        speed(3).nsps == 3_840 && speed(3).ntxdur == 30 && speed(3).ndownsps == 32 && speed(
            3,
        ).astart == 6_000,
{
}

proof fn lemma_quotient(n: int, d: int, q: int)
    requires
        d > 0,
        q * d <= n < (q + 1) * d,
    ensures
        n / d == q,
{
    assert((q + 1) * d == q * d + d) by (nonlinear_arith);
    vstd::arithmetic::div_mod::lemma_fundamental_div_mod_converse(n, d, q, n - q * d);
}

/// How the numbers of a speed hang together: a late transmission of 79 symbols fits into a cycle of
/// 12000 samples a second, spectra are two symbols long and a quarter symbol apart, and the
/// downsampled symbols are a whole part of the symbols.
pub proof fn law_speed_fits(i: int)
    requires
        0 <= i < 4,
    ensures
        ({
            let m = speed(i);
            &&& 79 * m.nsps + m.astart <= m.nmax
            &&& m.nmax == m.ntxdur * 12_000
            &&& m.cycle_ms == m.ntxdur * 1_000
            &&& m.nfft1 == 2 * m.nsps
            &&& 4 * m.nstep == m.nsps
            &&& (m.nhsym + 3) * m.nstep == m.nmax
            &&& m.ndown * m.ndownsps == m.nsps
            &&& 4 * m.nqsymbol == m.ndownsps
            &&& m.ndfft1 == m.nsps * m.ndd
            &&& m.ndfft2 * m.ndown == m.ndfft1
            &&& m.np2 == 79 * m.ndownsps
            &&& m.jstrt * m.nstep <= m.astart < (m.jstrt + 1) * m.nstep
        }),
{
    let m = speed(i);
    if i == 0 {
        lemma_quotient(180000, 480, 375);
        lemma_quotient(192000, 60, 3200);
        lemma_quotient(6000, 480, 12);
        assert(m.nmax == 180000 && m.nstep == 480 && m.nhsym == 372 && m.ndown == 60 && m.ndfft1
            == 192000 && m.ndfft2 == 3200 && m.jstrt == 12);
    } else if i == 1 {
        lemma_quotient(120000, 300, 400);
        lemma_quotient(120000, 60, 2000);
        lemma_quotient(2400, 300, 8);
        assert(m.nmax == 120000 && m.nstep == 300 && m.nhsym == 397 && m.ndown == 60 && m.ndfft1
            == 120000 && m.ndfft2 == 2000 && m.jstrt == 8);
    } else if i == 2 {
        lemma_quotient(72000, 150, 480);
        lemma_quotient(72000, 50, 1440);
        lemma_quotient(1200, 150, 8);
        assert(m.nmax == 72000 && m.nstep == 150 && m.nhsym == 477 && m.ndown == 50 && m.ndfft1
            == 72000 && m.ndfft2 == 1440 && m.jstrt == 8);
    } else {
        lemma_quotient(360000, 960, 375);
        lemma_quotient(360960, 120, 3008);
        lemma_quotient(6000, 960, 6);
        assert(m.nmax == 360000 && m.nstep == 960 && m.nhsym == 372 && m.ndown == 120 && m.ndfft1
            == 360960 && m.ndfft2 == 3008 && m.jstrt == 6);
    }
}

/// What makes the sync blocks fit to be found: no two pairs of symbols that lie equally far apart
/// have tones that lie equally far apart, so that a block laid over itself out of place agrees in
/// one symbol at most.
pub proof fn law_costas(b: int, h: int, i: int, j: int)
    requires
        0 <= b < 3,
        0 < h,
        0 <= i < j,
        j + h < 7,
    ensures
        COSTAS_ORIGINAL@[b]@[i + h] - COSTAS_ORIGINAL@[b]@[i] != COSTAS_ORIGINAL@[b]@[j + h]
            - COSTAS_ORIGINAL@[b]@[j],
        COSTAS_MODIFIED@[b]@[i + h] - COSTAS_MODIFIED@[b]@[i] != COSTAS_MODIFIED@[b]@[j + h]
            - COSTAS_MODIFIED@[b]@[j],
{
    let r = COSTAS_ORIGINAL@[b]@;
    let m = COSTAS_MODIFIED@[b]@;
    assert(r[0] == 4 && r[1] == 2 && r[2] == 5 && r[3] == 6 && r[4] == 1 && r[5] == 3 && r[6] == 0);
    if b == 0 {
        assert(m[0] == 0 && m[1] == 6 && m[2] == 2 && m[3] == 3 && m[4] == 5 && m[5] == 4 && m[6]
            == 1);
    } else if b == 1 {
        assert(m[0] == 1 && m[1] == 5 && m[2] == 0 && m[3] == 2 && m[4] == 3 && m[5] == 6 && m[6]
            == 4);
    } else {
        assert(m[0] == 2 && m[1] == 5 && m[2] == 0 && m[3] == 6 && m[4] == 4 && m[5] == 1 && m[6]
            == 3);
    }
    assert(h == 1 || h == 2 || h == 3 || h == 4 || h == 5);
    assert(i == 0 || i == 1 || i == 2 || i == 3 || i == 4);
    assert(j == 1 || j == 2 || j == 3 || j == 4 || j == 5);
}

} // verus!

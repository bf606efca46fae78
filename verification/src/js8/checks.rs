//! The parity checks of the code: every codeword meets all of them. Each covers five to seven bits,
//! which is what the error correction of a receiver works with.
use crate::js8::bits;
use crate::js8::errors::{codeword, flipped, law_checks_follow_from_single_bits, meets, single};
use crate::js8::frame::{enters, overlap, parity_of, CheckNode, PARITY_ROWS};
use vstd::prelude::*;

verus! {

/// The codeword bits that each check covers: the parity bits are 0 to 86, the message bits 87 to
/// 173, and 255 fills up.
pub const CHECK_PLACES: [[u8; 7]; 87] = [
    [0, 29, 59, 88, 117, 146, 255],
    [0, 31, 76, 104, 135, 163, 255],
    [0, 35, 81, 107, 126, 173, 255],
    [1, 30, 60, 89, 118, 146, 255],
    [1, 33, 63, 92, 121, 149, 255],
    [1, 56, 62, 102, 137, 156, 255],
    [2, 31, 61, 90, 119, 147, 255],
    [2, 47, 62, 106, 123, 166, 255],
    [2, 53, 69, 100, 139, 169, 255],
    [3, 32, 62, 91, 120, 148, 255],
    [3, 50, 75, 114, 126, 167, 255],
    [3, 58, 71, 113, 118, 162, 172],
    [4, 32, 64, 93, 122, 147, 255],
    [4, 43, 77, 108, 140, 255, 255],
    [4, 52, 80, 104, 139, 255, 255],
    [5, 31, 86, 103, 144, 168, 255],
    [5, 33, 65, 94, 123, 150, 255],
    [5, 50, 66, 110, 133, 154, 255],
    [6, 29, 71, 109, 142, 150, 255],
    [6, 34, 66, 95, 119, 151, 255],
    [6, 54, 82, 100, 130, 167, 255],
    [7, 35, 67, 96, 124, 152, 255],
    [7, 36, 64, 101, 128, 169, 255],
    [7, 51, 82, 110, 117, 165, 255],
    [8, 36, 68, 97, 125, 151, 255],
    [8, 49, 58, 92, 127, 163, 255],
    [8, 53, 83, 89, 140, 168, 255],
    [9, 32, 59, 94, 127, 155, 255],
    [9, 37, 69, 98, 126, 153, 255],
    [9, 45, 68, 102, 135, 164, 255],
    [10, 38, 70, 99, 125, 154, 255],
    [10, 47, 80, 88, 145, 168, 255],
    [10, 51, 65, 87, 118, 147, 255],
    [11, 37, 76, 101, 133, 162, 255],
    [11, 39, 60, 100, 127, 144, 255],
    [11, 55, 83, 87, 138, 255, 255],
    [12, 40, 71, 96, 125, 156, 255],
    [12, 41, 72, 89, 128, 155, 255],
    [12, 55, 61, 110, 145, 170, 255],
    [13, 38, 73, 98, 129, 157, 255],
    [13, 40, 86, 107, 116, 148, 169],
    [13, 56, 57, 108, 119, 165, 255],
    [14, 29, 85, 114, 122, 149, 255],
    [14, 42, 74, 101, 130, 158, 255],
    [14, 57, 87, 111, 120, 163, 255],
    [15, 42, 70, 102, 117, 159, 255],
    [15, 44, 86, 113, 124, 171, 255],
    [15, 49, 81, 90, 128, 157, 255],
    [16, 30, 81, 112, 120, 160, 255],
    [16, 43, 75, 97, 129, 155, 255],
    [16, 54, 61, 115, 124, 153, 255],
    [17, 41, 79, 108, 138, 153, 255],
    [17, 44, 59, 95, 131, 160, 255],
    [17, 48, 73, 96, 114, 166, 255],
    [18, 38, 84, 113, 138, 149, 255],
    [18, 45, 72, 82, 132, 161, 255],
    [18, 46, 77, 103, 134, 146, 255],
    [19, 39, 67, 116, 140, 159, 255],
    [19, 44, 75, 111, 139, 156, 255],
    [19, 47, 72, 105, 122, 162, 255],
    [20, 35, 63, 91, 129, 158, 255],
    [20, 40, 78, 106, 136, 164, 255],
    [20, 52, 83, 112, 137, 167, 255],
    [21, 41, 65, 107, 137, 151, 255],
    [21, 43, 74, 106, 132, 154, 171],
    [21, 53, 84, 109, 135, 160, 255],
    [22, 34, 74, 112, 144, 152, 255],
    [22, 45, 63, 90, 143, 172, 255],
    [22, 48, 80, 109, 134, 165, 255],
    [23, 34, 76, 99, 121, 161, 255],
    [23, 49, 77, 105, 142, 148, 255],
    [23, 56, 67, 94, 136, 141, 255],
    [24, 39, 84, 93, 123, 158, 255],
    [24, 50, 78, 88, 121, 157, 255],
    [24, 57, 68, 115, 142, 173, 255],
    [25, 36, 79, 104, 143, 150, 255],
    [25, 37, 78, 111, 134, 170, 255],
    [25, 54, 70, 92, 141, 166, 255],
    [26, 33, 73, 105, 130, 164, 255],
    [26, 46, 85, 97, 133, 152, 255],
    [26, 55, 64, 95, 132, 159, 173],
    [27, 30, 85, 99, 116, 170, 255],
    [27, 48, 58, 93, 136, 255, 255],
    [27, 51, 69, 103, 131, 143, 255],
    [28, 42, 60, 115, 131, 161, 255],
    [28, 46, 79, 91, 145, 171, 255],
    [28, 52, 66, 98, 141, 172, 255],
];

/// How many codeword bits each check covers.
pub const CHECK_SIZES: [usize; 87] = [
    6, 6, 6, 6, 6, 6, 6, 6, 6, 6, 6, 7, 6, 5, 5, 6, 6, 6, 6, 6, 6, 6, 6, 6, 6, 6, 6, 6, 6, 6,
    6, 6, 6, 6, 6, 5, 6, 6, 6, 6, 7, 6, 6, 6, 6, 6, 6, 6, 6, 6, 6, 6, 6, 6, 6, 6, 6, 6, 6, 6,
    6, 6, 6, 6, 7, 6, 6, 6, 6, 6, 6, 6, 6, 6, 6, 6, 6, 6, 6, 6, 7, 6, 5, 6, 6, 6, 6,
];

/// Check `i` of the code.
pub open spec fn check_of(i: int) -> CheckNode {
    CheckNode { valid: CHECK_SIZES@[i], bits: CHECK_PLACES@[i] }
}

/// The places of a check in use are codeword bits, and only these.
spec fn is_sized(i: int) -> bool {
    let c = CHECK_PLACES@[i]@;
    &&& CHECK_SIZES@[i] <= 7
    &&& forall|j: int| 0 <= j < 7 ==> (#[trigger] c[j] < 174 <==> j < CHECK_SIZES@[i])
}

/// The message bits that enter a codeword bit, at the places that the rows of the parity matrix
/// give them.
spec fn place_mask(p: int) -> u128 {
    if p < 87 {
        PARITY_ROWS[p]
    } else if p < 174 {
        1u128 << ((174 - p) as u128)
    } else {
        0
    }
}

/// The message bits that enter the first `n` places of a check an odd number of times.
spec fn check_mask(i: int, n: nat) -> u128
    decreases n,
{
    if n == 0 {
        0
    } else {
        check_mask(i, (n - 1) as nat) ^ place_mask(CHECK_PLACES@[i]@[n - 1] as int)
    }
}

proof fn lemma_sums_vanish()
    ensures
        0u128 ^ 0x23bba830e23b6b6f50982eu128 ^ 0xca4186dd44c3121565cf5cu128 ^ 0xa9fa2eefa6f8796a355772u128 ^ (1u128 << 86u128) ^ (1u128 << 57u128) ^ (1u128 << 28u128) ^ 0u128 == 0,
        0u128 ^ 0x23bba830e23b6b6f50982eu128 ^ 0x1616d78018d0b4745ca0f2u128 ^ 0x35ad3fb0faeb5f1b0c30dcu128 ^ (1u128 << 70u128) ^ (1u128 << 39u128) ^ (1u128 << 11u128) ^ 0u128 == 0,
        0u128 ^ 0x23bba830e23b6b6f50982eu128 ^ 0x3776af54ccfbae916afde6u128 ^ 0x14cd0f642fc0c5fe3a65cau128 ^ (1u128 << 67u128) ^ (1u128 << 48u128) ^ (1u128 << 1u128) ^ 0u128 == 0,
        0u128 ^ 0x1f8e55da218c5df3309052u128 ^ 0x29c29dba9c545e267762feu128 ^ 0x164cc861bdd803c547f2acu128 ^ (1u128 << 85u128) ^ (1u128 << 56u128) ^ (1u128 << 28u128) ^ 0u128 == 0,
        0u128 ^ 0x1f8e55da218c5df3309052u128 ^ 0xa9fa8e50bcb032c85e3304u128 ^ 0xb274db8abd3c6f396ea356u128 ^ (1u128 << 82u128) ^ (1u128 << 53u128) ^ (1u128 << 25u128) ^ 0u128 == 0,
        0u128 ^ 0x1f8e55da218c5df3309052u128 ^ 0xbf4f56e073271f6ab4bf80u128 ^ 0xa0c0033a52ab6299802fd2u128 ^ (1u128 << 72u128) ^ (1u128 << 37u128) ^ (1u128 << 18u128) ^ 0u128 == 0,
        0u128 ^ 0xca7b3217cd92bd59a5ae20u128 ^ 0x1616d78018d0b4745ca0f2u128 ^ 0xcc6de59755420925f90ed2u128 ^ (1u128 << 84u128) ^ (1u128 << 55u128) ^ (1u128 << 27u128) ^ 0u128 == 0,
        0u128 ^ 0xca7b3217cd92bd59a5ae20u128 ^ 0x6abb212d9739dfc02580f2u128 ^ 0xa0c0033a52ab6299802fd2u128 ^ (1u128 << 68u128) ^ (1u128 << 51u128) ^ (1u128 << 8u128) ^ 0u128 == 0,
        0u128 ^ 0xca7b3217cd92bd59a5ae20u128 ^ 0x6c280d2a0523d9c4bc5946u128 ^ 0xa6573f3dc8b16c9d19f746u128 ^ (1u128 << 74u128) ^ (1u128 << 35u128) ^ (1u128 << 5u128) ^ 0u128 == 0,
        0u128 ^ 0x56f78313537d0f4382964eu128 ^ 0xfe37802941d66dde02b99cu128 ^ 0xa0c0033a52ab6299802fd2u128 ^ (1u128 << 83u128) ^ (1u128 << 54u128) ^ (1u128 << 26u128) ^ 0u128 == 0,
        0u128 ^ 0x56f78313537d0f4382964eu128 ^ 0x612f63acc025b6ab476f7cu128 ^ 0x37d8e0af9258b9e8c5f9b2u128 ^ (1u128 << 60u128) ^ (1u128 << 48u128) ^ (1u128 << 7u128) ^ 0u128 == 0,
        0u128 ^ 0x56f78313537d0f4382964eu128 ^ 0x57da6d13cb96a7689b2790u128 ^ 0x012dee2198eba82b19a1dau128 ^ (1u128 << 61u128) ^ (1u128 << 56u128) ^ (1u128 << 12u128) ^ (1u128 << 2u128) == 0,
        0u128 ^ 0x6be396b5e2e819e373340cu128 ^ 0xfe37802941d66dde02b99cu128 ^ 0x97d4169cb33e7435718d90u128 ^ (1u128 << 81u128) ^ (1u128 << 52u128) ^ (1u128 << 27u128) ^ 0u128 == 0,
        0u128 ^ 0x6be396b5e2e819e373340cu128 ^ 0x0af7723161ec223080be86u128 ^ 0x6114e08483043fd3f38a8au128 ^ (1u128 << 66u128) ^ (1u128 << 34u128) ^ 0u128 ^ 0u128 == 0,
        0u128 ^ 0x6be396b5e2e819e373340cu128 ^ 0x45b7ab6242b77474d9f11au128 ^ 0x2e547dd7a05f6597aac516u128 ^ (1u128 << 70u128) ^ (1u128 << 35u128) ^ 0u128 ^ 0u128 == 0,
        0u128 ^ 0x293548a138858328af4210u128 ^ 0x1616d78018d0b4745ca0f2u128 ^ 0x3f231f212055371cf3e2a2u128 ^ (1u128 << 71u128) ^ (1u128 << 30u128) ^ (1u128 << 6u128) ^ 0u128 == 0,
        0u128 ^ 0x293548a138858328af4210u128 ^ 0xa9fa8e50bcb032c85e3304u128 ^ 0x81cfc6f18c35b1e1f17114u128 ^ (1u128 << 80u128) ^ (1u128 << 51u128) ^ (1u128 << 24u128) ^ 0u128 == 0,
        0u128 ^ 0x293548a138858328af4210u128 ^ 0x612f63acc025b6ab476f7cu128 ^ 0x481a2a0df8a23583f82d6cu128 ^ (1u128 << 64u128) ^ (1u128 << 41u128) ^ (1u128 << 20u128) ^ 0u128 == 0,
        0u128 ^ 0xcb6c6afcdc28bb3f7c6e86u128 ^ 0xca4186dd44c3121565cf5cu128 ^ 0x012dee2198eba82b19a1dau128 ^ (1u128 << 65u128) ^ (1u128 << 32u128) ^ (1u128 << 24u128) ^ 0u128 == 0,
        0u128 ^ 0xcb6c6afcdc28bb3f7c6e86u128 ^ 0x83f640f1a48a8ebc0443eau128 ^ 0x481a2a0df8a23583f82d6cu128 ^ (1u128 << 79u128) ^ (1u128 << 55u128) ^ (1u128 << 23u128) ^ 0u128 == 0,
        0u128 ^ 0xcb6c6afcdc28bb3f7c6e86u128 ^ 0xf1627701a2d692fd9449e6u128 ^ 0x3a0a1dfd7eee29c2e827e0u128 ^ (1u128 << 74u128) ^ (1u128 << 44u128) ^ (1u128 << 7u128) ^ 0u128 == 0,
        0u128 ^ 0x3f2a86f5c5bd225c961150u128 ^ 0x3776af54ccfbae916afde6u128 ^ 0x081c29a10d468ccdbcecb6u128 ^ (1u128 << 78u128) ^ (1u128 << 50u128) ^ (1u128 << 22u128) ^ 0u128 == 0,
        0u128 ^ 0x3f2a86f5c5bd225c961150u128 ^ 0xa8fc906976c35669e79ce0u128 ^ 0x97d4169cb33e7435718d90u128 ^ (1u128 << 73u128) ^ (1u128 << 46u128) ^ (1u128 << 5u128) ^ 0u128 == 0,
        0u128 ^ 0x3f2a86f5c5bd225c961150u128 ^ 0x05209a0abb530b9e7e34b0u128 ^ 0x3a0a1dfd7eee29c2e827e0u128 ^ (1u128 << 64u128) ^ (1u128 << 57u128) ^ (1u128 << 9u128) ^ 0u128 == 0,
        0u128 ^ 0x849dd2d63673481860f62cu128 ^ 0xa8fc906976c35669e79ce0u128 ^ 0x2c4142bf42b01e71076accu128 ^ (1u128 << 77u128) ^ (1u128 << 49u128) ^ (1u128 << 23u128) ^ 0u128 == 0,
        0u128 ^ 0x849dd2d63673481860f62cu128 ^ 0xd747bfc5fd65ef70fbd9bcu128 ^ 0x57da6d13cb96a7689b2790u128 ^ (1u128 << 82u128) ^ (1u128 << 47u128) ^ (1u128 << 11u128) ^ 0u128 == 0,
        0u128 ^ 0x849dd2d63673481860f62cu128 ^ 0x6c280d2a0523d9c4bc5946u128 ^ 0xc8b5dffc335095dcdcaf2au128 ^ (1u128 << 85u128) ^ (1u128 << 34u128) ^ (1u128 << 6u128) ^ 0u128 == 0,
        0u128 ^ 0x56cdaec6e7ae14b43feeeeu128 ^ 0xfe37802941d66dde02b99cu128 ^ 0xa9fa2eefa6f8796a355772u128 ^ (1u128 << 80u128) ^ (1u128 << 47u128) ^ (1u128 << 19u128) ^ 0u128 == 0,
        0u128 ^ 0x56cdaec6e7ae14b43feeeeu128 ^ 0xf08a91fb2e1f78290619a8u128 ^ 0xa6573f3dc8b16c9d19f746u128 ^ (1u128 << 76u128) ^ (1u128 << 48u128) ^ (1u128 << 21u128) ^ 0u128 == 0,
        0u128 ^ 0x56cdaec6e7ae14b43feeeeu128 ^ 0x7a8dec79a51e8ac5388022u128 ^ 0x2c4142bf42b01e71076accu128 ^ (1u128 << 72u128) ^ (1u128 << 39u128) ^ (1u128 << 10u128) ^ 0u128 == 0,
        0u128 ^ 0x04ef5cfa3766ba778f45a4u128 ^ 0xcc9da55fe046d0cb3a770cu128 ^ 0xc87af9a5d5206abca532a8u128 ^ (1u128 << 75u128) ^ (1u128 << 49u128) ^ (1u128 << 20u128) ^ 0u128 == 0,
        0u128 ^ 0x04ef5cfa3766ba778f45a4u128 ^ 0x6abb212d9739dfc02580f2u128 ^ 0x2e547dd7a05f6597aac516u128 ^ (1u128 << 86u128) ^ (1u128 << 29u128) ^ (1u128 << 6u128) ^ 0u128 == 0,
        0u128 ^ 0x04ef5cfa3766ba778f45a4u128 ^ 0x05209a0abb530b9e7e34b0u128 ^ 0x81cfc6f18c35b1e1f17114u128 ^ (1u128 << 87u128) ^ (1u128 << 56u128) ^ (1u128 << 27u128) ^ 0u128 == 0,
        0u128 ^ 0xc525ae4bd4f627320a3974u128 ^ 0xf08a91fb2e1f78290619a8u128 ^ 0x35ad3fb0faeb5f1b0c30dcu128 ^ (1u128 << 73u128) ^ (1u128 << 41u128) ^ (1u128 << 12u128) ^ 0u128 == 0,
        0u128 ^ 0xc525ae4bd4f627320a3974u128 ^ 0xd36d662a69ae24b74dcbd8u128 ^ 0x164cc861bdd803c547f2acu128 ^ (1u128 << 74u128) ^ (1u128 << 47u128) ^ (1u128 << 30u128) ^ 0u128 == 0,
        0u128 ^ 0xc525ae4bd4f627320a3974u128 ^ 0x8d9071b7e7a6a2eed6965eu128 ^ 0xc8b5dffc335095dcdcaf2au128 ^ (1u128 << 87u128) ^ (1u128 << 36u128) ^ 0u128 ^ 0u128 == 0,
        0u128 ^ 0x41fd9520b2e4abeb2f989cu128 ^ 0x40907b01280f03c0323946u128 ^ 0x012dee2198eba82b19a1dau128 ^ (1u128 << 78u128) ^ (1u128 << 49u128) ^ (1u128 << 18u128) ^ 0u128 == 0,
        0u128 ^ 0x41fd9520b2e4abeb2f989cu128 ^ 0xd037db825175d851f3af00u128 ^ 0xb1ca4ea2e3d173bad4379cu128 ^ (1u128 << 85u128) ^ (1u128 << 46u128) ^ (1u128 << 19u128) ^ 0u128 == 0,
        0u128 ^ 0x41fd9520b2e4abeb2f989cu128 ^ 0x8d9071b7e7a6a2eed6965eu128 ^ 0xcc6de59755420925f90ed2u128 ^ (1u128 << 64u128) ^ (1u128 << 29u128) ^ (1u128 << 4u128) ^ 0u128 == 0,
        0u128 ^ 0x7fb36c24085a34d8c1dbc4u128 ^ 0xcc9da55fe046d0cb3a770cu128 ^ 0xb33ec97be83ce413f9acc8u128 ^ (1u128 << 76u128) ^ (1u128 << 45u128) ^ (1u128 << 17u128) ^ 0u128 == 0,
        0u128 ^ 0x7fb36c24085a34d8c1dbc4u128 ^ 0x40907b01280f03c0323946u128 ^ 0x3f231f212055371cf3e2a2u128 ^ (1u128 << 67u128) ^ (1u128 << 58u128) ^ (1u128 << 26u128) ^ (1u128 << 5u128) == 0,
        0u128 ^ 0x7fb36c24085a34d8c1dbc4u128 ^ 0xbf4f56e073271f6ab4bf80u128 ^ 0xc0fc3ec4fb7d2bb2756644u128 ^ (1u128 << 66u128) ^ (1u128 << 55u128) ^ (1u128 << 9u128) ^ 0u128 == 0,
        0u128 ^ 0x40fc3e44bb7d2bb2756e44u128 ^ 0xca4186dd44c3121565cf5cu128 ^ 0x8abdb889efbe39a510a118u128 ^ (1u128 << 60u128) ^ (1u128 << 52u128) ^ (1u128 << 25u128) ^ 0u128 == 0,
        0u128 ^ 0x40fc3e44bb7d2bb2756e44u128 ^ 0x1bf1490607c54032660edeu128 ^ 0x5b0f7742bca86b8012609au128 ^ (1u128 << 73u128) ^ (1u128 << 44u128) ^ (1u128 << 16u128) ^ 0u128 == 0,
        0u128 ^ 0x40fc3e44bb7d2bb2756e44u128 ^ 0xc0fc3ec4fb7d2bb2756644u128 ^ (1u128 << 87u128) ^ (1u128 << 63u128) ^ (1u128 << 54u128) ^ (1u128 << 11u128) ^ 0u128 == 0,
        0u128 ^ 0xd38ab0a1d2e52a8ec3bc76u128 ^ 0x1bf1490607c54032660edeu128 ^ 0xc87af9a5d5206abca532a8u128 ^ (1u128 << 72u128) ^ (1u128 << 57u128) ^ (1u128 << 15u128) ^ 0u128 == 0,
        0u128 ^ 0xd38ab0a1d2e52a8ec3bc76u128 ^ 0xeca9afa0f6b01d92305edcu128 ^ 0x3f231f212055371cf3e2a2u128 ^ (1u128 << 61u128) ^ (1u128 << 50u128) ^ (1u128 << 3u128) ^ 0u128 == 0,
        0u128 ^ 0xd38ab0a1d2e52a8ec3bc76u128 ^ 0xd747bfc5fd65ef70fbd9bcu128 ^ 0x14cd0f642fc0c5fe3a65cau128 ^ (1u128 << 84u128) ^ (1u128 << 46u128) ^ (1u128 << 17u128) ^ 0u128 == 0,
        0u128 ^ 0x3d0f929ef3949bd84d4734u128 ^ 0x29c29dba9c545e267762feu128 ^ 0x14cd0f642fc0c5fe3a65cau128 ^ (1u128 << 62u128) ^ (1u128 << 54u128) ^ (1u128 << 14u128) ^ 0u128 == 0,
        0u128 ^ 0x3d0f929ef3949bd84d4734u128 ^ 0x0af7723161ec223080be86u128 ^ 0x37d8e0af9258b9e8c5f9b2u128 ^ (1u128 << 77u128) ^ (1u128 << 45u128) ^ (1u128 << 19u128) ^ 0u128 == 0,
        0u128 ^ 0x3d0f929ef3949bd84d4734u128 ^ 0xf1627701a2d692fd9449e6u128 ^ 0xcc6de59755420925f90ed2u128 ^ (1u128 << 59u128) ^ (1u128 << 50u128) ^ (1u128 << 21u128) ^ 0u128 == 0,
        0u128 ^ 0x45d3814f504064f80549aeu128 ^ 0xd037db825175d851f3af00u128 ^ 0x95e45ecd0135aca9d6e6aeu128 ^ (1u128 << 66u128) ^ (1u128 << 36u128) ^ (1u128 << 21u128) ^ 0u128 == 0,
        0u128 ^ 0x45d3814f504064f80549aeu128 ^ 0xeca9afa0f6b01d92305edcu128 ^ 0xa9fa2eefa6f8796a355772u128 ^ (1u128 << 79u128) ^ (1u128 << 43u128) ^ (1u128 << 14u128) ^ 0u128 == 0,
        0u128 ^ 0x45d3814f504064f80549aeu128 ^ 0xf6ad4824b87c80ebfce466u128 ^ 0xb33ec97be83ce413f9acc8u128 ^ (1u128 << 78u128) ^ (1u128 << 60u128) ^ (1u128 << 8u128) ^ 0u128 == 0,
        0u128 ^ 0xf14dbf263825d0bd04b05eu128 ^ 0xcc9da55fe046d0cb3a770cu128 ^ 0x3dd01a59d86310743ec752u128 ^ (1u128 << 61u128) ^ (1u128 << 36u128) ^ (1u128 << 25u128) ^ 0u128 == 0,
        0u128 ^ 0xf14dbf263825d0bd04b05eu128 ^ 0x7a8dec79a51e8ac5388022u128 ^ 0xb1ca4ea2e3d173bad4379cu128 ^ 0x3a0a1dfd7eee29c2e827e0u128 ^ (1u128 << 42u128) ^ (1u128 << 13u128) ^ 0u128 == 0,
        0u128 ^ 0xf14dbf263825d0bd04b05eu128 ^ 0x9059dfa2bb20ef7ef73ad4u128 ^ 0x6114e08483043fd3f38a8au128 ^ (1u128 << 71u128) ^ (1u128 << 40u128) ^ (1u128 << 28u128) ^ 0u128 == 0,
        0u128 ^ 0xdb714f8f64e8ac7af1a76eu128 ^ 0xd36d662a69ae24b74dcbd8u128 ^ 0x081c29a10d468ccdbcecb6u128 ^ (1u128 << 58u128) ^ (1u128 << 34u128) ^ (1u128 << 15u128) ^ 0u128 == 0,
        0u128 ^ 0xdb714f8f64e8ac7af1a76eu128 ^ 0xeca9afa0f6b01d92305edcu128 ^ 0x37d8e0af9258b9e8c5f9b2u128 ^ (1u128 << 63u128) ^ (1u128 << 35u128) ^ (1u128 << 18u128) ^ 0u128 == 0,
        0u128 ^ 0xdb714f8f64e8ac7af1a76eu128 ^ 0x6abb212d9739dfc02580f2u128 ^ 0xb1ca4ea2e3d173bad4379cu128 ^ (1u128 << 69u128) ^ (1u128 << 52u128) ^ (1u128 << 12u128) ^ 0u128 == 0,
        0u128 ^ 0x8d0274de71e7c1a8055eb0u128 ^ 0x3776af54ccfbae916afde6u128 ^ 0xb274db8abd3c6f396ea356u128 ^ (1u128 << 83u128) ^ (1u128 << 45u128) ^ (1u128 << 16u128) ^ 0u128 == 0,
        0u128 ^ 0x8d0274de71e7c1a8055eb0u128 ^ 0x40907b01280f03c0323946u128 ^ 0xcd921fdf59e882683763f6u128 ^ (1u128 << 68u128) ^ (1u128 << 38u128) ^ (1u128 << 10u128) ^ 0u128 == 0,
        0u128 ^ 0x8d0274de71e7c1a8055eb0u128 ^ 0x45b7ab6242b77474d9f11au128 ^ 0xc8b5dffc335095dcdcaf2au128 ^ (1u128 << 62u128) ^ (1u128 << 37u128) ^ (1u128 << 7u128) ^ 0u128 == 0,
        0u128 ^ 0x51f81573dd4049b082de14u128 ^ 0xd037db825175d851f3af00u128 ^ 0x81cfc6f18c35b1e1f17114u128 ^ (1u128 << 67u128) ^ (1u128 << 37u128) ^ (1u128 << 23u128) ^ 0u128 == 0,
        0u128 ^ 0x51f81573dd4049b082de14u128 ^ 0x0af7723161ec223080be86u128 ^ 0x5b0f7742bca86b8012609au128 ^ (1u128 << 68u128) ^ (1u128 << 42u128) ^ (1u128 << 20u128) ^ (1u128 << 3u128) == 0,
        0u128 ^ 0x51f81573dd4049b082de14u128 ^ 0x6c280d2a0523d9c4bc5946u128 ^ 0x3dd01a59d86310743ec752u128 ^ (1u128 << 65u128) ^ (1u128 << 39u128) ^ (1u128 << 14u128) ^ 0u128 == 0,
        0u128 ^ 0xd8f937f31822e57c562370u128 ^ 0x83f640f1a48a8ebc0443eau128 ^ 0x5b0f7742bca86b8012609au128 ^ (1u128 << 62u128) ^ (1u128 << 30u128) ^ (1u128 << 22u128) ^ 0u128 == 0,
        0u128 ^ 0xd8f937f31822e57c562370u128 ^ 0x7a8dec79a51e8ac5388022u128 ^ 0xb274db8abd3c6f396ea356u128 ^ (1u128 << 84u128) ^ (1u128 << 31u128) ^ (1u128 << 2u128) ^ 0u128 == 0,
        0u128 ^ 0xd8f937f31822e57c562370u128 ^ 0xf6ad4824b87c80ebfce466u128 ^ 0x2e547dd7a05f6597aac516u128 ^ (1u128 << 65u128) ^ (1u128 << 40u128) ^ (1u128 << 9u128) ^ 0u128 == 0,
        0u128 ^ 0xb6537f417e61d1a7085336u128 ^ 0x83f640f1a48a8ebc0443eau128 ^ 0x35ad3fb0faeb5f1b0c30dcu128 ^ (1u128 << 75u128) ^ (1u128 << 53u128) ^ (1u128 << 13u128) ^ 0u128 == 0,
        0u128 ^ 0xb6537f417e61d1a7085336u128 ^ 0xd747bfc5fd65ef70fbd9bcu128 ^ 0x6114e08483043fd3f38a8au128 ^ (1u128 << 69u128) ^ (1u128 << 32u128) ^ (1u128 << 26u128) ^ 0u128 == 0,
        0u128 ^ 0xb6537f417e61d1a7085336u128 ^ 0xbf4f56e073271f6ab4bf80u128 ^ 0x081c29a10d468ccdbcecb6u128 ^ (1u128 << 80u128) ^ (1u128 << 38u128) ^ (1u128 << 33u128) ^ 0u128 == 0,
        0u128 ^ 0xecbd7c73b9cd34c3720c8au128 ^ 0xd36d662a69ae24b74dcbd8u128 ^ 0x3dd01a59d86310743ec752u128 ^ (1u128 << 81u128) ^ (1u128 << 51u128) ^ (1u128 << 16u128) ^ 0u128 == 0,
        0u128 ^ 0xecbd7c73b9cd34c3720c8au128 ^ 0x612f63acc025b6ab476f7cu128 ^ 0xcd921fdf59e882683763f6u128 ^ (1u128 << 86u128) ^ (1u128 << 53u128) ^ (1u128 << 17u128) ^ 0u128 == 0,
        0u128 ^ 0xecbd7c73b9cd34c3720c8au128 ^ 0xc0fc3ec4fb7d2bb2756644u128 ^ 0x2c4142bf42b01e71076accu128 ^ (1u128 << 59u128) ^ (1u128 << 32u128) ^ (1u128 << 1u128) ^ 0u128 == 0,
        0u128 ^ 0x3d188ea477f6fa41317a4eu128 ^ 0xa8fc906976c35669e79ce0u128 ^ 0x95e45ecd0135aca9d6e6aeu128 ^ (1u128 << 70u128) ^ (1u128 << 31u128) ^ (1u128 << 24u128) ^ 0u128 == 0,
        0u128 ^ 0x3d188ea477f6fa41317a4eu128 ^ 0xf08a91fb2e1f78290619a8u128 ^ 0xcd921fdf59e882683763f6u128 ^ (1u128 << 63u128) ^ (1u128 << 40u128) ^ (1u128 << 4u128) ^ 0u128 == 0,
        0u128 ^ 0x3d188ea477f6fa41317a4eu128 ^ 0xf1627701a2d692fd9449e6u128 ^ 0xc87af9a5d5206abca532a8u128 ^ (1u128 << 82u128) ^ (1u128 << 33u128) ^ (1u128 << 8u128) ^ 0u128 == 0,
        0u128 ^ 0x1ac4672b549cd6dba79bccu128 ^ 0xa9fa8e50bcb032c85e3304u128 ^ 0xb33ec97be83ce413f9acc8u128 ^ (1u128 << 69u128) ^ (1u128 << 44u128) ^ (1u128 << 10u128) ^ 0u128 == 0,
        0u128 ^ 0x1ac4672b549cd6dba79bccu128 ^ 0x9059dfa2bb20ef7ef73ad4u128 ^ 0x8abdb889efbe39a510a118u128 ^ (1u128 << 77u128) ^ (1u128 << 41u128) ^ (1u128 << 22u128) ^ 0u128 == 0,
        0u128 ^ 0x1ac4672b549cd6dba79bccu128 ^ 0x8d9071b7e7a6a2eed6965eu128 ^ 0x97d4169cb33e7435718d90u128 ^ (1u128 << 79u128) ^ (1u128 << 42u128) ^ (1u128 << 15u128) ^ (1u128 << 1u128) == 0,
        0u128 ^ 0xa377253773ea678367c3f6u128 ^ 0x29c29dba9c545e267762feu128 ^ 0x8abdb889efbe39a510a118u128 ^ (1u128 << 75u128) ^ (1u128 << 58u128) ^ (1u128 << 4u128) ^ 0u128 == 0,
        0u128 ^ 0xa377253773ea678367c3f6u128 ^ 0xf6ad4824b87c80ebfce466u128 ^ 0x57da6d13cb96a7689b2790u128 ^ (1u128 << 81u128) ^ (1u128 << 38u128) ^ 0u128 ^ 0u128 == 0,
        0u128 ^ 0xa377253773ea678367c3f6u128 ^ 0x05209a0abb530b9e7e34b0u128 ^ 0xa6573f3dc8b16c9d19f746u128 ^ (1u128 << 71u128) ^ (1u128 << 43u128) ^ (1u128 << 31u128) ^ 0u128 == 0,
        0u128 ^ 0x0dbd816fba1543f721dc72u128 ^ 0x1bf1490607c54032660edeu128 ^ 0x164cc861bdd803c547f2acu128 ^ (1u128 << 59u128) ^ (1u128 << 43u128) ^ (1u128 << 13u128) ^ 0u128 == 0,
        0u128 ^ 0x0dbd816fba1543f721dc72u128 ^ 0x9059dfa2bb20ef7ef73ad4u128 ^ 0x95e45ecd0135aca9d6e6aeu128 ^ (1u128 << 83u128) ^ (1u128 << 29u128) ^ (1u128 << 3u128) ^ 0u128 == 0,
        0u128 ^ 0x0dbd816fba1543f721dc72u128 ^ 0x45b7ab6242b77474d9f11au128 ^ 0x481a2a0df8a23583f82d6cu128 ^ (1u128 << 76u128) ^ (1u128 << 33u128) ^ (1u128 << 2u128) ^ 0u128 == 0,
{
    assert(0u128 ^ 0x23bba830e23b6b6f50982eu128 ^ 0xca4186dd44c3121565cf5cu128 ^ 0xa9fa2eefa6f8796a355772u128 ^ (1u128 << 86u128) ^ (1u128 << 57u128) ^ (1u128 << 28u128) ^ 0u128 == 0
        && 0u128 ^ 0x23bba830e23b6b6f50982eu128 ^ 0x1616d78018d0b4745ca0f2u128 ^ 0x35ad3fb0faeb5f1b0c30dcu128 ^ (1u128 << 70u128) ^ (1u128 << 39u128) ^ (1u128 << 11u128) ^ 0u128 == 0
        && 0u128 ^ 0x23bba830e23b6b6f50982eu128 ^ 0x3776af54ccfbae916afde6u128 ^ 0x14cd0f642fc0c5fe3a65cau128 ^ (1u128 << 67u128) ^ (1u128 << 48u128) ^ (1u128 << 1u128) ^ 0u128 == 0
        && 0u128 ^ 0x1f8e55da218c5df3309052u128 ^ 0x29c29dba9c545e267762feu128 ^ 0x164cc861bdd803c547f2acu128 ^ (1u128 << 85u128) ^ (1u128 << 56u128) ^ (1u128 << 28u128) ^ 0u128 == 0
        && 0u128 ^ 0x1f8e55da218c5df3309052u128 ^ 0xa9fa8e50bcb032c85e3304u128 ^ 0xb274db8abd3c6f396ea356u128 ^ (1u128 << 82u128) ^ (1u128 << 53u128) ^ (1u128 << 25u128) ^ 0u128 == 0
        && 0u128 ^ 0x1f8e55da218c5df3309052u128 ^ 0xbf4f56e073271f6ab4bf80u128 ^ 0xa0c0033a52ab6299802fd2u128 ^ (1u128 << 72u128) ^ (1u128 << 37u128) ^ (1u128 << 18u128) ^ 0u128 == 0
        && 0u128 ^ 0xca7b3217cd92bd59a5ae20u128 ^ 0x1616d78018d0b4745ca0f2u128 ^ 0xcc6de59755420925f90ed2u128 ^ (1u128 << 84u128) ^ (1u128 << 55u128) ^ (1u128 << 27u128) ^ 0u128 == 0
        && 0u128 ^ 0xca7b3217cd92bd59a5ae20u128 ^ 0x6abb212d9739dfc02580f2u128 ^ 0xa0c0033a52ab6299802fd2u128 ^ (1u128 << 68u128) ^ (1u128 << 51u128) ^ (1u128 << 8u128) ^ 0u128 == 0
        && 0u128 ^ 0xca7b3217cd92bd59a5ae20u128 ^ 0x6c280d2a0523d9c4bc5946u128 ^ 0xa6573f3dc8b16c9d19f746u128 ^ (1u128 << 74u128) ^ (1u128 << 35u128) ^ (1u128 << 5u128) ^ 0u128 == 0
        && 0u128 ^ 0x56f78313537d0f4382964eu128 ^ 0xfe37802941d66dde02b99cu128 ^ 0xa0c0033a52ab6299802fd2u128 ^ (1u128 << 83u128) ^ (1u128 << 54u128) ^ (1u128 << 26u128) ^ 0u128 == 0
        && 0u128 ^ 0x56f78313537d0f4382964eu128 ^ 0x612f63acc025b6ab476f7cu128 ^ 0x37d8e0af9258b9e8c5f9b2u128 ^ (1u128 << 60u128) ^ (1u128 << 48u128) ^ (1u128 << 7u128) ^ 0u128 == 0
        && 0u128 ^ 0x56f78313537d0f4382964eu128 ^ 0x57da6d13cb96a7689b2790u128 ^ 0x012dee2198eba82b19a1dau128 ^ (1u128 << 61u128) ^ (1u128 << 56u128) ^ (1u128 << 12u128) ^ (1u128 << 2u128) == 0
        && 0u128 ^ 0x6be396b5e2e819e373340cu128 ^ 0xfe37802941d66dde02b99cu128 ^ 0x97d4169cb33e7435718d90u128 ^ (1u128 << 81u128) ^ (1u128 << 52u128) ^ (1u128 << 27u128) ^ 0u128 == 0
        && 0u128 ^ 0x6be396b5e2e819e373340cu128 ^ 0x0af7723161ec223080be86u128 ^ 0x6114e08483043fd3f38a8au128 ^ (1u128 << 66u128) ^ (1u128 << 34u128) ^ 0u128 ^ 0u128 == 0
        && 0u128 ^ 0x6be396b5e2e819e373340cu128 ^ 0x45b7ab6242b77474d9f11au128 ^ 0x2e547dd7a05f6597aac516u128 ^ (1u128 << 70u128) ^ (1u128 << 35u128) ^ 0u128 ^ 0u128 == 0
        && 0u128 ^ 0x293548a138858328af4210u128 ^ 0x1616d78018d0b4745ca0f2u128 ^ 0x3f231f212055371cf3e2a2u128 ^ (1u128 << 71u128) ^ (1u128 << 30u128) ^ (1u128 << 6u128) ^ 0u128 == 0
        && 0u128 ^ 0x293548a138858328af4210u128 ^ 0xa9fa8e50bcb032c85e3304u128 ^ 0x81cfc6f18c35b1e1f17114u128 ^ (1u128 << 80u128) ^ (1u128 << 51u128) ^ (1u128 << 24u128) ^ 0u128 == 0
        && 0u128 ^ 0x293548a138858328af4210u128 ^ 0x612f63acc025b6ab476f7cu128 ^ 0x481a2a0df8a23583f82d6cu128 ^ (1u128 << 64u128) ^ (1u128 << 41u128) ^ (1u128 << 20u128) ^ 0u128 == 0
        && 0u128 ^ 0xcb6c6afcdc28bb3f7c6e86u128 ^ 0xca4186dd44c3121565cf5cu128 ^ 0x012dee2198eba82b19a1dau128 ^ (1u128 << 65u128) ^ (1u128 << 32u128) ^ (1u128 << 24u128) ^ 0u128 == 0
        && 0u128 ^ 0xcb6c6afcdc28bb3f7c6e86u128 ^ 0x83f640f1a48a8ebc0443eau128 ^ 0x481a2a0df8a23583f82d6cu128 ^ (1u128 << 79u128) ^ (1u128 << 55u128) ^ (1u128 << 23u128) ^ 0u128 == 0
        && 0u128 ^ 0xcb6c6afcdc28bb3f7c6e86u128 ^ 0xf1627701a2d692fd9449e6u128 ^ 0x3a0a1dfd7eee29c2e827e0u128 ^ (1u128 << 74u128) ^ (1u128 << 44u128) ^ (1u128 << 7u128) ^ 0u128 == 0
        && 0u128 ^ 0x3f2a86f5c5bd225c961150u128 ^ 0x3776af54ccfbae916afde6u128 ^ 0x081c29a10d468ccdbcecb6u128 ^ (1u128 << 78u128) ^ (1u128 << 50u128) ^ (1u128 << 22u128) ^ 0u128 == 0
        && 0u128 ^ 0x3f2a86f5c5bd225c961150u128 ^ 0xa8fc906976c35669e79ce0u128 ^ 0x97d4169cb33e7435718d90u128 ^ (1u128 << 73u128) ^ (1u128 << 46u128) ^ (1u128 << 5u128) ^ 0u128 == 0
        && 0u128 ^ 0x3f2a86f5c5bd225c961150u128 ^ 0x05209a0abb530b9e7e34b0u128 ^ 0x3a0a1dfd7eee29c2e827e0u128 ^ (1u128 << 64u128) ^ (1u128 << 57u128) ^ (1u128 << 9u128) ^ 0u128 == 0
        && 0u128 ^ 0x849dd2d63673481860f62cu128 ^ 0xa8fc906976c35669e79ce0u128 ^ 0x2c4142bf42b01e71076accu128 ^ (1u128 << 77u128) ^ (1u128 << 49u128) ^ (1u128 << 23u128) ^ 0u128 == 0
        && 0u128 ^ 0x849dd2d63673481860f62cu128 ^ 0xd747bfc5fd65ef70fbd9bcu128 ^ 0x57da6d13cb96a7689b2790u128 ^ (1u128 << 82u128) ^ (1u128 << 47u128) ^ (1u128 << 11u128) ^ 0u128 == 0
        && 0u128 ^ 0x849dd2d63673481860f62cu128 ^ 0x6c280d2a0523d9c4bc5946u128 ^ 0xc8b5dffc335095dcdcaf2au128 ^ (1u128 << 85u128) ^ (1u128 << 34u128) ^ (1u128 << 6u128) ^ 0u128 == 0
        && 0u128 ^ 0x56cdaec6e7ae14b43feeeeu128 ^ 0xfe37802941d66dde02b99cu128 ^ 0xa9fa2eefa6f8796a355772u128 ^ (1u128 << 80u128) ^ (1u128 << 47u128) ^ (1u128 << 19u128) ^ 0u128 == 0
        && 0u128 ^ 0x56cdaec6e7ae14b43feeeeu128 ^ 0xf08a91fb2e1f78290619a8u128 ^ 0xa6573f3dc8b16c9d19f746u128 ^ (1u128 << 76u128) ^ (1u128 << 48u128) ^ (1u128 << 21u128) ^ 0u128 == 0
        && 0u128 ^ 0x56cdaec6e7ae14b43feeeeu128 ^ 0x7a8dec79a51e8ac5388022u128 ^ 0x2c4142bf42b01e71076accu128 ^ (1u128 << 72u128) ^ (1u128 << 39u128) ^ (1u128 << 10u128) ^ 0u128 == 0
        && 0u128 ^ 0x04ef5cfa3766ba778f45a4u128 ^ 0xcc9da55fe046d0cb3a770cu128 ^ 0xc87af9a5d5206abca532a8u128 ^ (1u128 << 75u128) ^ (1u128 << 49u128) ^ (1u128 << 20u128) ^ 0u128 == 0
        && 0u128 ^ 0x04ef5cfa3766ba778f45a4u128 ^ 0x6abb212d9739dfc02580f2u128 ^ 0x2e547dd7a05f6597aac516u128 ^ (1u128 << 86u128) ^ (1u128 << 29u128) ^ (1u128 << 6u128) ^ 0u128 == 0
        && 0u128 ^ 0x04ef5cfa3766ba778f45a4u128 ^ 0x05209a0abb530b9e7e34b0u128 ^ 0x81cfc6f18c35b1e1f17114u128 ^ (1u128 << 87u128) ^ (1u128 << 56u128) ^ (1u128 << 27u128) ^ 0u128 == 0
        && 0u128 ^ 0xc525ae4bd4f627320a3974u128 ^ 0xf08a91fb2e1f78290619a8u128 ^ 0x35ad3fb0faeb5f1b0c30dcu128 ^ (1u128 << 73u128) ^ (1u128 << 41u128) ^ (1u128 << 12u128) ^ 0u128 == 0
        && 0u128 ^ 0xc525ae4bd4f627320a3974u128 ^ 0xd36d662a69ae24b74dcbd8u128 ^ 0x164cc861bdd803c547f2acu128 ^ (1u128 << 74u128) ^ (1u128 << 47u128) ^ (1u128 << 30u128) ^ 0u128 == 0
        && 0u128 ^ 0xc525ae4bd4f627320a3974u128 ^ 0x8d9071b7e7a6a2eed6965eu128 ^ 0xc8b5dffc335095dcdcaf2au128 ^ (1u128 << 87u128) ^ (1u128 << 36u128) ^ 0u128 ^ 0u128 == 0
        && 0u128 ^ 0x41fd9520b2e4abeb2f989cu128 ^ 0x40907b01280f03c0323946u128 ^ 0x012dee2198eba82b19a1dau128 ^ (1u128 << 78u128) ^ (1u128 << 49u128) ^ (1u128 << 18u128) ^ 0u128 == 0
        && 0u128 ^ 0x41fd9520b2e4abeb2f989cu128 ^ 0xd037db825175d851f3af00u128 ^ 0xb1ca4ea2e3d173bad4379cu128 ^ (1u128 << 85u128) ^ (1u128 << 46u128) ^ (1u128 << 19u128) ^ 0u128 == 0
        && 0u128 ^ 0x41fd9520b2e4abeb2f989cu128 ^ 0x8d9071b7e7a6a2eed6965eu128 ^ 0xcc6de59755420925f90ed2u128 ^ (1u128 << 64u128) ^ (1u128 << 29u128) ^ (1u128 << 4u128) ^ 0u128 == 0
        && 0u128 ^ 0x7fb36c24085a34d8c1dbc4u128 ^ 0xcc9da55fe046d0cb3a770cu128 ^ 0xb33ec97be83ce413f9acc8u128 ^ (1u128 << 76u128) ^ (1u128 << 45u128) ^ (1u128 << 17u128) ^ 0u128 == 0
        && 0u128 ^ 0x7fb36c24085a34d8c1dbc4u128 ^ 0x40907b01280f03c0323946u128 ^ 0x3f231f212055371cf3e2a2u128 ^ (1u128 << 67u128) ^ (1u128 << 58u128) ^ (1u128 << 26u128) ^ (1u128 << 5u128) == 0
        && 0u128 ^ 0x7fb36c24085a34d8c1dbc4u128 ^ 0xbf4f56e073271f6ab4bf80u128 ^ 0xc0fc3ec4fb7d2bb2756644u128 ^ (1u128 << 66u128) ^ (1u128 << 55u128) ^ (1u128 << 9u128) ^ 0u128 == 0
        && 0u128 ^ 0x40fc3e44bb7d2bb2756e44u128 ^ 0xca4186dd44c3121565cf5cu128 ^ 0x8abdb889efbe39a510a118u128 ^ (1u128 << 60u128) ^ (1u128 << 52u128) ^ (1u128 << 25u128) ^ 0u128 == 0
        && 0u128 ^ 0x40fc3e44bb7d2bb2756e44u128 ^ 0x1bf1490607c54032660edeu128 ^ 0x5b0f7742bca86b8012609au128 ^ (1u128 << 73u128) ^ (1u128 << 44u128) ^ (1u128 << 16u128) ^ 0u128 == 0
        && 0u128 ^ 0x40fc3e44bb7d2bb2756e44u128 ^ 0xc0fc3ec4fb7d2bb2756644u128 ^ (1u128 << 87u128) ^ (1u128 << 63u128) ^ (1u128 << 54u128) ^ (1u128 << 11u128) ^ 0u128 == 0
        && 0u128 ^ 0xd38ab0a1d2e52a8ec3bc76u128 ^ 0x1bf1490607c54032660edeu128 ^ 0xc87af9a5d5206abca532a8u128 ^ (1u128 << 72u128) ^ (1u128 << 57u128) ^ (1u128 << 15u128) ^ 0u128 == 0
        && 0u128 ^ 0xd38ab0a1d2e52a8ec3bc76u128 ^ 0xeca9afa0f6b01d92305edcu128 ^ 0x3f231f212055371cf3e2a2u128 ^ (1u128 << 61u128) ^ (1u128 << 50u128) ^ (1u128 << 3u128) ^ 0u128 == 0
        && 0u128 ^ 0xd38ab0a1d2e52a8ec3bc76u128 ^ 0xd747bfc5fd65ef70fbd9bcu128 ^ 0x14cd0f642fc0c5fe3a65cau128 ^ (1u128 << 84u128) ^ (1u128 << 46u128) ^ (1u128 << 17u128) ^ 0u128 == 0
        && 0u128 ^ 0x3d0f929ef3949bd84d4734u128 ^ 0x29c29dba9c545e267762feu128 ^ 0x14cd0f642fc0c5fe3a65cau128 ^ (1u128 << 62u128) ^ (1u128 << 54u128) ^ (1u128 << 14u128) ^ 0u128 == 0
        && 0u128 ^ 0x3d0f929ef3949bd84d4734u128 ^ 0x0af7723161ec223080be86u128 ^ 0x37d8e0af9258b9e8c5f9b2u128 ^ (1u128 << 77u128) ^ (1u128 << 45u128) ^ (1u128 << 19u128) ^ 0u128 == 0
        && 0u128 ^ 0x3d0f929ef3949bd84d4734u128 ^ 0xf1627701a2d692fd9449e6u128 ^ 0xcc6de59755420925f90ed2u128 ^ (1u128 << 59u128) ^ (1u128 << 50u128) ^ (1u128 << 21u128) ^ 0u128 == 0
        && 0u128 ^ 0x45d3814f504064f80549aeu128 ^ 0xd037db825175d851f3af00u128 ^ 0x95e45ecd0135aca9d6e6aeu128 ^ (1u128 << 66u128) ^ (1u128 << 36u128) ^ (1u128 << 21u128) ^ 0u128 == 0
        && 0u128 ^ 0x45d3814f504064f80549aeu128 ^ 0xeca9afa0f6b01d92305edcu128 ^ 0xa9fa2eefa6f8796a355772u128 ^ (1u128 << 79u128) ^ (1u128 << 43u128) ^ (1u128 << 14u128) ^ 0u128 == 0
        && 0u128 ^ 0x45d3814f504064f80549aeu128 ^ 0xf6ad4824b87c80ebfce466u128 ^ 0xb33ec97be83ce413f9acc8u128 ^ (1u128 << 78u128) ^ (1u128 << 60u128) ^ (1u128 << 8u128) ^ 0u128 == 0
        && 0u128 ^ 0xf14dbf263825d0bd04b05eu128 ^ 0xcc9da55fe046d0cb3a770cu128 ^ 0x3dd01a59d86310743ec752u128 ^ (1u128 << 61u128) ^ (1u128 << 36u128) ^ (1u128 << 25u128) ^ 0u128 == 0
        && 0u128 ^ 0xf14dbf263825d0bd04b05eu128 ^ 0x7a8dec79a51e8ac5388022u128 ^ 0xb1ca4ea2e3d173bad4379cu128 ^ 0x3a0a1dfd7eee29c2e827e0u128 ^ (1u128 << 42u128) ^ (1u128 << 13u128) ^ 0u128 == 0
        && 0u128 ^ 0xf14dbf263825d0bd04b05eu128 ^ 0x9059dfa2bb20ef7ef73ad4u128 ^ 0x6114e08483043fd3f38a8au128 ^ (1u128 << 71u128) ^ (1u128 << 40u128) ^ (1u128 << 28u128) ^ 0u128 == 0
        && 0u128 ^ 0xdb714f8f64e8ac7af1a76eu128 ^ 0xd36d662a69ae24b74dcbd8u128 ^ 0x081c29a10d468ccdbcecb6u128 ^ (1u128 << 58u128) ^ (1u128 << 34u128) ^ (1u128 << 15u128) ^ 0u128 == 0
        && 0u128 ^ 0xdb714f8f64e8ac7af1a76eu128 ^ 0xeca9afa0f6b01d92305edcu128 ^ 0x37d8e0af9258b9e8c5f9b2u128 ^ (1u128 << 63u128) ^ (1u128 << 35u128) ^ (1u128 << 18u128) ^ 0u128 == 0
        && 0u128 ^ 0xdb714f8f64e8ac7af1a76eu128 ^ 0x6abb212d9739dfc02580f2u128 ^ 0xb1ca4ea2e3d173bad4379cu128 ^ (1u128 << 69u128) ^ (1u128 << 52u128) ^ (1u128 << 12u128) ^ 0u128 == 0
        && 0u128 ^ 0x8d0274de71e7c1a8055eb0u128 ^ 0x3776af54ccfbae916afde6u128 ^ 0xb274db8abd3c6f396ea356u128 ^ (1u128 << 83u128) ^ (1u128 << 45u128) ^ (1u128 << 16u128) ^ 0u128 == 0
        && 0u128 ^ 0x8d0274de71e7c1a8055eb0u128 ^ 0x40907b01280f03c0323946u128 ^ 0xcd921fdf59e882683763f6u128 ^ (1u128 << 68u128) ^ (1u128 << 38u128) ^ (1u128 << 10u128) ^ 0u128 == 0
        && 0u128 ^ 0x8d0274de71e7c1a8055eb0u128 ^ 0x45b7ab6242b77474d9f11au128 ^ 0xc8b5dffc335095dcdcaf2au128 ^ (1u128 << 62u128) ^ (1u128 << 37u128) ^ (1u128 << 7u128) ^ 0u128 == 0
        && 0u128 ^ 0x51f81573dd4049b082de14u128 ^ 0xd037db825175d851f3af00u128 ^ 0x81cfc6f18c35b1e1f17114u128 ^ (1u128 << 67u128) ^ (1u128 << 37u128) ^ (1u128 << 23u128) ^ 0u128 == 0
        && 0u128 ^ 0x51f81573dd4049b082de14u128 ^ 0x0af7723161ec223080be86u128 ^ 0x5b0f7742bca86b8012609au128 ^ (1u128 << 68u128) ^ (1u128 << 42u128) ^ (1u128 << 20u128) ^ (1u128 << 3u128) == 0
        && 0u128 ^ 0x51f81573dd4049b082de14u128 ^ 0x6c280d2a0523d9c4bc5946u128 ^ 0x3dd01a59d86310743ec752u128 ^ (1u128 << 65u128) ^ (1u128 << 39u128) ^ (1u128 << 14u128) ^ 0u128 == 0
        && 0u128 ^ 0xd8f937f31822e57c562370u128 ^ 0x83f640f1a48a8ebc0443eau128 ^ 0x5b0f7742bca86b8012609au128 ^ (1u128 << 62u128) ^ (1u128 << 30u128) ^ (1u128 << 22u128) ^ 0u128 == 0
        && 0u128 ^ 0xd8f937f31822e57c562370u128 ^ 0x7a8dec79a51e8ac5388022u128 ^ 0xb274db8abd3c6f396ea356u128 ^ (1u128 << 84u128) ^ (1u128 << 31u128) ^ (1u128 << 2u128) ^ 0u128 == 0
        && 0u128 ^ 0xd8f937f31822e57c562370u128 ^ 0xf6ad4824b87c80ebfce466u128 ^ 0x2e547dd7a05f6597aac516u128 ^ (1u128 << 65u128) ^ (1u128 << 40u128) ^ (1u128 << 9u128) ^ 0u128 == 0
        && 0u128 ^ 0xb6537f417e61d1a7085336u128 ^ 0x83f640f1a48a8ebc0443eau128 ^ 0x35ad3fb0faeb5f1b0c30dcu128 ^ (1u128 << 75u128) ^ (1u128 << 53u128) ^ (1u128 << 13u128) ^ 0u128 == 0
        && 0u128 ^ 0xb6537f417e61d1a7085336u128 ^ 0xd747bfc5fd65ef70fbd9bcu128 ^ 0x6114e08483043fd3f38a8au128 ^ (1u128 << 69u128) ^ (1u128 << 32u128) ^ (1u128 << 26u128) ^ 0u128 == 0
        && 0u128 ^ 0xb6537f417e61d1a7085336u128 ^ 0xbf4f56e073271f6ab4bf80u128 ^ 0x081c29a10d468ccdbcecb6u128 ^ (1u128 << 80u128) ^ (1u128 << 38u128) ^ (1u128 << 33u128) ^ 0u128 == 0
        && 0u128 ^ 0xecbd7c73b9cd34c3720c8au128 ^ 0xd36d662a69ae24b74dcbd8u128 ^ 0x3dd01a59d86310743ec752u128 ^ (1u128 << 81u128) ^ (1u128 << 51u128) ^ (1u128 << 16u128) ^ 0u128 == 0
        && 0u128 ^ 0xecbd7c73b9cd34c3720c8au128 ^ 0x612f63acc025b6ab476f7cu128 ^ 0xcd921fdf59e882683763f6u128 ^ (1u128 << 86u128) ^ (1u128 << 53u128) ^ (1u128 << 17u128) ^ 0u128 == 0
        && 0u128 ^ 0xecbd7c73b9cd34c3720c8au128 ^ 0xc0fc3ec4fb7d2bb2756644u128 ^ 0x2c4142bf42b01e71076accu128 ^ (1u128 << 59u128) ^ (1u128 << 32u128) ^ (1u128 << 1u128) ^ 0u128 == 0
        && 0u128 ^ 0x3d188ea477f6fa41317a4eu128 ^ 0xa8fc906976c35669e79ce0u128 ^ 0x95e45ecd0135aca9d6e6aeu128 ^ (1u128 << 70u128) ^ (1u128 << 31u128) ^ (1u128 << 24u128) ^ 0u128 == 0
        && 0u128 ^ 0x3d188ea477f6fa41317a4eu128 ^ 0xf08a91fb2e1f78290619a8u128 ^ 0xcd921fdf59e882683763f6u128 ^ (1u128 << 63u128) ^ (1u128 << 40u128) ^ (1u128 << 4u128) ^ 0u128 == 0
        && 0u128 ^ 0x3d188ea477f6fa41317a4eu128 ^ 0xf1627701a2d692fd9449e6u128 ^ 0xc87af9a5d5206abca532a8u128 ^ (1u128 << 82u128) ^ (1u128 << 33u128) ^ (1u128 << 8u128) ^ 0u128 == 0
        && 0u128 ^ 0x1ac4672b549cd6dba79bccu128 ^ 0xa9fa8e50bcb032c85e3304u128 ^ 0xb33ec97be83ce413f9acc8u128 ^ (1u128 << 69u128) ^ (1u128 << 44u128) ^ (1u128 << 10u128) ^ 0u128 == 0
        && 0u128 ^ 0x1ac4672b549cd6dba79bccu128 ^ 0x9059dfa2bb20ef7ef73ad4u128 ^ 0x8abdb889efbe39a510a118u128 ^ (1u128 << 77u128) ^ (1u128 << 41u128) ^ (1u128 << 22u128) ^ 0u128 == 0
        && 0u128 ^ 0x1ac4672b549cd6dba79bccu128 ^ 0x8d9071b7e7a6a2eed6965eu128 ^ 0x97d4169cb33e7435718d90u128 ^ (1u128 << 79u128) ^ (1u128 << 42u128) ^ (1u128 << 15u128) ^ (1u128 << 1u128) == 0
        && 0u128 ^ 0xa377253773ea678367c3f6u128 ^ 0x29c29dba9c545e267762feu128 ^ 0x8abdb889efbe39a510a118u128 ^ (1u128 << 75u128) ^ (1u128 << 58u128) ^ (1u128 << 4u128) ^ 0u128 == 0
        && 0u128 ^ 0xa377253773ea678367c3f6u128 ^ 0xf6ad4824b87c80ebfce466u128 ^ 0x57da6d13cb96a7689b2790u128 ^ (1u128 << 81u128) ^ (1u128 << 38u128) ^ 0u128 ^ 0u128 == 0
        && 0u128 ^ 0xa377253773ea678367c3f6u128 ^ 0x05209a0abb530b9e7e34b0u128 ^ 0xa6573f3dc8b16c9d19f746u128 ^ (1u128 << 71u128) ^ (1u128 << 43u128) ^ (1u128 << 31u128) ^ 0u128 == 0
        && 0u128 ^ 0x0dbd816fba1543f721dc72u128 ^ 0x1bf1490607c54032660edeu128 ^ 0x164cc861bdd803c547f2acu128 ^ (1u128 << 59u128) ^ (1u128 << 43u128) ^ (1u128 << 13u128) ^ 0u128 == 0
        && 0u128 ^ 0x0dbd816fba1543f721dc72u128 ^ 0x9059dfa2bb20ef7ef73ad4u128 ^ 0x95e45ecd0135aca9d6e6aeu128 ^ (1u128 << 83u128) ^ (1u128 << 29u128) ^ (1u128 << 3u128) ^ 0u128 == 0
        && 0u128 ^ 0x0dbd816fba1543f721dc72u128 ^ 0x45b7ab6242b77474d9f11au128 ^ 0x481a2a0df8a23583f82d6cu128 ^ (1u128 << 76u128) ^ (1u128 << 33u128) ^ (1u128 << 2u128) ^ 0u128 == 0) by (bit_vector);
}

proof fn lemma_checks_from_0(i: int)
    requires
        0 <= i < 11,
    ensures
        check_mask(i, 7) == 0,
        is_sized(i),
{
    reveal_with_fuel(check_mask, 8);
    let c = CHECK_PLACES@[i]@;
    lemma_sums_vanish();
    if i == 0 {
        assert(CHECK_SIZES@[i] == 6);
        assert(c[0] == 0 && c[1] == 29 && c[2] == 59 && c[3] == 88 && c[4] == 117 && c[5] == 146 && c[6] == 255);
        assert(place_mask(0) == 0x23bba830e23b6b6f50982eu128 && place_mask(29) == 0xca4186dd44c3121565cf5cu128 && place_mask(59) == 0xa9fa2eefa6f8796a355772u128 && place_mask(88) == (1u128 << 86u128) && place_mask(117) == (1u128 << 57u128) && place_mask(146) == (1u128 << 28u128) && place_mask(255) == 0u128);
    } else if i == 1 {
        assert(CHECK_SIZES@[i] == 6);
        assert(c[0] == 0 && c[1] == 31 && c[2] == 76 && c[3] == 104 && c[4] == 135 && c[5] == 163 && c[6] == 255);
        assert(place_mask(0) == 0x23bba830e23b6b6f50982eu128 && place_mask(31) == 0x1616d78018d0b4745ca0f2u128 && place_mask(76) == 0x35ad3fb0faeb5f1b0c30dcu128 && place_mask(104) == (1u128 << 70u128) && place_mask(135) == (1u128 << 39u128) && place_mask(163) == (1u128 << 11u128) && place_mask(255) == 0u128);
    } else if i == 2 {
        assert(CHECK_SIZES@[i] == 6);
        assert(c[0] == 0 && c[1] == 35 && c[2] == 81 && c[3] == 107 && c[4] == 126 && c[5] == 173 && c[6] == 255);
        assert(place_mask(0) == 0x23bba830e23b6b6f50982eu128 && place_mask(35) == 0x3776af54ccfbae916afde6u128 && place_mask(81) == 0x14cd0f642fc0c5fe3a65cau128 && place_mask(107) == (1u128 << 67u128) && place_mask(126) == (1u128 << 48u128) && place_mask(173) == (1u128 << 1u128) && place_mask(255) == 0u128);
    } else if i == 3 {
        assert(CHECK_SIZES@[i] == 6);
        assert(c[0] == 1 && c[1] == 30 && c[2] == 60 && c[3] == 89 && c[4] == 118 && c[5] == 146 && c[6] == 255);
        assert(place_mask(1) == 0x1f8e55da218c5df3309052u128 && place_mask(30) == 0x29c29dba9c545e267762feu128 && place_mask(60) == 0x164cc861bdd803c547f2acu128 && place_mask(89) == (1u128 << 85u128) && place_mask(118) == (1u128 << 56u128) && place_mask(146) == (1u128 << 28u128) && place_mask(255) == 0u128);
    } else if i == 4 {
        assert(CHECK_SIZES@[i] == 6);
        assert(c[0] == 1 && c[1] == 33 && c[2] == 63 && c[3] == 92 && c[4] == 121 && c[5] == 149 && c[6] == 255);
        assert(place_mask(1) == 0x1f8e55da218c5df3309052u128 && place_mask(33) == 0xa9fa8e50bcb032c85e3304u128 && place_mask(63) == 0xb274db8abd3c6f396ea356u128 && place_mask(92) == (1u128 << 82u128) && place_mask(121) == (1u128 << 53u128) && place_mask(149) == (1u128 << 25u128) && place_mask(255) == 0u128);
    } else if i == 5 {
        assert(CHECK_SIZES@[i] == 6);
        assert(c[0] == 1 && c[1] == 56 && c[2] == 62 && c[3] == 102 && c[4] == 137 && c[5] == 156 && c[6] == 255);
        assert(place_mask(1) == 0x1f8e55da218c5df3309052u128 && place_mask(56) == 0xbf4f56e073271f6ab4bf80u128 && place_mask(62) == 0xa0c0033a52ab6299802fd2u128 && place_mask(102) == (1u128 << 72u128) && place_mask(137) == (1u128 << 37u128) && place_mask(156) == (1u128 << 18u128) && place_mask(255) == 0u128);
    } else if i == 6 {
        assert(CHECK_SIZES@[i] == 6);
        assert(c[0] == 2 && c[1] == 31 && c[2] == 61 && c[3] == 90 && c[4] == 119 && c[5] == 147 && c[6] == 255);
        assert(place_mask(2) == 0xca7b3217cd92bd59a5ae20u128 && place_mask(31) == 0x1616d78018d0b4745ca0f2u128 && place_mask(61) == 0xcc6de59755420925f90ed2u128 && place_mask(90) == (1u128 << 84u128) && place_mask(119) == (1u128 << 55u128) && place_mask(147) == (1u128 << 27u128) && place_mask(255) == 0u128);
    } else if i == 7 {
        assert(CHECK_SIZES@[i] == 6);
        assert(c[0] == 2 && c[1] == 47 && c[2] == 62 && c[3] == 106 && c[4] == 123 && c[5] == 166 && c[6] == 255);
        assert(place_mask(2) == 0xca7b3217cd92bd59a5ae20u128 && place_mask(47) == 0x6abb212d9739dfc02580f2u128 && place_mask(62) == 0xa0c0033a52ab6299802fd2u128 && place_mask(106) == (1u128 << 68u128) && place_mask(123) == (1u128 << 51u128) && place_mask(166) == (1u128 << 8u128) && place_mask(255) == 0u128);
    } else if i == 8 {
        assert(CHECK_SIZES@[i] == 6);
        assert(c[0] == 2 && c[1] == 53 && c[2] == 69 && c[3] == 100 && c[4] == 139 && c[5] == 169 && c[6] == 255);
        assert(place_mask(2) == 0xca7b3217cd92bd59a5ae20u128 && place_mask(53) == 0x6c280d2a0523d9c4bc5946u128 && place_mask(69) == 0xa6573f3dc8b16c9d19f746u128 && place_mask(100) == (1u128 << 74u128) && place_mask(139) == (1u128 << 35u128) && place_mask(169) == (1u128 << 5u128) && place_mask(255) == 0u128);
    } else if i == 9 {
        assert(CHECK_SIZES@[i] == 6);
        assert(c[0] == 3 && c[1] == 32 && c[2] == 62 && c[3] == 91 && c[4] == 120 && c[5] == 148 && c[6] == 255);
        assert(place_mask(3) == 0x56f78313537d0f4382964eu128 && place_mask(32) == 0xfe37802941d66dde02b99cu128 && place_mask(62) == 0xa0c0033a52ab6299802fd2u128 && place_mask(91) == (1u128 << 83u128) && place_mask(120) == (1u128 << 54u128) && place_mask(148) == (1u128 << 26u128) && place_mask(255) == 0u128);
    } else if i == 10 {
        assert(CHECK_SIZES@[i] == 6);
        assert(c[0] == 3 && c[1] == 50 && c[2] == 75 && c[3] == 114 && c[4] == 126 && c[5] == 167 && c[6] == 255);
        assert(place_mask(3) == 0x56f78313537d0f4382964eu128 && place_mask(50) == 0x612f63acc025b6ab476f7cu128 && place_mask(75) == 0x37d8e0af9258b9e8c5f9b2u128 && place_mask(114) == (1u128 << 60u128) && place_mask(126) == (1u128 << 48u128) && place_mask(167) == (1u128 << 7u128) && place_mask(255) == 0u128);
    }
}

proof fn lemma_checks_from_11(i: int)
    requires
        11 <= i < 22,
    ensures
        check_mask(i, 7) == 0,
        is_sized(i),
{
    reveal_with_fuel(check_mask, 8);
    let c = CHECK_PLACES@[i]@;
    lemma_sums_vanish();
    if i == 11 {
        assert(CHECK_SIZES@[i] == 7);
        assert(c[0] == 3 && c[1] == 58 && c[2] == 71 && c[3] == 113 && c[4] == 118 && c[5] == 162 && c[6] == 172);
        assert(place_mask(3) == 0x56f78313537d0f4382964eu128 && place_mask(58) == 0x57da6d13cb96a7689b2790u128 && place_mask(71) == 0x012dee2198eba82b19a1dau128 && place_mask(113) == (1u128 << 61u128) && place_mask(118) == (1u128 << 56u128) && place_mask(162) == (1u128 << 12u128) && place_mask(172) == (1u128 << 2u128));
    } else if i == 12 {
        assert(CHECK_SIZES@[i] == 6);
        assert(c[0] == 4 && c[1] == 32 && c[2] == 64 && c[3] == 93 && c[4] == 122 && c[5] == 147 && c[6] == 255);
        assert(place_mask(4) == 0x6be396b5e2e819e373340cu128 && place_mask(32) == 0xfe37802941d66dde02b99cu128 && place_mask(64) == 0x97d4169cb33e7435718d90u128 && place_mask(93) == (1u128 << 81u128) && place_mask(122) == (1u128 << 52u128) && place_mask(147) == (1u128 << 27u128) && place_mask(255) == 0u128);
    } else if i == 13 {
        assert(CHECK_SIZES@[i] == 5);
        assert(c[0] == 4 && c[1] == 43 && c[2] == 77 && c[3] == 108 && c[4] == 140 && c[5] == 255 && c[6] == 255);
        assert(place_mask(4) == 0x6be396b5e2e819e373340cu128 && place_mask(43) == 0x0af7723161ec223080be86u128 && place_mask(77) == 0x6114e08483043fd3f38a8au128 && place_mask(108) == (1u128 << 66u128) && place_mask(140) == (1u128 << 34u128) && place_mask(255) == 0u128);
    } else if i == 14 {
        assert(CHECK_SIZES@[i] == 5);
        assert(c[0] == 4 && c[1] == 52 && c[2] == 80 && c[3] == 104 && c[4] == 139 && c[5] == 255 && c[6] == 255);
        assert(place_mask(4) == 0x6be396b5e2e819e373340cu128 && place_mask(52) == 0x45b7ab6242b77474d9f11au128 && place_mask(80) == 0x2e547dd7a05f6597aac516u128 && place_mask(104) == (1u128 << 70u128) && place_mask(139) == (1u128 << 35u128) && place_mask(255) == 0u128);
    } else if i == 15 {
        assert(CHECK_SIZES@[i] == 6);
        assert(c[0] == 5 && c[1] == 31 && c[2] == 86 && c[3] == 103 && c[4] == 144 && c[5] == 168 && c[6] == 255);
        assert(place_mask(5) == 0x293548a138858328af4210u128 && place_mask(31) == 0x1616d78018d0b4745ca0f2u128 && place_mask(86) == 0x3f231f212055371cf3e2a2u128 && place_mask(103) == (1u128 << 71u128) && place_mask(144) == (1u128 << 30u128) && place_mask(168) == (1u128 << 6u128) && place_mask(255) == 0u128);
    } else if i == 16 {
        assert(CHECK_SIZES@[i] == 6);
        assert(c[0] == 5 && c[1] == 33 && c[2] == 65 && c[3] == 94 && c[4] == 123 && c[5] == 150 && c[6] == 255);
        assert(place_mask(5) == 0x293548a138858328af4210u128 && place_mask(33) == 0xa9fa8e50bcb032c85e3304u128 && place_mask(65) == 0x81cfc6f18c35b1e1f17114u128 && place_mask(94) == (1u128 << 80u128) && place_mask(123) == (1u128 << 51u128) && place_mask(150) == (1u128 << 24u128) && place_mask(255) == 0u128);
    } else if i == 17 {
        assert(CHECK_SIZES@[i] == 6);
        assert(c[0] == 5 && c[1] == 50 && c[2] == 66 && c[3] == 110 && c[4] == 133 && c[5] == 154 && c[6] == 255);
        assert(place_mask(5) == 0x293548a138858328af4210u128 && place_mask(50) == 0x612f63acc025b6ab476f7cu128 && place_mask(66) == 0x481a2a0df8a23583f82d6cu128 && place_mask(110) == (1u128 << 64u128) && place_mask(133) == (1u128 << 41u128) && place_mask(154) == (1u128 << 20u128) && place_mask(255) == 0u128);
    } else if i == 18 {
        assert(CHECK_SIZES@[i] == 6);
        assert(c[0] == 6 && c[1] == 29 && c[2] == 71 && c[3] == 109 && c[4] == 142 && c[5] == 150 && c[6] == 255);
        assert(place_mask(6) == 0xcb6c6afcdc28bb3f7c6e86u128 && place_mask(29) == 0xca4186dd44c3121565cf5cu128 && place_mask(71) == 0x012dee2198eba82b19a1dau128 && place_mask(109) == (1u128 << 65u128) && place_mask(142) == (1u128 << 32u128) && place_mask(150) == (1u128 << 24u128) && place_mask(255) == 0u128);
    } else if i == 19 {
        assert(CHECK_SIZES@[i] == 6);
        assert(c[0] == 6 && c[1] == 34 && c[2] == 66 && c[3] == 95 && c[4] == 119 && c[5] == 151 && c[6] == 255);
        assert(place_mask(6) == 0xcb6c6afcdc28bb3f7c6e86u128 && place_mask(34) == 0x83f640f1a48a8ebc0443eau128 && place_mask(66) == 0x481a2a0df8a23583f82d6cu128 && place_mask(95) == (1u128 << 79u128) && place_mask(119) == (1u128 << 55u128) && place_mask(151) == (1u128 << 23u128) && place_mask(255) == 0u128);
    } else if i == 20 {
        assert(CHECK_SIZES@[i] == 6);
        assert(c[0] == 6 && c[1] == 54 && c[2] == 82 && c[3] == 100 && c[4] == 130 && c[5] == 167 && c[6] == 255);
        assert(place_mask(6) == 0xcb6c6afcdc28bb3f7c6e86u128 && place_mask(54) == 0xf1627701a2d692fd9449e6u128 && place_mask(82) == 0x3a0a1dfd7eee29c2e827e0u128 && place_mask(100) == (1u128 << 74u128) && place_mask(130) == (1u128 << 44u128) && place_mask(167) == (1u128 << 7u128) && place_mask(255) == 0u128);
    } else if i == 21 {
        assert(CHECK_SIZES@[i] == 6);
        assert(c[0] == 7 && c[1] == 35 && c[2] == 67 && c[3] == 96 && c[4] == 124 && c[5] == 152 && c[6] == 255);
        assert(place_mask(7) == 0x3f2a86f5c5bd225c961150u128 && place_mask(35) == 0x3776af54ccfbae916afde6u128 && place_mask(67) == 0x081c29a10d468ccdbcecb6u128 && place_mask(96) == (1u128 << 78u128) && place_mask(124) == (1u128 << 50u128) && place_mask(152) == (1u128 << 22u128) && place_mask(255) == 0u128);
    }
}

proof fn lemma_checks_from_22(i: int)
    requires
        22 <= i < 33,
    ensures
        check_mask(i, 7) == 0,
        is_sized(i),
{
    reveal_with_fuel(check_mask, 8);
    let c = CHECK_PLACES@[i]@;
    lemma_sums_vanish();
    if i == 22 {
        assert(CHECK_SIZES@[i] == 6);
        assert(c[0] == 7 && c[1] == 36 && c[2] == 64 && c[3] == 101 && c[4] == 128 && c[5] == 169 && c[6] == 255);
        assert(place_mask(7) == 0x3f2a86f5c5bd225c961150u128 && place_mask(36) == 0xa8fc906976c35669e79ce0u128 && place_mask(64) == 0x97d4169cb33e7435718d90u128 && place_mask(101) == (1u128 << 73u128) && place_mask(128) == (1u128 << 46u128) && place_mask(169) == (1u128 << 5u128) && place_mask(255) == 0u128);
    } else if i == 23 {
        assert(CHECK_SIZES@[i] == 6);
        assert(c[0] == 7 && c[1] == 51 && c[2] == 82 && c[3] == 110 && c[4] == 117 && c[5] == 165 && c[6] == 255);
        assert(place_mask(7) == 0x3f2a86f5c5bd225c961150u128 && place_mask(51) == 0x05209a0abb530b9e7e34b0u128 && place_mask(82) == 0x3a0a1dfd7eee29c2e827e0u128 && place_mask(110) == (1u128 << 64u128) && place_mask(117) == (1u128 << 57u128) && place_mask(165) == (1u128 << 9u128) && place_mask(255) == 0u128);
    } else if i == 24 {
        assert(CHECK_SIZES@[i] == 6);
        assert(c[0] == 8 && c[1] == 36 && c[2] == 68 && c[3] == 97 && c[4] == 125 && c[5] == 151 && c[6] == 255);
        assert(place_mask(8) == 0x849dd2d63673481860f62cu128 && place_mask(36) == 0xa8fc906976c35669e79ce0u128 && place_mask(68) == 0x2c4142bf42b01e71076accu128 && place_mask(97) == (1u128 << 77u128) && place_mask(125) == (1u128 << 49u128) && place_mask(151) == (1u128 << 23u128) && place_mask(255) == 0u128);
    } else if i == 25 {
        assert(CHECK_SIZES@[i] == 6);
        assert(c[0] == 8 && c[1] == 49 && c[2] == 58 && c[3] == 92 && c[4] == 127 && c[5] == 163 && c[6] == 255);
        assert(place_mask(8) == 0x849dd2d63673481860f62cu128 && place_mask(49) == 0xd747bfc5fd65ef70fbd9bcu128 && place_mask(58) == 0x57da6d13cb96a7689b2790u128 && place_mask(92) == (1u128 << 82u128) && place_mask(127) == (1u128 << 47u128) && place_mask(163) == (1u128 << 11u128) && place_mask(255) == 0u128);
    } else if i == 26 {
        assert(CHECK_SIZES@[i] == 6);
        assert(c[0] == 8 && c[1] == 53 && c[2] == 83 && c[3] == 89 && c[4] == 140 && c[5] == 168 && c[6] == 255);
        assert(place_mask(8) == 0x849dd2d63673481860f62cu128 && place_mask(53) == 0x6c280d2a0523d9c4bc5946u128 && place_mask(83) == 0xc8b5dffc335095dcdcaf2au128 && place_mask(89) == (1u128 << 85u128) && place_mask(140) == (1u128 << 34u128) && place_mask(168) == (1u128 << 6u128) && place_mask(255) == 0u128);
    } else if i == 27 {
        assert(CHECK_SIZES@[i] == 6);
        assert(c[0] == 9 && c[1] == 32 && c[2] == 59 && c[3] == 94 && c[4] == 127 && c[5] == 155 && c[6] == 255);
        assert(place_mask(9) == 0x56cdaec6e7ae14b43feeeeu128 && place_mask(32) == 0xfe37802941d66dde02b99cu128 && place_mask(59) == 0xa9fa2eefa6f8796a355772u128 && place_mask(94) == (1u128 << 80u128) && place_mask(127) == (1u128 << 47u128) && place_mask(155) == (1u128 << 19u128) && place_mask(255) == 0u128);
    } else if i == 28 {
        assert(CHECK_SIZES@[i] == 6);
        assert(c[0] == 9 && c[1] == 37 && c[2] == 69 && c[3] == 98 && c[4] == 126 && c[5] == 153 && c[6] == 255);
        assert(place_mask(9) == 0x56cdaec6e7ae14b43feeeeu128 && place_mask(37) == 0xf08a91fb2e1f78290619a8u128 && place_mask(69) == 0xa6573f3dc8b16c9d19f746u128 && place_mask(98) == (1u128 << 76u128) && place_mask(126) == (1u128 << 48u128) && place_mask(153) == (1u128 << 21u128) && place_mask(255) == 0u128);
    } else if i == 29 {
        assert(CHECK_SIZES@[i] == 6);
        assert(c[0] == 9 && c[1] == 45 && c[2] == 68 && c[3] == 102 && c[4] == 135 && c[5] == 164 && c[6] == 255);
        assert(place_mask(9) == 0x56cdaec6e7ae14b43feeeeu128 && place_mask(45) == 0x7a8dec79a51e8ac5388022u128 && place_mask(68) == 0x2c4142bf42b01e71076accu128 && place_mask(102) == (1u128 << 72u128) && place_mask(135) == (1u128 << 39u128) && place_mask(164) == (1u128 << 10u128) && place_mask(255) == 0u128);
    } else if i == 30 {
        assert(CHECK_SIZES@[i] == 6);
        assert(c[0] == 10 && c[1] == 38 && c[2] == 70 && c[3] == 99 && c[4] == 125 && c[5] == 154 && c[6] == 255);
        assert(place_mask(10) == 0x04ef5cfa3766ba778f45a4u128 && place_mask(38) == 0xcc9da55fe046d0cb3a770cu128 && place_mask(70) == 0xc87af9a5d5206abca532a8u128 && place_mask(99) == (1u128 << 75u128) && place_mask(125) == (1u128 << 49u128) && place_mask(154) == (1u128 << 20u128) && place_mask(255) == 0u128);
    } else if i == 31 {
        assert(CHECK_SIZES@[i] == 6);
        assert(c[0] == 10 && c[1] == 47 && c[2] == 80 && c[3] == 88 && c[4] == 145 && c[5] == 168 && c[6] == 255);
        assert(place_mask(10) == 0x04ef5cfa3766ba778f45a4u128 && place_mask(47) == 0x6abb212d9739dfc02580f2u128 && place_mask(80) == 0x2e547dd7a05f6597aac516u128 && place_mask(88) == (1u128 << 86u128) && place_mask(145) == (1u128 << 29u128) && place_mask(168) == (1u128 << 6u128) && place_mask(255) == 0u128);
    } else if i == 32 {
        assert(CHECK_SIZES@[i] == 6);
        assert(c[0] == 10 && c[1] == 51 && c[2] == 65 && c[3] == 87 && c[4] == 118 && c[5] == 147 && c[6] == 255);
        assert(place_mask(10) == 0x04ef5cfa3766ba778f45a4u128 && place_mask(51) == 0x05209a0abb530b9e7e34b0u128 && place_mask(65) == 0x81cfc6f18c35b1e1f17114u128 && place_mask(87) == (1u128 << 87u128) && place_mask(118) == (1u128 << 56u128) && place_mask(147) == (1u128 << 27u128) && place_mask(255) == 0u128);
    }
}

proof fn lemma_checks_from_33(i: int)
    requires
        33 <= i < 44,
    ensures
        check_mask(i, 7) == 0,
        is_sized(i),
{
    reveal_with_fuel(check_mask, 8);
    let c = CHECK_PLACES@[i]@;
    lemma_sums_vanish();
    if i == 33 {
        assert(CHECK_SIZES@[i] == 6);
        assert(c[0] == 11 && c[1] == 37 && c[2] == 76 && c[3] == 101 && c[4] == 133 && c[5] == 162 && c[6] == 255);
        assert(place_mask(11) == 0xc525ae4bd4f627320a3974u128 && place_mask(37) == 0xf08a91fb2e1f78290619a8u128 && place_mask(76) == 0x35ad3fb0faeb5f1b0c30dcu128 && place_mask(101) == (1u128 << 73u128) && place_mask(133) == (1u128 << 41u128) && place_mask(162) == (1u128 << 12u128) && place_mask(255) == 0u128);
    } else if i == 34 {
        assert(CHECK_SIZES@[i] == 6);
        assert(c[0] == 11 && c[1] == 39 && c[2] == 60 && c[3] == 100 && c[4] == 127 && c[5] == 144 && c[6] == 255);
        assert(place_mask(11) == 0xc525ae4bd4f627320a3974u128 && place_mask(39) == 0xd36d662a69ae24b74dcbd8u128 && place_mask(60) == 0x164cc861bdd803c547f2acu128 && place_mask(100) == (1u128 << 74u128) && place_mask(127) == (1u128 << 47u128) && place_mask(144) == (1u128 << 30u128) && place_mask(255) == 0u128);
    } else if i == 35 {
        assert(CHECK_SIZES@[i] == 5);
        assert(c[0] == 11 && c[1] == 55 && c[2] == 83 && c[3] == 87 && c[4] == 138 && c[5] == 255 && c[6] == 255);
        assert(place_mask(11) == 0xc525ae4bd4f627320a3974u128 && place_mask(55) == 0x8d9071b7e7a6a2eed6965eu128 && place_mask(83) == 0xc8b5dffc335095dcdcaf2au128 && place_mask(87) == (1u128 << 87u128) && place_mask(138) == (1u128 << 36u128) && place_mask(255) == 0u128);
    } else if i == 36 {
        assert(CHECK_SIZES@[i] == 6);
        assert(c[0] == 12 && c[1] == 40 && c[2] == 71 && c[3] == 96 && c[4] == 125 && c[5] == 156 && c[6] == 255);
        assert(place_mask(12) == 0x41fd9520b2e4abeb2f989cu128 && place_mask(40) == 0x40907b01280f03c0323946u128 && place_mask(71) == 0x012dee2198eba82b19a1dau128 && place_mask(96) == (1u128 << 78u128) && place_mask(125) == (1u128 << 49u128) && place_mask(156) == (1u128 << 18u128) && place_mask(255) == 0u128);
    } else if i == 37 {
        assert(CHECK_SIZES@[i] == 6);
        assert(c[0] == 12 && c[1] == 41 && c[2] == 72 && c[3] == 89 && c[4] == 128 && c[5] == 155 && c[6] == 255);
        assert(place_mask(12) == 0x41fd9520b2e4abeb2f989cu128 && place_mask(41) == 0xd037db825175d851f3af00u128 && place_mask(72) == 0xb1ca4ea2e3d173bad4379cu128 && place_mask(89) == (1u128 << 85u128) && place_mask(128) == (1u128 << 46u128) && place_mask(155) == (1u128 << 19u128) && place_mask(255) == 0u128);
    } else if i == 38 {
        assert(CHECK_SIZES@[i] == 6);
        assert(c[0] == 12 && c[1] == 55 && c[2] == 61 && c[3] == 110 && c[4] == 145 && c[5] == 170 && c[6] == 255);
        assert(place_mask(12) == 0x41fd9520b2e4abeb2f989cu128 && place_mask(55) == 0x8d9071b7e7a6a2eed6965eu128 && place_mask(61) == 0xcc6de59755420925f90ed2u128 && place_mask(110) == (1u128 << 64u128) && place_mask(145) == (1u128 << 29u128) && place_mask(170) == (1u128 << 4u128) && place_mask(255) == 0u128);
    } else if i == 39 {
        assert(CHECK_SIZES@[i] == 6);
        assert(c[0] == 13 && c[1] == 38 && c[2] == 73 && c[3] == 98 && c[4] == 129 && c[5] == 157 && c[6] == 255);
        assert(place_mask(13) == 0x7fb36c24085a34d8c1dbc4u128 && place_mask(38) == 0xcc9da55fe046d0cb3a770cu128 && place_mask(73) == 0xb33ec97be83ce413f9acc8u128 && place_mask(98) == (1u128 << 76u128) && place_mask(129) == (1u128 << 45u128) && place_mask(157) == (1u128 << 17u128) && place_mask(255) == 0u128);
    } else if i == 40 {
        assert(CHECK_SIZES@[i] == 7);
        assert(c[0] == 13 && c[1] == 40 && c[2] == 86 && c[3] == 107 && c[4] == 116 && c[5] == 148 && c[6] == 169);
        assert(place_mask(13) == 0x7fb36c24085a34d8c1dbc4u128 && place_mask(40) == 0x40907b01280f03c0323946u128 && place_mask(86) == 0x3f231f212055371cf3e2a2u128 && place_mask(107) == (1u128 << 67u128) && place_mask(116) == (1u128 << 58u128) && place_mask(148) == (1u128 << 26u128) && place_mask(169) == (1u128 << 5u128));
    } else if i == 41 {
        assert(CHECK_SIZES@[i] == 6);
        assert(c[0] == 13 && c[1] == 56 && c[2] == 57 && c[3] == 108 && c[4] == 119 && c[5] == 165 && c[6] == 255);
        assert(place_mask(13) == 0x7fb36c24085a34d8c1dbc4u128 && place_mask(56) == 0xbf4f56e073271f6ab4bf80u128 && place_mask(57) == 0xc0fc3ec4fb7d2bb2756644u128 && place_mask(108) == (1u128 << 66u128) && place_mask(119) == (1u128 << 55u128) && place_mask(165) == (1u128 << 9u128) && place_mask(255) == 0u128);
    } else if i == 42 {
        assert(CHECK_SIZES@[i] == 6);
        assert(c[0] == 14 && c[1] == 29 && c[2] == 85 && c[3] == 114 && c[4] == 122 && c[5] == 149 && c[6] == 255);
        assert(place_mask(14) == 0x40fc3e44bb7d2bb2756e44u128 && place_mask(29) == 0xca4186dd44c3121565cf5cu128 && place_mask(85) == 0x8abdb889efbe39a510a118u128 && place_mask(114) == (1u128 << 60u128) && place_mask(122) == (1u128 << 52u128) && place_mask(149) == (1u128 << 25u128) && place_mask(255) == 0u128);
    } else if i == 43 {
        assert(CHECK_SIZES@[i] == 6);
        assert(c[0] == 14 && c[1] == 42 && c[2] == 74 && c[3] == 101 && c[4] == 130 && c[5] == 158 && c[6] == 255);
        assert(place_mask(14) == 0x40fc3e44bb7d2bb2756e44u128 && place_mask(42) == 0x1bf1490607c54032660edeu128 && place_mask(74) == 0x5b0f7742bca86b8012609au128 && place_mask(101) == (1u128 << 73u128) && place_mask(130) == (1u128 << 44u128) && place_mask(158) == (1u128 << 16u128) && place_mask(255) == 0u128);
    }
}

proof fn lemma_checks_from_44(i: int)
    requires
        44 <= i < 55,
    ensures
        check_mask(i, 7) == 0,
        is_sized(i),
{
    reveal_with_fuel(check_mask, 8);
    let c = CHECK_PLACES@[i]@;
    lemma_sums_vanish();
    if i == 44 {
        assert(CHECK_SIZES@[i] == 6);
        assert(c[0] == 14 && c[1] == 57 && c[2] == 87 && c[3] == 111 && c[4] == 120 && c[5] == 163 && c[6] == 255);
        assert(place_mask(14) == 0x40fc3e44bb7d2bb2756e44u128 && place_mask(57) == 0xc0fc3ec4fb7d2bb2756644u128 && place_mask(87) == (1u128 << 87u128) && place_mask(111) == (1u128 << 63u128) && place_mask(120) == (1u128 << 54u128) && place_mask(163) == (1u128 << 11u128) && place_mask(255) == 0u128);
    } else if i == 45 {
        assert(CHECK_SIZES@[i] == 6);
        assert(c[0] == 15 && c[1] == 42 && c[2] == 70 && c[3] == 102 && c[4] == 117 && c[5] == 159 && c[6] == 255);
        assert(place_mask(15) == 0xd38ab0a1d2e52a8ec3bc76u128 && place_mask(42) == 0x1bf1490607c54032660edeu128 && place_mask(70) == 0xc87af9a5d5206abca532a8u128 && place_mask(102) == (1u128 << 72u128) && place_mask(117) == (1u128 << 57u128) && place_mask(159) == (1u128 << 15u128) && place_mask(255) == 0u128);
    } else if i == 46 {
        assert(CHECK_SIZES@[i] == 6);
        assert(c[0] == 15 && c[1] == 44 && c[2] == 86 && c[3] == 113 && c[4] == 124 && c[5] == 171 && c[6] == 255);
        assert(place_mask(15) == 0xd38ab0a1d2e52a8ec3bc76u128 && place_mask(44) == 0xeca9afa0f6b01d92305edcu128 && place_mask(86) == 0x3f231f212055371cf3e2a2u128 && place_mask(113) == (1u128 << 61u128) && place_mask(124) == (1u128 << 50u128) && place_mask(171) == (1u128 << 3u128) && place_mask(255) == 0u128);
    } else if i == 47 {
        assert(CHECK_SIZES@[i] == 6);
        assert(c[0] == 15 && c[1] == 49 && c[2] == 81 && c[3] == 90 && c[4] == 128 && c[5] == 157 && c[6] == 255);
        assert(place_mask(15) == 0xd38ab0a1d2e52a8ec3bc76u128 && place_mask(49) == 0xd747bfc5fd65ef70fbd9bcu128 && place_mask(81) == 0x14cd0f642fc0c5fe3a65cau128 && place_mask(90) == (1u128 << 84u128) && place_mask(128) == (1u128 << 46u128) && place_mask(157) == (1u128 << 17u128) && place_mask(255) == 0u128);
    } else if i == 48 {
        assert(CHECK_SIZES@[i] == 6);
        assert(c[0] == 16 && c[1] == 30 && c[2] == 81 && c[3] == 112 && c[4] == 120 && c[5] == 160 && c[6] == 255);
        assert(place_mask(16) == 0x3d0f929ef3949bd84d4734u128 && place_mask(30) == 0x29c29dba9c545e267762feu128 && place_mask(81) == 0x14cd0f642fc0c5fe3a65cau128 && place_mask(112) == (1u128 << 62u128) && place_mask(120) == (1u128 << 54u128) && place_mask(160) == (1u128 << 14u128) && place_mask(255) == 0u128);
    } else if i == 49 {
        assert(CHECK_SIZES@[i] == 6);
        assert(c[0] == 16 && c[1] == 43 && c[2] == 75 && c[3] == 97 && c[4] == 129 && c[5] == 155 && c[6] == 255);
        assert(place_mask(16) == 0x3d0f929ef3949bd84d4734u128 && place_mask(43) == 0x0af7723161ec223080be86u128 && place_mask(75) == 0x37d8e0af9258b9e8c5f9b2u128 && place_mask(97) == (1u128 << 77u128) && place_mask(129) == (1u128 << 45u128) && place_mask(155) == (1u128 << 19u128) && place_mask(255) == 0u128);
    } else if i == 50 {
        assert(CHECK_SIZES@[i] == 6);
        assert(c[0] == 16 && c[1] == 54 && c[2] == 61 && c[3] == 115 && c[4] == 124 && c[5] == 153 && c[6] == 255);
        assert(place_mask(16) == 0x3d0f929ef3949bd84d4734u128 && place_mask(54) == 0xf1627701a2d692fd9449e6u128 && place_mask(61) == 0xcc6de59755420925f90ed2u128 && place_mask(115) == (1u128 << 59u128) && place_mask(124) == (1u128 << 50u128) && place_mask(153) == (1u128 << 21u128) && place_mask(255) == 0u128);
    } else if i == 51 {
        assert(CHECK_SIZES@[i] == 6);
        assert(c[0] == 17 && c[1] == 41 && c[2] == 79 && c[3] == 108 && c[4] == 138 && c[5] == 153 && c[6] == 255);
        assert(place_mask(17) == 0x45d3814f504064f80549aeu128 && place_mask(41) == 0xd037db825175d851f3af00u128 && place_mask(79) == 0x95e45ecd0135aca9d6e6aeu128 && place_mask(108) == (1u128 << 66u128) && place_mask(138) == (1u128 << 36u128) && place_mask(153) == (1u128 << 21u128) && place_mask(255) == 0u128);
    } else if i == 52 {
        assert(CHECK_SIZES@[i] == 6);
        assert(c[0] == 17 && c[1] == 44 && c[2] == 59 && c[3] == 95 && c[4] == 131 && c[5] == 160 && c[6] == 255);
        assert(place_mask(17) == 0x45d3814f504064f80549aeu128 && place_mask(44) == 0xeca9afa0f6b01d92305edcu128 && place_mask(59) == 0xa9fa2eefa6f8796a355772u128 && place_mask(95) == (1u128 << 79u128) && place_mask(131) == (1u128 << 43u128) && place_mask(160) == (1u128 << 14u128) && place_mask(255) == 0u128);
    } else if i == 53 {
        assert(CHECK_SIZES@[i] == 6);
        assert(c[0] == 17 && c[1] == 48 && c[2] == 73 && c[3] == 96 && c[4] == 114 && c[5] == 166 && c[6] == 255);
        assert(place_mask(17) == 0x45d3814f504064f80549aeu128 && place_mask(48) == 0xf6ad4824b87c80ebfce466u128 && place_mask(73) == 0xb33ec97be83ce413f9acc8u128 && place_mask(96) == (1u128 << 78u128) && place_mask(114) == (1u128 << 60u128) && place_mask(166) == (1u128 << 8u128) && place_mask(255) == 0u128);
    } else if i == 54 {
        assert(CHECK_SIZES@[i] == 6);
        assert(c[0] == 18 && c[1] == 38 && c[2] == 84 && c[3] == 113 && c[4] == 138 && c[5] == 149 && c[6] == 255);
        assert(place_mask(18) == 0xf14dbf263825d0bd04b05eu128 && place_mask(38) == 0xcc9da55fe046d0cb3a770cu128 && place_mask(84) == 0x3dd01a59d86310743ec752u128 && place_mask(113) == (1u128 << 61u128) && place_mask(138) == (1u128 << 36u128) && place_mask(149) == (1u128 << 25u128) && place_mask(255) == 0u128);
    }
}

proof fn lemma_checks_from_55(i: int)
    requires
        55 <= i < 66,
    ensures
        check_mask(i, 7) == 0,
        is_sized(i),
{
    reveal_with_fuel(check_mask, 8);
    let c = CHECK_PLACES@[i]@;
    lemma_sums_vanish();
    if i == 55 {
        assert(CHECK_SIZES@[i] == 6);
        assert(c[0] == 18 && c[1] == 45 && c[2] == 72 && c[3] == 82 && c[4] == 132 && c[5] == 161 && c[6] == 255);
        assert(place_mask(18) == 0xf14dbf263825d0bd04b05eu128 && place_mask(45) == 0x7a8dec79a51e8ac5388022u128 && place_mask(72) == 0xb1ca4ea2e3d173bad4379cu128 && place_mask(82) == 0x3a0a1dfd7eee29c2e827e0u128 && place_mask(132) == (1u128 << 42u128) && place_mask(161) == (1u128 << 13u128) && place_mask(255) == 0u128);
    } else if i == 56 {
        assert(CHECK_SIZES@[i] == 6);
        assert(c[0] == 18 && c[1] == 46 && c[2] == 77 && c[3] == 103 && c[4] == 134 && c[5] == 146 && c[6] == 255);
        assert(place_mask(18) == 0xf14dbf263825d0bd04b05eu128 && place_mask(46) == 0x9059dfa2bb20ef7ef73ad4u128 && place_mask(77) == 0x6114e08483043fd3f38a8au128 && place_mask(103) == (1u128 << 71u128) && place_mask(134) == (1u128 << 40u128) && place_mask(146) == (1u128 << 28u128) && place_mask(255) == 0u128);
    } else if i == 57 {
        assert(CHECK_SIZES@[i] == 6);
        assert(c[0] == 19 && c[1] == 39 && c[2] == 67 && c[3] == 116 && c[4] == 140 && c[5] == 159 && c[6] == 255);
        assert(place_mask(19) == 0xdb714f8f64e8ac7af1a76eu128 && place_mask(39) == 0xd36d662a69ae24b74dcbd8u128 && place_mask(67) == 0x081c29a10d468ccdbcecb6u128 && place_mask(116) == (1u128 << 58u128) && place_mask(140) == (1u128 << 34u128) && place_mask(159) == (1u128 << 15u128) && place_mask(255) == 0u128);
    } else if i == 58 {
        assert(CHECK_SIZES@[i] == 6);
        assert(c[0] == 19 && c[1] == 44 && c[2] == 75 && c[3] == 111 && c[4] == 139 && c[5] == 156 && c[6] == 255);
        assert(place_mask(19) == 0xdb714f8f64e8ac7af1a76eu128 && place_mask(44) == 0xeca9afa0f6b01d92305edcu128 && place_mask(75) == 0x37d8e0af9258b9e8c5f9b2u128 && place_mask(111) == (1u128 << 63u128) && place_mask(139) == (1u128 << 35u128) && place_mask(156) == (1u128 << 18u128) && place_mask(255) == 0u128);
    } else if i == 59 {
        assert(CHECK_SIZES@[i] == 6);
        assert(c[0] == 19 && c[1] == 47 && c[2] == 72 && c[3] == 105 && c[4] == 122 && c[5] == 162 && c[6] == 255);
        assert(place_mask(19) == 0xdb714f8f64e8ac7af1a76eu128 && place_mask(47) == 0x6abb212d9739dfc02580f2u128 && place_mask(72) == 0xb1ca4ea2e3d173bad4379cu128 && place_mask(105) == (1u128 << 69u128) && place_mask(122) == (1u128 << 52u128) && place_mask(162) == (1u128 << 12u128) && place_mask(255) == 0u128);
    } else if i == 60 {
        assert(CHECK_SIZES@[i] == 6);
        assert(c[0] == 20 && c[1] == 35 && c[2] == 63 && c[3] == 91 && c[4] == 129 && c[5] == 158 && c[6] == 255);
        assert(place_mask(20) == 0x8d0274de71e7c1a8055eb0u128 && place_mask(35) == 0x3776af54ccfbae916afde6u128 && place_mask(63) == 0xb274db8abd3c6f396ea356u128 && place_mask(91) == (1u128 << 83u128) && place_mask(129) == (1u128 << 45u128) && place_mask(158) == (1u128 << 16u128) && place_mask(255) == 0u128);
    } else if i == 61 {
        assert(CHECK_SIZES@[i] == 6);
        assert(c[0] == 20 && c[1] == 40 && c[2] == 78 && c[3] == 106 && c[4] == 136 && c[5] == 164 && c[6] == 255);
        assert(place_mask(20) == 0x8d0274de71e7c1a8055eb0u128 && place_mask(40) == 0x40907b01280f03c0323946u128 && place_mask(78) == 0xcd921fdf59e882683763f6u128 && place_mask(106) == (1u128 << 68u128) && place_mask(136) == (1u128 << 38u128) && place_mask(164) == (1u128 << 10u128) && place_mask(255) == 0u128);
    } else if i == 62 {
        assert(CHECK_SIZES@[i] == 6);
        assert(c[0] == 20 && c[1] == 52 && c[2] == 83 && c[3] == 112 && c[4] == 137 && c[5] == 167 && c[6] == 255);
        assert(place_mask(20) == 0x8d0274de71e7c1a8055eb0u128 && place_mask(52) == 0x45b7ab6242b77474d9f11au128 && place_mask(83) == 0xc8b5dffc335095dcdcaf2au128 && place_mask(112) == (1u128 << 62u128) && place_mask(137) == (1u128 << 37u128) && place_mask(167) == (1u128 << 7u128) && place_mask(255) == 0u128);
    } else if i == 63 {
        assert(CHECK_SIZES@[i] == 6);
        assert(c[0] == 21 && c[1] == 41 && c[2] == 65 && c[3] == 107 && c[4] == 137 && c[5] == 151 && c[6] == 255);
        assert(place_mask(21) == 0x51f81573dd4049b082de14u128 && place_mask(41) == 0xd037db825175d851f3af00u128 && place_mask(65) == 0x81cfc6f18c35b1e1f17114u128 && place_mask(107) == (1u128 << 67u128) && place_mask(137) == (1u128 << 37u128) && place_mask(151) == (1u128 << 23u128) && place_mask(255) == 0u128);
    } else if i == 64 {
        assert(CHECK_SIZES@[i] == 7);
        assert(c[0] == 21 && c[1] == 43 && c[2] == 74 && c[3] == 106 && c[4] == 132 && c[5] == 154 && c[6] == 171);
        assert(place_mask(21) == 0x51f81573dd4049b082de14u128 && place_mask(43) == 0x0af7723161ec223080be86u128 && place_mask(74) == 0x5b0f7742bca86b8012609au128 && place_mask(106) == (1u128 << 68u128) && place_mask(132) == (1u128 << 42u128) && place_mask(154) == (1u128 << 20u128) && place_mask(171) == (1u128 << 3u128));
    } else if i == 65 {
        assert(CHECK_SIZES@[i] == 6);
        assert(c[0] == 21 && c[1] == 53 && c[2] == 84 && c[3] == 109 && c[4] == 135 && c[5] == 160 && c[6] == 255);
        assert(place_mask(21) == 0x51f81573dd4049b082de14u128 && place_mask(53) == 0x6c280d2a0523d9c4bc5946u128 && place_mask(84) == 0x3dd01a59d86310743ec752u128 && place_mask(109) == (1u128 << 65u128) && place_mask(135) == (1u128 << 39u128) && place_mask(160) == (1u128 << 14u128) && place_mask(255) == 0u128);
    }
}

proof fn lemma_checks_from_66(i: int)
    requires
        66 <= i < 77,
    ensures
        check_mask(i, 7) == 0,
        is_sized(i),
{
    reveal_with_fuel(check_mask, 8);
    let c = CHECK_PLACES@[i]@;
    lemma_sums_vanish();
    if i == 66 {
        assert(CHECK_SIZES@[i] == 6);
        assert(c[0] == 22 && c[1] == 34 && c[2] == 74 && c[3] == 112 && c[4] == 144 && c[5] == 152 && c[6] == 255);
        assert(place_mask(22) == 0xd8f937f31822e57c562370u128 && place_mask(34) == 0x83f640f1a48a8ebc0443eau128 && place_mask(74) == 0x5b0f7742bca86b8012609au128 && place_mask(112) == (1u128 << 62u128) && place_mask(144) == (1u128 << 30u128) && place_mask(152) == (1u128 << 22u128) && place_mask(255) == 0u128);
    } else if i == 67 {
        assert(CHECK_SIZES@[i] == 6);
        assert(c[0] == 22 && c[1] == 45 && c[2] == 63 && c[3] == 90 && c[4] == 143 && c[5] == 172 && c[6] == 255);
        assert(place_mask(22) == 0xd8f937f31822e57c562370u128 && place_mask(45) == 0x7a8dec79a51e8ac5388022u128 && place_mask(63) == 0xb274db8abd3c6f396ea356u128 && place_mask(90) == (1u128 << 84u128) && place_mask(143) == (1u128 << 31u128) && place_mask(172) == (1u128 << 2u128) && place_mask(255) == 0u128);
    } else if i == 68 {
        assert(CHECK_SIZES@[i] == 6);
        assert(c[0] == 22 && c[1] == 48 && c[2] == 80 && c[3] == 109 && c[4] == 134 && c[5] == 165 && c[6] == 255);
        assert(place_mask(22) == 0xd8f937f31822e57c562370u128 && place_mask(48) == 0xf6ad4824b87c80ebfce466u128 && place_mask(80) == 0x2e547dd7a05f6597aac516u128 && place_mask(109) == (1u128 << 65u128) && place_mask(134) == (1u128 << 40u128) && place_mask(165) == (1u128 << 9u128) && place_mask(255) == 0u128);
    } else if i == 69 {
        assert(CHECK_SIZES@[i] == 6);
        assert(c[0] == 23 && c[1] == 34 && c[2] == 76 && c[3] == 99 && c[4] == 121 && c[5] == 161 && c[6] == 255);
        assert(place_mask(23) == 0xb6537f417e61d1a7085336u128 && place_mask(34) == 0x83f640f1a48a8ebc0443eau128 && place_mask(76) == 0x35ad3fb0faeb5f1b0c30dcu128 && place_mask(99) == (1u128 << 75u128) && place_mask(121) == (1u128 << 53u128) && place_mask(161) == (1u128 << 13u128) && place_mask(255) == 0u128);
    } else if i == 70 {
        assert(CHECK_SIZES@[i] == 6);
        assert(c[0] == 23 && c[1] == 49 && c[2] == 77 && c[3] == 105 && c[4] == 142 && c[5] == 148 && c[6] == 255);
        assert(place_mask(23) == 0xb6537f417e61d1a7085336u128 && place_mask(49) == 0xd747bfc5fd65ef70fbd9bcu128 && place_mask(77) == 0x6114e08483043fd3f38a8au128 && place_mask(105) == (1u128 << 69u128) && place_mask(142) == (1u128 << 32u128) && place_mask(148) == (1u128 << 26u128) && place_mask(255) == 0u128);
    } else if i == 71 {
        assert(CHECK_SIZES@[i] == 6);
        assert(c[0] == 23 && c[1] == 56 && c[2] == 67 && c[3] == 94 && c[4] == 136 && c[5] == 141 && c[6] == 255);
        assert(place_mask(23) == 0xb6537f417e61d1a7085336u128 && place_mask(56) == 0xbf4f56e073271f6ab4bf80u128 && place_mask(67) == 0x081c29a10d468ccdbcecb6u128 && place_mask(94) == (1u128 << 80u128) && place_mask(136) == (1u128 << 38u128) && place_mask(141) == (1u128 << 33u128) && place_mask(255) == 0u128);
    } else if i == 72 {
        assert(CHECK_SIZES@[i] == 6);
        assert(c[0] == 24 && c[1] == 39 && c[2] == 84 && c[3] == 93 && c[4] == 123 && c[5] == 158 && c[6] == 255);
        assert(place_mask(24) == 0xecbd7c73b9cd34c3720c8au128 && place_mask(39) == 0xd36d662a69ae24b74dcbd8u128 && place_mask(84) == 0x3dd01a59d86310743ec752u128 && place_mask(93) == (1u128 << 81u128) && place_mask(123) == (1u128 << 51u128) && place_mask(158) == (1u128 << 16u128) && place_mask(255) == 0u128);
    } else if i == 73 {
        assert(CHECK_SIZES@[i] == 6);
        assert(c[0] == 24 && c[1] == 50 && c[2] == 78 && c[3] == 88 && c[4] == 121 && c[5] == 157 && c[6] == 255);
        assert(place_mask(24) == 0xecbd7c73b9cd34c3720c8au128 && place_mask(50) == 0x612f63acc025b6ab476f7cu128 && place_mask(78) == 0xcd921fdf59e882683763f6u128 && place_mask(88) == (1u128 << 86u128) && place_mask(121) == (1u128 << 53u128) && place_mask(157) == (1u128 << 17u128) && place_mask(255) == 0u128);
    } else if i == 74 {
        assert(CHECK_SIZES@[i] == 6);
        assert(c[0] == 24 && c[1] == 57 && c[2] == 68 && c[3] == 115 && c[4] == 142 && c[5] == 173 && c[6] == 255);
        assert(place_mask(24) == 0xecbd7c73b9cd34c3720c8au128 && place_mask(57) == 0xc0fc3ec4fb7d2bb2756644u128 && place_mask(68) == 0x2c4142bf42b01e71076accu128 && place_mask(115) == (1u128 << 59u128) && place_mask(142) == (1u128 << 32u128) && place_mask(173) == (1u128 << 1u128) && place_mask(255) == 0u128);
    } else if i == 75 {
        assert(CHECK_SIZES@[i] == 6);
        assert(c[0] == 25 && c[1] == 36 && c[2] == 79 && c[3] == 104 && c[4] == 143 && c[5] == 150 && c[6] == 255);
        assert(place_mask(25) == 0x3d188ea477f6fa41317a4eu128 && place_mask(36) == 0xa8fc906976c35669e79ce0u128 && place_mask(79) == 0x95e45ecd0135aca9d6e6aeu128 && place_mask(104) == (1u128 << 70u128) && place_mask(143) == (1u128 << 31u128) && place_mask(150) == (1u128 << 24u128) && place_mask(255) == 0u128);
    } else if i == 76 {
        assert(CHECK_SIZES@[i] == 6);
        assert(c[0] == 25 && c[1] == 37 && c[2] == 78 && c[3] == 111 && c[4] == 134 && c[5] == 170 && c[6] == 255);
        assert(place_mask(25) == 0x3d188ea477f6fa41317a4eu128 && place_mask(37) == 0xf08a91fb2e1f78290619a8u128 && place_mask(78) == 0xcd921fdf59e882683763f6u128 && place_mask(111) == (1u128 << 63u128) && place_mask(134) == (1u128 << 40u128) && place_mask(170) == (1u128 << 4u128) && place_mask(255) == 0u128);
    }
}

proof fn lemma_checks_from_77(i: int)
    requires
        77 <= i < 87,
    ensures
        check_mask(i, 7) == 0,
        is_sized(i),
{
    reveal_with_fuel(check_mask, 8);
    let c = CHECK_PLACES@[i]@;
    lemma_sums_vanish();
    if i == 77 {
        assert(CHECK_SIZES@[i] == 6);
        assert(c[0] == 25 && c[1] == 54 && c[2] == 70 && c[3] == 92 && c[4] == 141 && c[5] == 166 && c[6] == 255);
        assert(place_mask(25) == 0x3d188ea477f6fa41317a4eu128 && place_mask(54) == 0xf1627701a2d692fd9449e6u128 && place_mask(70) == 0xc87af9a5d5206abca532a8u128 && place_mask(92) == (1u128 << 82u128) && place_mask(141) == (1u128 << 33u128) && place_mask(166) == (1u128 << 8u128) && place_mask(255) == 0u128);
    } else if i == 78 {
        assert(CHECK_SIZES@[i] == 6);
        assert(c[0] == 26 && c[1] == 33 && c[2] == 73 && c[3] == 105 && c[4] == 130 && c[5] == 164 && c[6] == 255);
        assert(place_mask(26) == 0x1ac4672b549cd6dba79bccu128 && place_mask(33) == 0xa9fa8e50bcb032c85e3304u128 && place_mask(73) == 0xb33ec97be83ce413f9acc8u128 && place_mask(105) == (1u128 << 69u128) && place_mask(130) == (1u128 << 44u128) && place_mask(164) == (1u128 << 10u128) && place_mask(255) == 0u128);
    } else if i == 79 {
        assert(CHECK_SIZES@[i] == 6);
        assert(c[0] == 26 && c[1] == 46 && c[2] == 85 && c[3] == 97 && c[4] == 133 && c[5] == 152 && c[6] == 255);
        assert(place_mask(26) == 0x1ac4672b549cd6dba79bccu128 && place_mask(46) == 0x9059dfa2bb20ef7ef73ad4u128 && place_mask(85) == 0x8abdb889efbe39a510a118u128 && place_mask(97) == (1u128 << 77u128) && place_mask(133) == (1u128 << 41u128) && place_mask(152) == (1u128 << 22u128) && place_mask(255) == 0u128);
    } else if i == 80 {
        assert(CHECK_SIZES@[i] == 7);
        assert(c[0] == 26 && c[1] == 55 && c[2] == 64 && c[3] == 95 && c[4] == 132 && c[5] == 159 && c[6] == 173);
        assert(place_mask(26) == 0x1ac4672b549cd6dba79bccu128 && place_mask(55) == 0x8d9071b7e7a6a2eed6965eu128 && place_mask(64) == 0x97d4169cb33e7435718d90u128 && place_mask(95) == (1u128 << 79u128) && place_mask(132) == (1u128 << 42u128) && place_mask(159) == (1u128 << 15u128) && place_mask(173) == (1u128 << 1u128));
    } else if i == 81 {
        assert(CHECK_SIZES@[i] == 6);
        assert(c[0] == 27 && c[1] == 30 && c[2] == 85 && c[3] == 99 && c[4] == 116 && c[5] == 170 && c[6] == 255);
        assert(place_mask(27) == 0xa377253773ea678367c3f6u128 && place_mask(30) == 0x29c29dba9c545e267762feu128 && place_mask(85) == 0x8abdb889efbe39a510a118u128 && place_mask(99) == (1u128 << 75u128) && place_mask(116) == (1u128 << 58u128) && place_mask(170) == (1u128 << 4u128) && place_mask(255) == 0u128);
    } else if i == 82 {
        assert(CHECK_SIZES@[i] == 5);
        assert(c[0] == 27 && c[1] == 48 && c[2] == 58 && c[3] == 93 && c[4] == 136 && c[5] == 255 && c[6] == 255);
        assert(place_mask(27) == 0xa377253773ea678367c3f6u128 && place_mask(48) == 0xf6ad4824b87c80ebfce466u128 && place_mask(58) == 0x57da6d13cb96a7689b2790u128 && place_mask(93) == (1u128 << 81u128) && place_mask(136) == (1u128 << 38u128) && place_mask(255) == 0u128);
    } else if i == 83 {
        assert(CHECK_SIZES@[i] == 6);
        assert(c[0] == 27 && c[1] == 51 && c[2] == 69 && c[3] == 103 && c[4] == 131 && c[5] == 143 && c[6] == 255);
        assert(place_mask(27) == 0xa377253773ea678367c3f6u128 && place_mask(51) == 0x05209a0abb530b9e7e34b0u128 && place_mask(69) == 0xa6573f3dc8b16c9d19f746u128 && place_mask(103) == (1u128 << 71u128) && place_mask(131) == (1u128 << 43u128) && place_mask(143) == (1u128 << 31u128) && place_mask(255) == 0u128);
    } else if i == 84 {
        assert(CHECK_SIZES@[i] == 6);
        assert(c[0] == 28 && c[1] == 42 && c[2] == 60 && c[3] == 115 && c[4] == 131 && c[5] == 161 && c[6] == 255);
        assert(place_mask(28) == 0x0dbd816fba1543f721dc72u128 && place_mask(42) == 0x1bf1490607c54032660edeu128 && place_mask(60) == 0x164cc861bdd803c547f2acu128 && place_mask(115) == (1u128 << 59u128) && place_mask(131) == (1u128 << 43u128) && place_mask(161) == (1u128 << 13u128) && place_mask(255) == 0u128);
    } else if i == 85 {
        assert(CHECK_SIZES@[i] == 6);
        assert(c[0] == 28 && c[1] == 46 && c[2] == 79 && c[3] == 91 && c[4] == 145 && c[5] == 171 && c[6] == 255);
        assert(place_mask(28) == 0x0dbd816fba1543f721dc72u128 && place_mask(46) == 0x9059dfa2bb20ef7ef73ad4u128 && place_mask(79) == 0x95e45ecd0135aca9d6e6aeu128 && place_mask(91) == (1u128 << 83u128) && place_mask(145) == (1u128 << 29u128) && place_mask(171) == (1u128 << 3u128) && place_mask(255) == 0u128);
    } else if i == 86 {
        assert(CHECK_SIZES@[i] == 6);
        assert(c[0] == 28 && c[1] == 52 && c[2] == 66 && c[3] == 98 && c[4] == 141 && c[5] == 172 && c[6] == 255);
        assert(place_mask(28) == 0x0dbd816fba1543f721dc72u128 && place_mask(52) == 0x45b7ab6242b77474d9f11au128 && place_mask(66) == 0x481a2a0df8a23583f82d6cu128 && place_mask(98) == (1u128 << 76u128) && place_mask(141) == (1u128 << 33u128) && place_mask(172) == (1u128 << 2u128) && place_mask(255) == 0u128);
    }
}

proof fn lemma_check_mask(i: int)
    requires
        0 <= i < 87,
    ensures
        check_mask(i, 7) == 0,
        is_sized(i),
{
    if i < 11 {
        lemma_checks_from_0(i);
    } else if i < 22 {
        lemma_checks_from_11(i);
    } else if i < 33 {
        lemma_checks_from_22(i);
    } else if i < 44 {
        lemma_checks_from_33(i);
    } else if i < 55 {
        lemma_checks_from_44(i);
    } else if i < 66 {
        lemma_checks_from_55(i);
    } else if i < 77 {
        lemma_checks_from_66(i);
    } else if i < 87 {
        lemma_checks_from_77(i);
    }
}

proof fn lemma_overlap_single(row: u128, c: int, n: nat)
    requires
        0 <= c < 87,
        n <= 87,
    ensures
        overlap(row, single(c), n) == if c < n && enters(row, c) {
            1nat
        } else {
            0nat
        },
    decreases n,
{
    if n > 0 {
        lemma_overlap_single(row, c, (n - 1) as nat);
    }
}

/// Bit `c` of a message enters codeword bit `p` as the matrix says.
proof fn lemma_codeword_single(c: int, p: int)
    requires
        0 <= c < 87,
        0 <= p < 174,
    ensures
        codeword(single(c))[p] == (place_mask(p) >> ((87 - c) as u128)) & 1,
{
    let k = (87 - c) as u128;
    if p < 87 {
        let row = PARITY_ROWS[p];
        lemma_overlap_single(row, c, 87);
        assert(codeword(single(c))[p] == parity_of(single(c))[p]);
        assert((row >> k) & 1 == 0 || (row >> k) & 1 == 1) by (bit_vector);
    } else {
        let s = (174 - p) as u128;
        assert(codeword(single(c))[p] == single(c)[p - 87]);
        assert(((1u128 << s) >> k) & 1 == (if s == k {
            1u128
        } else {
            0u128
        })) by (bit_vector)
            requires
                s < 128,
                k < 128,
        ;
    }
}

proof fn lemma_empty_mask(k: u128)
    ensures
        (0u128 >> k) & 1 == 0,
{
    assert((0u128 >> k) & 1 == 0) by (bit_vector);
}

/// A check on the codeword of a single bit counts the bit as the matrix says.
proof fn lemma_check_counts(i: int, c: int, n: nat)
    requires
        0 <= i < 87,
        0 <= c < 87,
        is_sized(i),
        n <= 7,
    ensures
        n <= CHECK_SIZES@[i] ==> check_of(i).sum(codeword(single(c)), n) % 2 == (check_mask(i, n)
            >> ((87 - c) as u128)) & 1,
        n > CHECK_SIZES@[i] ==> check_mask(i, n) == check_mask(i, CHECK_SIZES@[i] as nat),
    decreases n,
{
    let k = (87 - c) as u128;
    if n == 0 {
        lemma_empty_mask(k);
    } else {
        lemma_check_counts(i, c, (n - 1) as nat);
        let p = CHECK_PLACES@[i]@[n - 1] as int;
        assert(CHECK_PLACES@[i]@[n - 1] < 174 <==> n - 1 < CHECK_SIZES@[i]);
        let x = check_mask(i, (n - 1) as nat);
        let y = place_mask(p);
        assert(((x ^ y) >> k) & 1 == (((x >> k) & 1) + ((y >> k) & 1)) % 2 && x ^ 0u128 == x) by (
        bit_vector);
        if n <= CHECK_SIZES@[i] {
            lemma_codeword_single(c, p);
        }
    }
}

/// Parity and message together are a codeword: they meet every check of the code.
pub proof fn law_codeword_meets_checks(m: Seq<u8>, i: int)
    requires
        m.len() == 87,
        bits::are_bits(m),
        0 <= i < 87,
    ensures
        check_of(i).wf(),
        meets(check_of(i), m),
{
    lemma_check_mask(i);
    let node = check_of(i);
    assert(node.wf()) by {
        assert forall|j: int| 0 <= j < node.valid implies #[trigger] node.bits@[j] < 174 by {
            assert(CHECK_PLACES@[i]@[j] < 174 <==> j < CHECK_SIZES@[i]);
        }
    }
    assert forall|c: int| 0 <= c < 87 implies meets(node, #[trigger] single(c)) by {
        lemma_check_counts(i, c, CHECK_SIZES@[i] as nat);
        lemma_check_counts(i, c, 7);
        lemma_empty_mask((87 - c) as u128);
    }
    law_checks_follow_from_single_bits(node, m);
}

proof fn lemma_sum_flip(c: CheckNode, cw: Seq<u8>, i: int, k: int, n: nat)
    requires
        c.wf(),
        n <= c.valid,
        cw.len() == 174,
        bits::are_bits(cw),
        0 <= i < 174,
        0 <= k < c.valid,
        c.bits@[k] == i,
        forall|j: int| 0 <= j < c.valid && j != k ==> #[trigger] c.bits@[j] != i,
    ensures
        (c.sum(cw, n) + c.sum(flipped(cw, i), n)) % 2 == (if k < n {
            1int
        } else {
            0
        }),
    decreases n,
{
    if n > 0 {
        lemma_sum_flip(c, cw, i, k, (n - 1) as nat);
        let at = c.bits@[n - 1] as int;
        assert(at < 174);
        assert(cw[at] <= 1 && cw[i] <= 1);
        assert(n - 1 != k ==> at != i);
    }
}

/// A wrong codeword bit turns over every check that covers it.
pub proof fn law_check_sees_error(c: CheckNode, cw: Seq<u8>, i: int, k: int)
    requires
        c.wf(),
        cw.len() == 174,
        bits::are_bits(cw),
        0 <= i < 174,
        0 <= k < c.valid,
        c.bits@[k] == i,
        forall|j: int| 0 <= j < c.valid && j != k ==> #[trigger] c.bits@[j] != i,
    ensures
        (c.sum(cw, c.valid as nat) % 2 == 0) != (c.sum(flipped(cw, i), c.valid as nat) % 2 == 0),
{
    lemma_sum_flip(c, cw, i, k, c.valid as nat);
}

} // verus!

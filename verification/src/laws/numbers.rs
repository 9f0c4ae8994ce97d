//! Numbers by their encodings, and stable ranking.

use crate::float::{F32, F64};
use crate::order::{law_ranking_is_a_permutation, law_ranking_is_stable, rank, ranking, Ranked};
use vstd::prelude::*;

verus! {

/// Encodings order numbers: those without a sign by their bits, those with a sign the other way
/// round, and any with a sign below any without, but for the two zeros, which are equal.
pub proof fn law_order_of_encodings_32(a: F32, b: F32)
    ensures
        a.is_not_a_number() <==> 0x7f80_0000 < a.bits < 0x8000_0000 || 0x8000_0000 + 0x7f80_0000 < a.bits,
        a.is_not_a_number() || b.is_not_a_number() ==> !a.below(b) && !a.same_number(b),
        !a.is_not_a_number() && !b.is_not_a_number() ==> {
            &&& a.bits < 0x8000_0000 && b.bits < 0x8000_0000 ==> (a.below(b) <==> a.bits < b.bits)
            &&& a.bits >= 0x8000_0000 && b.bits >= 0x8000_0000 ==> (a.below(b) <==> b.bits < a.bits)
            &&& a.bits >= 0x8000_0000 && b.bits < 0x8000_0000 ==> (a.below(b) <==> a.bits > 0x8000_0000 || b.bits
                > 0)
            &&& a.bits < 0x8000_0000 && b.bits >= 0x8000_0000 ==> !a.below(b)
            &&& a.same_number(b) <==> a.bits == b.bits || (a.bits == 0 && b.bits == 0x8000_0000) || (
            a.bits == 0x8000_0000 && b.bits == 0)
        },
{
}

/// The tests and choices on numbers follow their order: [`F32::clip`] cuts off what is not above
/// zero, and places on the line order numbers, mirrored by their sign.
pub proof fn law_tests_follow_the_order_32(
    a: F32,
    b: F32,
    nan: bool,
    below: bool,
    clip: F32,
    place: i64,
    other_place: i64,
)
    requires
        call_ensures(F32::is_nan, (a,), nan),
        call_ensures(F32::is_below, (a, b), below),
        call_ensures(F32::clip, (a,), clip),
        call_ensures(F32::line_place, (a,), place),
        call_ensures(F32::line_place, (b,), other_place),
    ensures
        nan <==> a.is_not_a_number(),
        below <==> a.below(b),
        (F32 { bits: 0 }).below(a) ==> clip == a,
        !(F32 { bits: 0 }).below(a) ==> clip == (F32 { bits: 0 }),
        !a.is_not_a_number() && !b.is_not_a_number() ==> (place < other_place <==> a.below(b)) && (
        place == other_place <==> a.same_number(b)),
{
}

/// Taking bits and giving them back changes nothing.
pub proof fn law_bits_come_back_32(bits: u32, x: F32, back: u32)
    requires
        call_ensures(F32::from_bits, (bits,), x),
        call_ensures(F32::to_bits, (x,), back),
    ensures
        x.bits == bits,
        back == bits,
{
}

/// Encodings order numbers: those without a sign by their bits, those with a sign the other way
/// round, and any with a sign below any without, but for the two zeros, which are equal.
pub proof fn law_order_of_encodings_64(a: F64, b: F64)
    ensures
        a.is_not_a_number() <==> 0x7ff0_0000_0000_0000 < a.bits < 0x8000_0000_0000_0000 || 0x8000_0000_0000_0000 + 0x7ff0_0000_0000_0000 < a.bits,
        a.is_not_a_number() || b.is_not_a_number() ==> !a.below(b) && !a.same_number(b),
        !a.is_not_a_number() && !b.is_not_a_number() ==> {
            &&& a.bits < 0x8000_0000_0000_0000 && b.bits < 0x8000_0000_0000_0000 ==> (a.below(b) <==> a.bits < b.bits)
            &&& a.bits >= 0x8000_0000_0000_0000 && b.bits >= 0x8000_0000_0000_0000 ==> (a.below(b) <==> b.bits < a.bits)
            &&& a.bits >= 0x8000_0000_0000_0000 && b.bits < 0x8000_0000_0000_0000 ==> (a.below(b) <==> a.bits > 0x8000_0000_0000_0000 || b.bits
                > 0)
            &&& a.bits < 0x8000_0000_0000_0000 && b.bits >= 0x8000_0000_0000_0000 ==> !a.below(b)
            &&& a.same_number(b) <==> a.bits == b.bits || (a.bits == 0 && b.bits == 0x8000_0000_0000_0000) || (
            a.bits == 0x8000_0000_0000_0000 && b.bits == 0)
        },
{
}

/// The tests and choices on numbers follow their order: [`F64::clip`] cuts off what is not above
/// zero, and places on the line order numbers, mirrored by their sign.
pub proof fn law_tests_follow_the_order_64(
    a: F64,
    b: F64,
    nan: bool,
    below: bool,
    clip: F64,
    place: i64,
    other_place: i64,
)
    requires
        call_ensures(F64::is_nan, (a,), nan),
        call_ensures(F64::is_below, (a, b), below),
        call_ensures(F64::clip, (a,), clip),
        call_ensures(F64::line_place, (a,), place),
        call_ensures(F64::line_place, (b,), other_place),
    ensures
        nan <==> a.is_not_a_number(),
        below <==> a.below(b),
        (F64 { bits: 0 }).below(a) ==> clip == a,
        !(F64 { bits: 0 }).below(a) ==> clip == (F64 { bits: 0 }),
        !a.is_not_a_number() && !b.is_not_a_number() ==> (place < other_place <==> a.below(b)) && (
        place == other_place <==> a.same_number(b)),
{
}

/// Taking bits and giving them back changes nothing.
pub proof fn law_bits_come_back_64(bits: u64, x: F64, back: u64)
    requires
        call_ensures(F64::from_bits, (bits,), x),
        call_ensures(F64::to_bits, (x,), back),
    ensures
        x.bits == bits,
        back == bits,
{
}

/// A running maximum moves on to a larger number and to nothing else.
pub proof fn law_running_maximum(a: F64, b: F64, r: F64)
    requires
        call_ensures(F64::at_least, (a, b), r),
    ensures
        a.below(b) ==> r == b,
        !a.below(b) ==> r == a,
{
}

/// A ranking lists each key once with its position, by rising key and among equals by position.
pub proof fn law_rankings_rise(keys: &Vec<i64>, out: Vec<Ranked>, r: int, s: int)
    requires
        call_ensures(rank, (keys,), out),
        0 <= r < s < keys@.len(),
    ensures
        out@.len() == keys@.len(),
        out@[r].1 < keys@.len() && out@[r].0 == keys@[out@[r].1 as int],
        out@[s].1 < keys@.len() && out@[s].0 == keys@[out@[s].1 as int],
        out@[r].0 < out@[s].0 || (out@[r].0 == out@[s].0 && out@[r].1 < out@[s].1),
{
    assert(keys.len() == keys@.len());
    law_ranking_is_a_permutation(keys@);
    law_ranking_is_stable(keys@, r, s);
}

/// The ranking of one key is that key, and that of none is empty.
pub proof fn law_short_rankings(keys: &Vec<i64>, out: Vec<Ranked>)
    requires
        call_ensures(rank, (keys,), out),
        keys@.len() <= 1,
    ensures
        out@.len() == keys@.len(),
        keys@.len() == 1 ==> out@[0] == (keys@[0], 0usize),
{
    law_ranking_is_a_permutation(keys@);
    if keys@.len() == 1 {
        let only = ranking(keys@)[0];
        assert(only.1 < 1 && only.0 == keys@[only.1 as int]);
    }
}

} // verus!

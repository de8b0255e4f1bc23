//! The reindeer contest: per attribute, the contestant with the largest value
//! wins (the earliest one on a tie), and is announced in a fixed sentence.
use vstd::prelude::*;

use crate::decimal::{decimal_text, int_text};
use crate::error::RequestError;

verus! {

/// One contestant.
///
/// `speed_bits` is the IEEE 754 bit pattern of the contestant's speed, as
/// `f64::to_bits` gives it.
pub struct ContestUser {
    pub name: String,
    pub strength: i64,
    pub speed_bits: u64,
    pub height: i64,
    pub snow_magic_power: i64,
    pub favorite_food: String,
    pub antler_width: i64,
    pub candies_eaten_yesterday: u64,
}

/// The four announcements of a contest.
pub struct ContestResult {
    pub fastest: String,
    pub tallest: String,
    pub magician: String,
    pub consumer: String,
}

/// An attribute on which contestants compete.
#[derive(Debug, Clone, Copy, PartialEq, Eq, Structural)]
pub enum Attribute {
    Speed,
    Height,
    SnowMagicPower,
    CandiesEatenYesterday,
}

/// All bits of an `f64` but the sign.
pub const MAGNITUDE_MASK: u64 = 0x7FFF_FFFF_FFFF_FFFF;

/// The bits of positive infinity; larger magnitudes are NaNs.
pub const INFINITY_BITS: u64 = 0x7FF0_0000_0000_0000;

/// The speed with bit pattern `bits` is NaN: all exponent bits set and a
/// non-zero fraction.
pub open spec fn speed_is_nan(bits: u64) -> bool {
    bits & MAGNITUDE_MASK > INFINITY_BITS
}

/// An integer that orders speeds as IEEE 754 compares them, for speeds that
/// are not NaN: the magnitude bits grow with the absolute value, and the sign
/// bit negates. Both zeros rank as 0.
pub open spec fn speed_key(bits: u64) -> int {
    let magnitude = (bits & MAGNITUDE_MASK) as int;
    if bits >> 63u64 == 1 {
        -magnitude
    } else {
        magnitude
    }
}

/// The value on which `u` competes for attribute `a`.
pub open spec fn attr_key(u: ContestUser, a: Attribute) -> int {
    match a {
        Attribute::Speed => speed_key(u.speed_bits),
        Attribute::Height => u.height as int,
        Attribute::SnowMagicPower => u.snow_magic_power as int,
        Attribute::CandiesEatenYesterday => u.candies_eaten_yesterday as int,
    }
}

/// The contestants' values for attribute `a`, in order.
pub open spec fn keys(users: Seq<ContestUser>, a: Attribute) -> Seq<int> {
    users.map_values(|u: ContestUser| attr_key(u, a))
}

/// Index of the largest value, the earliest one among equals, found by a
/// left-to-right scan that moves only on a strict improvement.
pub open spec fn first_max_index(ks: Seq<int>) -> int
    decreases ks.len(),
{
    if ks.len() <= 1 {
        0
    } else {
        let m = first_max_index(ks.drop_last());
        if ks.last() > ks[m] {
            ks.len() - 1
        } else {
            m
        }
    }
}

/// `i` holds the largest value of `ks`, and no earlier index holds it.
pub open spec fn is_earliest_max(ks: Seq<int>, i: int) -> bool {
    &&& 0 <= i < ks.len()
    &&& forall|j: int| 0 <= j < ks.len() ==> ks[j] <= ks[i]
    &&& forall|j: int| 0 <= j < i ==> ks[j] < ks[i]
}

/// The index of the winner of attribute `a`.
pub open spec fn winner(users: Seq<ContestUser>, a: Attribute) -> int {
    first_max_index(keys(users, a))
}

/// Some contestant's speed is NaN.
pub open spec fn has_nan_speed(users: Seq<ContestUser>) -> bool {
    exists|i: int| 0 <= i < users.len() && speed_is_nan(#[trigger] users[i].speed_bits)
}

/// The announcement of the fastest contestant.
pub open spec fn fastest_line(u: ContestUser) -> Seq<char> {
    "Speeding past the finish line with a strength of "@ + int_text(u.strength as int) + " is "@
        + u.name@
}

/// The announcement of the tallest contestant.
pub open spec fn tallest_line(u: ContestUser) -> Seq<char> {
    u.name@ + " is standing tall with his "@ + int_text(u.antler_width as int)
        + " cm wide antlers"@
}

/// The announcement of the strongest magician.
pub open spec fn magician_line(u: ContestUser) -> Seq<char> {
    u.name@ + " could blast you away with a snow magic power of "@ + int_text(
        u.snow_magic_power as int,
    )
}

/// The announcement of the contestant that ate the most candies.
pub open spec fn consumer_line(u: ContestUser) -> Seq<char> {
    u.name@ + " ate lots of candies, but also some "@ + u.favorite_food@
}

/// Each announcement of `res` is about the winner of its attribute.
pub open spec fn announces(res: ContestResult, users: Seq<ContestUser>) -> bool {
    &&& res.fastest@ == fastest_line(users[winner(users, Attribute::Speed)])
    &&& res.tallest@ == tallest_line(users[winner(users, Attribute::Height)])
    &&& res.magician@ == magician_line(users[winner(users, Attribute::SnowMagicPower)])
    &&& res.consumer@ == consumer_line(users[winner(users, Attribute::CandiesEatenYesterday)])
}

/// The scan's pick is the earliest index that holds the largest value, and
/// it is the only index that does.
pub proof fn lemma_first_max_is_earliest_max(ks: Seq<int>)
    requires
        ks.len() > 0,
    ensures
        is_earliest_max(ks, first_max_index(ks)),
        forall|i: int| is_earliest_max(ks, i) ==> i == first_max_index(ks),
    decreases ks.len(),
{
    if ks.len() > 1 {
        let d = ks.drop_last();
        lemma_first_max_is_earliest_max(d);
        assert forall|j: int| 0 <= j < d.len() implies ks[j] == d[j] by {}
    }
    let w = first_max_index(ks);
    assert forall|i: int| is_earliest_max(ks, i) implies i == w by {
        if i < w {
            assert(ks[i] < ks[w]);
        } else if w < i {
            assert(ks[w] < ks[i]);
        }
    }
}

/// Whatever contestant list and attribute, the winner is the earliest
/// contestant that holds the largest value of that attribute.
pub proof fn lemma_winner_is_earliest_max(users: Seq<ContestUser>, a: Attribute)
    requires
        users.len() > 0,
    ensures
        is_earliest_max(keys(users, a), winner(users, a)),
        forall|i: int| is_earliest_max(keys(users, a), i) ==> i == winner(users, a),
{
    lemma_first_max_is_earliest_max(keys(users, a));
}

fn speed_rank(bits: u64) -> (r: i64)
    ensures
        r as int == speed_key(bits),
{
    let magnitude = bits & MAGNITUDE_MASK;
    assert(bits & 0x7FFF_FFFF_FFFF_FFFFu64 <= 0x7FFF_FFFF_FFFF_FFFFu64) by (bit_vector);
    if bits >> 63u64 == 1 {
        -(magnitude as i64)
    } else {
        magnitude as i64
    }
}

fn rank(u: &ContestUser, a: Attribute) -> (r: i128)
    ensures
        r as int == attr_key(*u, a),
{
    match a {
        Attribute::Speed => speed_rank(u.speed_bits) as i128,
        Attribute::Height => u.height as i128,
        Attribute::SnowMagicPower => u.snow_magic_power as i128,
        Attribute::CandiesEatenYesterday => u.candies_eaten_yesterday as i128,
    }
}

/// The index of the contestant that wins attribute `a`.
pub fn winner_index(users: &Vec<ContestUser>, a: Attribute) -> (r: usize)
    requires
        users@.len() > 0,
    ensures
        r as int == winner(users@, a),
        r < users@.len(),
{
    let ghost ks = keys(users@, a);
    let mut best: usize = 0;
    let mut best_key = rank(&users[0], a);
    let mut i: usize = 1;
    while i < users.len()
        invariant
            1 <= i <= users@.len(),
            ks == keys(users@, a),
            best as int == first_max_index(ks.subrange(0, i as int)),
            best < i,
            best_key as int == ks[best as int],
        decreases users@.len() - i,
    {
        let k = rank(&users[i], a);
        assert(ks.subrange(0, i as int + 1).drop_last() =~= ks.subrange(0, i as int));
        if k > best_key {
            best = i;
            best_key = k;
        }
        i = i + 1;
    }
    assert(ks.subrange(0, users@.len() as int) =~= ks);
    best
}

fn fastest_text(u: &ContestUser) -> (r: String)
    ensures
        r@ == fastest_line(*u),
{
    let mut s = String::from_str("Speeding past the finish line with a strength of ");
    s.append(decimal_text(u.strength).as_str());
    s.append(" is ");
    s.append(u.name.as_str());
    s
}

fn tallest_text(u: &ContestUser) -> (r: String)
    ensures
        r@ == tallest_line(*u),
{
    let mut s = String::from_str(u.name.as_str());
    s.append(" is standing tall with his ");
    s.append(decimal_text(u.antler_width).as_str());
    s.append(" cm wide antlers");
    s
}

fn magician_text(u: &ContestUser) -> (r: String)
    ensures
        r@ == magician_line(*u),
{
    let mut s = String::from_str(u.name.as_str());
    s.append(" could blast you away with a snow magic power of ");
    s.append(decimal_text(u.snow_magic_power).as_str());
    s
}

fn consumer_text(u: &ContestUser) -> (r: String)
    ensures
        r@ == consumer_line(*u),
{
    let mut s = String::from_str(u.name.as_str());
    s.append(" ate lots of candies, but also some ");
    s.append(u.favorite_food.as_str());
    s
}

/// Runs the contest: each announcement is about the winner of its attribute.
/// An empty list and a NaN speed are refused.
pub fn contest(users: &Vec<ContestUser>) -> (r: Result<ContestResult, RequestError>)
    ensures
        users@.len() == 0 ==> r == Err::<ContestResult, RequestError>(RequestError::EmptyContest),
        users@.len() > 0 && has_nan_speed(users@) ==> r == Err::<ContestResult, RequestError>(
            RequestError::SpeedIsNan,
        ),
        users@.len() > 0 && !has_nan_speed(users@) ==> (r matches Ok(res) && announces(
            res,
            users@,
        )),
{
    if users.len() == 0 {
        return Err(RequestError::EmptyContest);
    }
    let mut i: usize = 0;
    while i < users.len()
        invariant
            0 <= i <= users@.len(),
            forall|j: int| 0 <= j < i ==> !speed_is_nan(#[trigger] users@[j].speed_bits),
        decreases users@.len() - i,
    {
        if users[i].speed_bits & MAGNITUDE_MASK > INFINITY_BITS {
            return Err(RequestError::SpeedIsNan);
        }
        i = i + 1;
    }
    let fastest = winner_index(users, Attribute::Speed);
    let tallest = winner_index(users, Attribute::Height);
    let magician = winner_index(users, Attribute::SnowMagicPower);
    let consumer = winner_index(users, Attribute::CandiesEatenYesterday);
    Ok(
        ContestResult {
            fastest: fastest_text(&users[fastest]),
            tallest: tallest_text(&users[tallest]),
            magician: magician_text(&users[magician]),
            consumer: consumer_text(&users[consumer]),
        },
    )
}

} // verus!

//! The cube of the XOR of the integers written in a path: `4/8` gives
//! `(4 ^ 8)^3 = 1728`.
use vstd::prelude::*;

use crate::error::RequestError;

verus! {

/// An ASCII decimal digit.
pub open spec fn is_digit(c: char) -> bool {
    '0' <= c <= '9'
}

/// Every character of `s` is a decimal digit.
pub open spec fn all_digits(s: Seq<char>) -> bool {
    forall|i: int| 0 <= i < s.len() ==> is_digit(#[trigger] s[i])
}

/// The value of a string of decimal digits, most significant first.
pub open spec fn digits_value(s: Seq<char>) -> int
    decreases s.len(),
{
    if s.len() == 0 {
        0
    } else {
        digits_value(s.drop_last()) * 10 + (s.last() as int - '0' as int)
    }
}

/// The integer that `s` writes: an optional `+` or `-`, then one or more
/// decimal digits. `None` for any other text.
pub open spec fn decimal_value(s: Seq<char>) -> Option<int> {
    if s.len() > 0 && (s[0] == '-' || s[0] == '+') {
        let d = s.drop_first();
        if d.len() > 0 && all_digits(d) {
            Some(
                if s[0] == '-' {
                    -digits_value(d)
                } else {
                    digits_value(d)
                },
            )
        } else {
            None
        }
    } else if s.len() > 0 && all_digits(s) {
        Some(digits_value(s))
    } else {
        None
    }
}

/// The `i64` that `s` writes, if it writes one within range.
pub open spec fn i64_value(s: Seq<char>) -> Option<i64> {
    match decimal_value(s) {
        Some(v) => if i64::MIN <= v <= i64::MAX {
            Some(v as i64)
        } else {
            None
        },
        None => None,
    }
}

/// The pieces of `s` between the `/` characters, in order; `k` slashes give
/// `k + 1` pieces, some of them possibly empty.
pub open spec fn split_segments(s: Seq<char>) -> Seq<Seq<char>>
    decreases s.len(),
{
    if s.len() == 0 {
        seq![Seq::empty()]
    } else {
        let p = split_segments(s.drop_last());
        if s.last() == '/' {
            p.push(Seq::empty())
        } else {
            p.update(p.len() - 1, p.last().push(s.last()))
        }
    }
}

/// The integers of a path: none for an empty path, else one for each piece
/// between slashes, provided every piece writes an `i64`.
pub open spec fn path_values(s: Seq<char>) -> Option<Seq<i64>> {
    if s.len() == 0 {
        Some(Seq::empty())
    } else {
        let segs = split_segments(s);
        if forall|j: int| 0 <= j < segs.len() ==> (#[trigger] i64_value(segs[j])) is Some {
            Some(segs.map_values(|g: Seq<char>| i64_value(g)->0))
        } else {
            None
        }
    }
}

/// The values combined by XOR, left to right; 1 for no values at all.
pub open spec fn xor_fold(vs: Seq<i64>) -> i64
    decreases vs.len(),
{
    if vs.len() == 0 {
        1
    } else if vs.len() == 1 {
        vs[0]
    } else {
        xor_fold(vs.drop_last()) ^ vs.last()
    }
}

/// The third power of `x`.
pub open spec fn cube(x: int) -> int {
    x * x * x
}

proof fn lemma_digits_value_grows(s: Seq<char>, i: int)
    requires
        all_digits(s),
        0 <= i <= s.len(),
    ensures
        0 <= digits_value(s.subrange(0, i)) <= digits_value(s),
    decreases s.len(),
{
    if s.len() > 0 {
        let d = s.drop_last();
        assert(all_digits(d)) by {
            assert forall|j: int| 0 <= j < d.len() implies is_digit(#[trigger] d[j]) by {
                assert(d[j] == s[j]);
            }
        }
        if i == s.len() {
            assert(s.subrange(0, i) =~= s);
            lemma_digits_value_grows(d, d.len() as int);
            assert(d.subrange(0, d.len() as int) =~= d);
        } else {
            lemma_digits_value_grows(d, i);
            assert(d.subrange(0, i) =~= s.subrange(0, i));
            lemma_digits_value_grows(d, d.len() as int);
            assert(d.subrange(0, d.len() as int) =~= d);
        }
        assert(is_digit(s.last()));
    }
}

/// The `i64` written in `s`, as `str::parse::<i64>` reads it.
pub fn parse_i64(s: &str) -> (r: Option<i64>)
    ensures
        r == i64_value(s@),
{
    let n = s.unicode_len();
    if n == 0 {
        return None;
    }
    let c0 = s.get_char(0);
    let first: usize = if c0 == '-' || c0 == '+' {
        1
    } else {
        0
    };
    if first == n {
        return None;
    }
    let ghost t = s@;
    let ghost d = t.subrange(first as int, n as int);
    let mut acc: u128 = 0;
    let mut i: usize = first;
    while i < n
        invariant
            first <= i <= n,
            first <= 1,
            first == 1 <==> (c0 == '-' || c0 == '+'),
            c0 == t[0],
            n == t.len(),
            t == s@,
            first < n,
            d == t.subrange(first as int, n as int),
            acc as int == digits_value(t.subrange(first as int, i as int)),
            all_digits(t.subrange(first as int, i as int)),
            acc <= 0x8000_0000_0000_0000u128,
        decreases n - i,
    {
        let c = s.get_char(i);
        let ghost before = t.subrange(first as int, i as int);
        let ghost after = t.subrange(first as int, i as int + 1);
        assert(after.drop_last() =~= before);
        if !(c >= '0' && c <= '9') {
            proof {
                assert(d[i - first] == c);
                assert(!all_digits(d));
                if first == 1 {
                    assert(t.drop_first() =~= d);
                } else {
                    assert(t =~= d);
                }
            }
            return None;
        }
        let digit: u32 = (c as u32) - ('0' as u32);
        acc = acc * 10 + digit as u128;
        proof {
            assert forall|j: int| 0 <= j < after.len() implies is_digit(#[trigger] after[j]) by {
                if j < before.len() {
                    assert(after[j] == before[j]);
                }
            }
        }
        i = i + 1;
        if acc > 0x8000_0000_0000_0000u128 {
            proof {
                if all_digits(d) {
                    lemma_digits_value_grows(d, i - first);
                    assert(d.subrange(0, i - first) =~= t.subrange(first as int, i as int));
                }
                if first == 1 {
                    assert(t.drop_first() =~= d);
                } else {
                    assert(t =~= d);
                }
            }
            return None;
        }
    }
    assert(t.subrange(first as int, n as int) =~= d);
    if first == 1 {
        assert(t.drop_first() =~= d);
    } else {
        assert(t =~= d);
    }
    if c0 == '-' {
        Some((-(acc as i128)) as i64)
    } else if acc <= 0x7FFF_FFFF_FFFF_FFFFu128 {
        Some(acc as i64)
    } else {
        None
    }
}

/// The integers of a path, as `path_values` gives them; refuses a path with
/// a piece that is not the text of an `i64`.
pub fn parse_path(path: &str) -> (r: Result<Vec<i64>, RequestError>)
    ensures
        match path_values(path@) {
            Some(vs) => r matches Ok(v) && v@ == vs,
            None => r == Err::<Vec<i64>, RequestError>(RequestError::InvalidSegment),
        },
{
    let n = path.unicode_len();
    if n == 0 {
        let v: Vec<i64> = Vec::new();
        assert(v@ =~= Seq::<i64>::empty());
        return Ok(v);
    }
    let ghost t = path@;
    let ghost mut done: Seq<Seq<char>> = Seq::empty();
    let mut values: Vec<i64> = Vec::new();
    let mut all_ok = true;
    let mut start: usize = 0;
    let mut i: usize = 0;
    assert(t.subrange(0, 0) =~= Seq::<char>::empty());
    assert(split_segments(t.subrange(0, 0)) =~= done.push(t.subrange(0, 0)));
    while i < n
        invariant
            0 <= start <= i <= n,
            n == t.len(),
            t == path@,
            split_segments(t.subrange(0, i as int)) == done.push(t.subrange(start as int, i as int)),
            all_ok <==> forall|j: int| 0 <= j < done.len() ==> (#[trigger] i64_value(done[j])) is Some,
            all_ok ==> values@.len() == done.len(),
            all_ok ==> forall|j: int| 0 <= j < done.len() ==> values@[j] == (#[trigger] i64_value(done[j]))->0,
        decreases n - i,
    {
        let c = path.get_char(i);
        let ghost cur = t.subrange(start as int, i as int);
        assert(t.subrange(0, i + 1).drop_last() =~= t.subrange(0, i as int));
        if c == '/' {
            let seg = path.substring_char(start, i);
            match parse_i64(seg) {
                Some(v) => {
                    if all_ok {
                        values.push(v);
                    }
                },
                None => {
                    all_ok = false;
                },
            }
            proof {
                let old_done = done;
                done = done.push(cur);
                assert(done[old_done.len() as int] == cur);
                if all_ok {
                    assert forall|j: int| 0 <= j < done.len() implies (#[trigger] i64_value(
                        done[j],
                    )) is Some by {
                        if j < old_done.len() {
                            assert(done[j] == old_done[j]);
                        }
                    }
                } else if i64_value(cur) is Some {
                    let j = choose|j: int|
                        0 <= j < old_done.len() && !(#[trigger] i64_value(old_done[j]) is Some);
                    assert(done[j] == old_done[j]);
                }
                assert(t.subrange(i + 1, i + 1) =~= Seq::<char>::empty());
                assert(split_segments(t.subrange(0, i + 1)) =~= done.push(t.subrange(i + 1, i + 1)));
                assert forall|j: int| 0 <= j < old_done.len() implies done[j] == old_done[j] by {}
            }
            start = i + 1;
        } else {
            proof {
                assert(cur.push(c) =~= t.subrange(start as int, i + 1));
                assert(done.push(cur).update(done.len() as int, cur.push(c)) =~= done.push(cur.push(c)));
            }
        }
        i = i + 1;
    }
    let seg = path.substring_char(start, n);
    let ghost last = t.subrange(start as int, n as int);
    assert(t.subrange(0, n as int) =~= t);
    let ghost segs = done.push(last);
    assert(split_segments(t) == segs);
    match parse_i64(seg) {
        Some(v) => {
            if all_ok {
                values.push(v);
                assert forall|j: int| 0 <= j < segs.len() implies (#[trigger] i64_value(segs[j])) is Some by {
                    if j < done.len() {
                        assert(segs[j] == done[j]);
                    }
                }
                assert(values@ =~= segs.map_values(|g: Seq<char>| i64_value(g)->0)) by {
                    assert forall|j: int| 0 <= j < segs.len() implies values@[j] == i64_value(segs[j])->0 by {
                        if j < done.len() {
                            assert(segs[j] == done[j]);
                        }
                    }
                }
                Ok(values)
            } else {
                proof {
                    let j = choose|j: int| 0 <= j < done.len() && !(i64_value(done[j]) is Some);
                    assert(segs[j] == done[j]);
                }
                Err(RequestError::InvalidSegment)
            }
        },
        None => {
            assert(segs[done.len() as int] == last);
            Err(RequestError::InvalidSegment)
        },
    }
}

/// The cube of the XOR of `values` (of 1 when there are none); refused when
/// it does not fit in an `i64`.
pub fn xor_cube_value(values: &Vec<i64>) -> (r: Result<i64, RequestError>)
    ensures
        i64::MIN <= cube(xor_fold(values@) as int) <= i64::MAX ==> r == Ok::<i64, RequestError>(
            cube(xor_fold(values@) as int) as i64,
        ),
        !(i64::MIN <= cube(xor_fold(values@) as int) <= i64::MAX) ==> r == Err::<
            i64,
            RequestError,
        >(RequestError::Overflow),
{
    let mut x: i64 = 1;
    if values.len() > 0 {
        x = values[0];
        let mut i: usize = 1;
        assert(values@.subrange(0, 1) =~= seq![values@[0]]);
        while i < values.len()
            invariant
                1 <= i <= values@.len(),
                x == xor_fold(values@.subrange(0, i as int)),
            decreases values@.len() - i,
        {
            assert(values@.subrange(0, i + 1).drop_last() =~= values@.subrange(0, i as int));
            x = x ^ values[i];
            i = i + 1;
        }
        assert(values@.subrange(0, values@.len() as int) =~= values@);
    }
    let ghost c = cube(x as int);
    match x.checked_mul(x) {
        None => {
            proof { lemma_square_bounds_cube(x as int); }
            Err(RequestError::Overflow)
        },
        Some(sq) => match sq.checked_mul(x) {
            None => Err(RequestError::Overflow),
            Some(cb) => Ok(cb),
        },
    }
}

proof fn lemma_square_bounds_cube(x: int)
    requires
        !(i64::MIN <= x * x <= i64::MAX),
    ensures
        !(i64::MIN <= cube(x) <= i64::MAX),
{
    let sq = x * x;
    assert(sq >= 0) by (nonlinear_arith)
        requires
            sq == x * x,
    ;
    assert(cube(x) == sq * x);
    if x > 0 {
        assert(sq * x >= sq) by (nonlinear_arith)
            requires
                sq >= 0,
                x >= 1,
        ;
    } else {
        assert(x != -1);
        assert(sq * x <= -2 * sq) by (nonlinear_arith)
            requires
                sq >= 0,
                x <= -2,
        ;
    }
}

/// The cube of the XOR of the integers written in `path`, the response to
/// a path request. Refuses a path piece that writes no `i64`, then a cube
/// that does not fit in an `i64`.
pub fn xor_cube(path: &str) -> (r: Result<i64, RequestError>)
    ensures
        path_values(path@) is None ==> r == Err::<i64, RequestError>(RequestError::InvalidSegment),
        path_values(path@) matches Some(vs) ==> ({
            let c = cube(xor_fold(vs) as int);
            if i64::MIN <= c <= i64::MAX {
                r == Ok::<i64, RequestError>(c as i64)
            } else {
                r == Err::<i64, RequestError>(RequestError::Overflow)
            }
        }),
{
    match parse_path(path) {
        Ok(values) => xor_cube_value(&values),
        Err(e) => Err(e),
    }
}

} // verus!

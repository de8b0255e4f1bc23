//! The total strength of a list of records.
use vstd::prelude::*;

use crate::error::RequestError;

verus! {

/// One record of a strength request; the request's other fields are not read.
#[derive(Debug, Clone, Copy, PartialEq, Eq, Structural)]
pub struct StrengthRecord {
    pub strength: i64,
}

/// The arithmetic sum of the records' strengths.
pub open spec fn strength_total(rs: Seq<StrengthRecord>) -> int
    decreases rs.len(),
{
    if rs.len() == 0 {
        0
    } else {
        strength_total(rs.drop_last()) + rs.last().strength
    }
}

proof fn lemma_total_concat(a: Seq<StrengthRecord>, b: Seq<StrengthRecord>)
    ensures
        strength_total(a + b) == strength_total(a) + strength_total(b),
    decreases b.len(),
{
    if b.len() == 0 {
        assert(a + b =~= a);
    } else {
        lemma_total_concat(a, b.drop_last());
        assert((a + b).drop_last() =~= a + b.drop_last());
    }
}

proof fn lemma_total_remove(s: Seq<StrengthRecord>, i: int)
    requires
        0 <= i < s.len(),
    ensures
        strength_total(s) == strength_total(s.remove(i)) + s[i].strength,
{
    let pre = s.subrange(0, i);
    let post = s.subrange(i + 1, s.len() as int);
    assert(s =~= pre + (seq![s[i]] + post));
    assert(s.remove(i) =~= pre + post);
    lemma_total_concat(pre, seq![s[i]] + post);
    lemma_total_concat(seq![s[i]], post);
    lemma_total_concat(pre, post);
    let one = seq![s[i]];
    assert(one.drop_last() =~= Seq::<StrengthRecord>::empty());
    assert(strength_total(Seq::<StrengthRecord>::empty()) == 0);
    assert(strength_total(one) == s[i].strength);
}

/// The total does not depend on the order of the records: any two lists
/// that hold the same records, as many times each, have the same total.
pub proof fn lemma_total_ignores_order(a: Seq<StrengthRecord>, b: Seq<StrengthRecord>)
    requires
        a.to_multiset() == b.to_multiset(),
    ensures
        strength_total(a) == strength_total(b),
    decreases a.len(),
{
    broadcast use vstd::seq_lib::group_to_multiset_ensures;

    if a.len() == 0 {
        assert(b.to_multiset().len() == 0);
        assert(b.len() == 0);
    } else {
        let x = a.last();
        assert(a.to_multiset().count(x) > 0) by {
            assert(a.contains(x)) by {
                assert(a[a.len() - 1] == x);
            }
        }
        assert(b.contains(x));
        let j = choose|j: int| 0 <= j < b.len() && b[j] == x;
        let b2 = b.remove(j);
        assert(a.drop_last().push(x) =~= a);
        vstd::seq_lib::to_multiset_remove(b, j);
        assert(a.drop_last().to_multiset() =~= a.to_multiset().remove(x));
        lemma_total_ignores_order(a.drop_last(), b2);
        lemma_total_remove(b, j);
    }
}

/// The total strength of `records`, the response to a strength request;
/// refused when it does not fit in an `i64`. No list is too long: partial
/// sums are kept exact.
pub fn strength_sum(records: &Vec<StrengthRecord>) -> (r: Result<i64, RequestError>)
    ensures
        i64::MIN <= strength_total(records@) <= i64::MAX ==> r == Ok::<i64, RequestError>(
            strength_total(records@) as i64,
        ),
        !(i64::MIN <= strength_total(records@) <= i64::MAX) ==> r == Err::<i64, RequestError>(
            RequestError::Overflow,
        ),
{
    let mut total: i128 = 0;
    let mut i: usize = 0;
    while i < records.len()
        invariant
            0 <= i <= records@.len(),
            total as int == strength_total(records@.subrange(0, i as int)),
            -(i as int) * 0x8000_0000_0000_0000 <= total <= (i as int) * 0x8000_0000_0000_0000,
        decreases records@.len() - i,
    {
        assert(records@.subrange(0, i + 1).drop_last() =~= records@.subrange(0, i as int));
        assert(i < 0x1_0000_0000_0000_0000);
        assert((i as int + 1) * 0x8000_0000_0000_0000 <= 0x1_0000_0000_0000_0000 * 0x8000_0000_0000_0000);
        total = total + records[i].strength as i128;
        i = i + 1;
    }
    assert(records@.subrange(0, records@.len() as int) =~= records@);
    if i64::MIN as i128 <= total && total <= i64::MAX as i128 {
        Ok(total as i64)
    } else {
        Err(RequestError::Overflow)
    }
}

} // verus!

//! Bounded insertion into the fixed-size, distance-sorted shortlist.
//!
//! The shortlist always holds exactly `k` scored words, ascending by
//! distance.  A new candidate that does not beat the worst retained entry
//! is discarded; one that does is placed after every entry at most as
//! distant (so ties keep the order in which candidates were evaluated),
//! and the previous worst entry is evicted.

use vstd::prelude::*;

use crate::lm::{cand_view, cands_view};

verus! {

/// The shortlist view is ascending by distance.
pub open spec fn sorted_by_dist(s: Seq<(Seq<char>, u64)>) -> bool {
    forall|i: int| 0 <= i < s.len() - 1 ==> (#[trigger] s[i]).1 <= s[i + 1].1
}

/// Where a candidate at distance `d` lands: after every entry at most as
/// distant.
pub open spec fn insert_pos(s: Seq<(Seq<char>, u64)>, d: u64) -> int
    decreases s.len(),
{
    if s.len() == 0 {
        0
    } else if s[0].1 <= d {
        1 + insert_pos(s.drop_first(), d)
    } else {
        0
    }
}

/// The shortlist after offering one scored word: unchanged when the word
/// does not beat the worst retained entry, else the word in its stable
/// sorted position with the previous worst entry evicted.
pub open spec fn insert_spec(s: Seq<(Seq<char>, u64)>, c: (Seq<char>, u64)) -> Seq<
    (Seq<char>, u64),
> {
    if s.len() == 0 {
        s
    } else if c.1 >= s.last().1 {
        s
    } else {
        s.take(insert_pos(s, c.1)) + seq![c] + s.subrange(insert_pos(s, c.1), s.len() - 1)
    }
}

/// The insert position lies in range; everything before it is at most as
/// distant, and the entry at it (if any) is strictly more distant.
pub proof fn lemma_insert_pos_range(s: Seq<(Seq<char>, u64)>, d: u64)
    ensures
        0 <= insert_pos(s, d) <= s.len(),
        forall|j: int| 0 <= j < insert_pos(s, d) ==> (#[trigger] s[j]).1 <= d,
        insert_pos(s, d) < s.len() ==> s[insert_pos(s, d)].1 > d,
    decreases s.len(),
{
    if s.len() > 0 && s[0].1 <= d {
        lemma_insert_pos_range(s.drop_first(), d);
        assert(forall|j: int|
            1 <= j < insert_pos(s, d) ==> (#[trigger] s[j]).1 == s.drop_first()[j - 1].1);
    }
}

/// A position with the insert position's properties is the insert
/// position.
pub proof fn lemma_insert_pos_eq(s: Seq<(Seq<char>, u64)>, d: u64, p: int)
    requires
        0 <= p <= s.len(),
        forall|j: int| 0 <= j < p ==> (#[trigger] s[j]).1 <= d,
        p < s.len() ==> s[p].1 > d,
    ensures
        insert_pos(s, d) == p,
    decreases s.len(),
{
    if p == 0 {
    } else {
        assert(s[0].1 <= d);
        assert(forall|j: int|
            0 <= j < p - 1 ==> (#[trigger] s.drop_first()[j]).1 == s[j + 1].1 && s[j + 1].1 <= d);
        lemma_insert_pos_eq(s.drop_first(), d, p - 1);
    }
}

/// Offering a word keeps the shortlist sorted and of the same length, and
/// never worsens (raises) the worst retained distance.
pub proof fn lemma_insert_spec_sorted(s: Seq<(Seq<char>, u64)>, c: (Seq<char>, u64))
    requires
        sorted_by_dist(s),
        s.len() >= 1,
    ensures
        insert_spec(s, c).len() == s.len(),
        sorted_by_dist(insert_spec(s, c)),
        insert_spec(s, c).last().1 <= s.last().1,
{
    lemma_insert_pos_range(s, c.1);
    if c.1 >= s.last().1 {
    } else {
        let p = insert_pos(s, c.1);
        let r = insert_spec(s, c);
        assert(p < s.len()) by {
            if p == s.len() {
                assert(s[s.len() - 1].1 <= c.1);
            }
        }
        assert(r.len() == s.len());
        assert(forall|i: int| 0 <= i < p ==> r[i] == s[i]);
        assert(r[p] == c);
        assert(forall|i: int| p < i < r.len() ==> r[i] == s[i - 1]);
        assert forall|i: int| 0 <= i < r.len() - 1 implies (#[trigger] r[i]).1 <= r[i + 1].1 by {
            if i + 1 < p {
                assert(s[i].1 <= s[i + 1].1);
            } else if i + 1 == p {
                assert(s[i].1 <= c.1);
            } else if i == p {
                assert(c.1 < s[p].1);
            } else {
                assert(s[i - 1].1 <= s[i].1);
            }
        }
        if p < s.len() - 1 {
            assert(r.last() == s[s.len() - 2]);
            assert(s[s.len() - 2].1 <= s[s.len() - 1].1);
        }
    }
}

/// Offer one scored word to the shortlist: keep it only if it beats the
/// worst retained entry, placing it after every entry at most as distant
/// and evicting the previous worst.
pub fn insert_into_k_bsf(candidate: (String, u64), k_best: &mut Vec<(String, u64)>)
    requires
        old(k_best)@.len() >= 1,
        sorted_by_dist(cands_view(old(k_best)@)),
    ensures
        cands_view(final(k_best)@) == insert_spec(cands_view(old(k_best)@), cand_view(candidate)),
        final(k_best)@.len() == old(k_best)@.len(),
        sorted_by_dist(cands_view(final(k_best)@)),
{
    let ghost s = cands_view(old(k_best)@);
    let ghost c = cand_view(candidate);
    proof {
        lemma_insert_spec_sorted(s, c);
        lemma_insert_pos_range(s, c.1);
    }
    let len = k_best.len();
    let d = candidate.1;
    if d >= k_best[len - 1].1 {
        return ;
    }
    let mut i: usize = 0;
    while i < len && k_best[i].1 <= d
        invariant
            0 <= i <= len == k_best@.len(),
            d == c.1,
            s == cands_view(k_best@),
            forall|j: int| 0 <= j < i ==> (#[trigger] s[j]).1 <= d,
        decreases len - i,
    {
        i = i + 1;
    }
    proof {
        lemma_insert_pos_eq(s, d, i as int);
    }
    k_best.insert(i, candidate);
    k_best.pop();
    proof {
        assert(cands_view(k_best@) =~= insert_spec(s, c));
    }
}

} // verus!

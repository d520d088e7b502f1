//! Suggestions for names that are almost, but not quite, right.
use vstd::prelude::*;

verus! {

/// The optimal string alignment distance between two strings: the least number of
/// insertions, deletions, substitutions and swaps of adjacent characters that turn
/// one into the other, where no substring is edited twice.
pub uninterp spec fn osa(a: Seq<char>, b: Seq<char>) -> nat;

/// Relies on strsim::osa_distance, which computes the optimal string alignment
/// distance of its two arguments; it depends on their characters alone, and it is 0
/// exactly when the two strings are equal.
#[verifier::external_body]
fn osa_distance(a: &str, b: &str) -> (r: usize)
    ensures
        r as nat == osa(a@, b@),
        r == 0 <==> a@ == b@,
{
    strsim::osa_distance(a, b)
}

/// The characters of each string of a sequence.
pub open spec fn views(v: Seq<String>) -> Seq<Seq<char>> {
    v.map_values(|s: String| s@)
}

/// The least distance from a candidate to `goal` (0 for no candidates).
pub open spec fn least_distance(cands: Seq<Seq<char>>, goal: Seq<char>) -> nat
    decreases cands.len(),
{
    if cands.len() == 0 {
        0
    } else if cands.len() == 1 {
        osa(cands[0], goal)
    } else {
        let rest = least_distance(cands.drop_last(), goal);
        let d = osa(cands.last(), goal);
        if d < rest {
            d
        } else {
            rest
        }
    }
}

/// The candidates at distance `d` from `goal`, in their order.
pub open spec fn at_distance(cands: Seq<Seq<char>>, goal: Seq<char>, d: nat) -> Seq<Seq<char>>
    decreases cands.len(),
{
    if cands.len() == 0 {
        seq![]
    } else {
        let rest = at_distance(cands.drop_last(), goal, d);
        if osa(cands.last(), goal) == d {
            rest.push(cands.last())
        } else {
            rest
        }
    }
}

/// Some candidate is exactly at distance 0 from `goal`.
pub open spec fn has_exact(cands: Seq<Seq<char>>, goal: Seq<char>) -> bool {
    exists|i: int| 0 <= i < cands.len() && osa(#[trigger] cands[i], goal) == 0
}

/// `None` when a candidate matches `goal` exactly; otherwise every candidate at the
/// least distance from `goal`, in their order.
pub open spec fn closest(cands: Seq<Seq<char>>, goal: Seq<char>) -> Option<Seq<Seq<char>>> {
    if has_exact(cands, goal) {
        None
    } else {
        Some(at_distance(cands, goal, least_distance(cands, goal)))
    }
}

proof fn lemma_least_is_lower_bound(cands: Seq<Seq<char>>, goal: Seq<char>)
    requires
        cands.len() > 0,
    ensures
        forall|i: int| 0 <= i < cands.len() ==> least_distance(cands, goal) <= osa(#[trigger] cands[i], goal),
        exists|i: int| 0 <= i < cands.len() && least_distance(cands, goal) == osa(#[trigger] cands[i], goal),
    decreases cands.len(),
{
    if cands.len() == 1 {
        assert(least_distance(cands, goal) == osa(cands[0], goal));
    } else {
        let init = cands.drop_last();
        lemma_least_is_lower_bound(init, goal);
        let n = cands.len() - 1;
        assert forall|i: int| 0 <= i < cands.len() implies least_distance(cands, goal) <= osa(
            #[trigger] cands[i],
            goal,
        ) by {
            if i < n {
                assert(init[i] == cands[i]);
            }
        }
        if osa(cands[n], goal) < least_distance(init, goal) {
            assert(least_distance(cands, goal) == osa(cands[n], goal));
        } else {
            let j = choose|j: int|
                0 <= j < init.len() && least_distance(init, goal) == osa(#[trigger] init[j], goal);
            assert(init[j] == cands[j]);
            assert(least_distance(cands, goal) == osa(cands[j], goal));
        }
    }
}

proof fn lemma_none_at_distance(cands: Seq<Seq<char>>, goal: Seq<char>, d: nat)
    requires
        forall|i: int| 0 <= i < cands.len() ==> d < osa(#[trigger] cands[i], goal),
    ensures
        at_distance(cands, goal, d) == Seq::<Seq<char>>::empty(),
    decreases cands.len(),
{
    if cands.len() > 0 {
        assert forall|i: int| 0 <= i < cands.len() - 1 implies d < osa(#[trigger] cands.drop_last()[i], goal) by {
            assert(cands.drop_last()[i] == cands[i]);
        }
        lemma_none_at_distance(cands.drop_last(), goal, d);
    }
}

/// Find the candidates closest to `goal` by optimal string alignment distance.
/// Returns `None` when one of them is `goal` exactly (distance 0), otherwise all
/// candidates at the least distance, in the order given (an empty list for no
/// candidates).
pub fn find_closest(candidates: &Vec<String>, goal: &str) -> (r: Option<Vec<String>>)
    ensures
        r is None <==> closest(views(candidates@), goal@) is None,
        r is None <==> views(candidates@).contains(goal@),
        r matches Some(v) ==> closest(views(candidates@), goal@) == Some(views(v@)),
{
    let ghost all = views(candidates@);
    let mut out: Vec<String> = Vec::new();
    let mut least: usize = usize::MAX;
    let mut i: usize = 0;
    while i < candidates.len()
        invariant
            all == views(candidates@),
            all.len() == candidates@.len(),
            i <= candidates.len(),
            forall|k: int| 0 <= k < i ==> osa(#[trigger] all[k], goal@) > 0 && all[k] != goal@,
            i == 0 ==> out@.len() == 0,
            i > 0 ==> least as nat == least_distance(all.subrange(0, i as int), goal@),
            i > 0 ==> views(out@) == at_distance(all.subrange(0, i as int), goal@, least as nat),
        decreases candidates.len() - i,
    {
        let cand = &candidates[i];
        let dist = osa_distance(cand.as_str(), goal);
        let ghost pre = all.subrange(0, i as int);
        let ghost cur = all.subrange(0, i as int + 1);
        assert(cur.drop_last() == pre);
        assert(cur.last() == cand@);
        if dist == 0 {
            assert(has_exact(all, goal@) ) by {
                assert(osa(all[i as int], goal@) == 0);
            }
            assert(all[i as int] == goal@);
            return None;
        }
        if i == 0 || dist < least {
            proof {
                if i > 0 {
                    lemma_least_is_lower_bound(pre, goal@);
                    lemma_none_at_distance(pre, goal@, dist as nat);
                } else {
                    assert(pre.len() == 0);
                }
            }
            out = Vec::new();
            out.push(cand.clone());
            least = dist;
            assert(views(out@) =~= seq![cand@]);
            assert(at_distance(pre, goal@, dist as nat) == Seq::<Seq<char>>::empty());
            assert(least_distance(cur, goal@) == dist as nat);
            assert(at_distance(cur, goal@, dist as nat) == seq![cand@]);
        } else if dist == least {
            let ghost before = out@;
            out.push(cand.clone());
            assert(views(out@) =~= views(before).push(cand@));
            assert(least_distance(cur, goal@) == least as nat);
        } else {
            assert(least_distance(cur, goal@) == least as nat);
        }
        i = i + 1;
    }
    assert(all.subrange(0, i as int) == all);
    assert(!has_exact(all, goal@));
    assert(!all.contains(goal@));
    Some(out)
}

} // verus!

//! The confidence filter: keeps the candidates whose confidence is strictly
//! above a threshold, preserving their relative order.
use vstd::prelude::*;

use crate::decoder::Candidate;

verus! {

/// The subsequence of `s` whose confidence is strictly above `threshold`,
/// in the original order.
pub open spec fn spec_filter(s: Seq<Candidate>, threshold: i64) -> Seq<Candidate>
    decreases s.len(),
{
    if s.len() == 0 {
        Seq::empty()
    } else if s.last().confidence > threshold {
        spec_filter(s.drop_last(), threshold).push(s.last())
    } else {
        spec_filter(s.drop_last(), threshold)
    }
}

/// Everything the filter keeps is above the threshold.
pub proof fn lemma_filter_all_above(s: Seq<Candidate>, threshold: i64)
    ensures
        forall|k: int|
            0 <= k < spec_filter(s, threshold).len() ==> (#[trigger] spec_filter(s, threshold)[k]).confidence
                > threshold,
    decreases s.len(),
{
    if s.len() > 0 {
        lemma_filter_all_above(s.drop_last(), threshold);
        let f = spec_filter(s, threshold);
        let fp = spec_filter(s.drop_last(), threshold);
        assert forall|k: int| 0 <= k < f.len() implies (#[trigger] f[k]).confidence > threshold by {
            if s.last().confidence > threshold {
                assert(f == fp.push(s.last()));
                if k < fp.len() {
                    assert(f[k] == fp[k]);
                } else {
                    assert(f[k] == s.last());
                }
            } else {
                assert(f == fp);
            }
        }
    }
}

/// On a sequence that is entirely above the threshold, the filter keeps
/// everything, unchanged.
pub proof fn lemma_filter_of_passing(s: Seq<Candidate>, threshold: i64)
    requires
        forall|k: int| 0 <= k < s.len() ==> (#[trigger] s[k]).confidence > threshold,
    ensures
        spec_filter(s, threshold) == s,
    decreases s.len(),
{
    if s.len() == 0 {
        assert(spec_filter(s, threshold) =~= s);
    } else {
        lemma_filter_of_passing(s.drop_last(), threshold);
        assert(s[s.len() - 1].confidence > threshold);
        assert(spec_filter(s, threshold) =~= s);
    }
}

/// The filter is idempotent: filtering an already-filtered sequence with the
/// same threshold yields the same sequence.
pub proof fn lemma_filter_idempotent(s: Seq<Candidate>, threshold: i64)
    ensures
        spec_filter(spec_filter(s, threshold), threshold) == spec_filter(s, threshold),
{
    lemma_filter_all_above(s, threshold);
    lemma_filter_of_passing(spec_filter(s, threshold), threshold);
}

/// Keeps the candidates with confidence strictly above `threshold`,
/// preserving their order.
pub fn filter_candidates(cands: &Vec<Candidate>, threshold: i64) -> (kept: Vec<Candidate>)
    ensures
        kept@ == spec_filter(cands@, threshold),
{
    let n = cands.len();
    let mut kept: Vec<Candidate> = Vec::new();
    proof {
        assert(cands@.subrange(0, 0) =~= Seq::<Candidate>::empty());
    }
    let mut i: usize = 0;
    while i < n
        invariant
            n == cands@.len(),
            i <= n,
            kept@ == spec_filter(cands@.subrange(0, i as int), threshold),
        decreases n - i,
    {
        let c = cands[i];
        proof {
            assert(cands@.subrange(0, i as int + 1).drop_last() =~= cands@.subrange(0, i as int));
            assert(cands@.subrange(0, i as int + 1).last() == cands@[i as int]);
        }
        if c.confidence > threshold {
            kept.push(c);
        }
        i += 1;
    }
    proof {
        assert(cands@.subrange(0, n as int) =~= cands@);
    }
    kept
}

} // verus!

//! The non-maximum suppression engine: keeps a maximal subset of the
//! candidates such that no kept candidate overlaps an already-kept,
//! higher-priority candidate beyond the IoU threshold.
//!
//! Priority is confidence descending, ties broken by lower original index.
//! Suppression is global across classes by default; the `class_aware` flag
//! restricts it to candidates of the same class.
use vstd::prelude::*;

use crate::decoder::Candidate;
use crate::geometry::iou_exceeds;
use crate::geometry::iou_exceeds_check;
use crate::geometry::lemma_iou_exceeds_symmetric;
use crate::RATIO_LIMIT;

verus! {

/// Candidate `i` is preferred over candidate `j`: strictly higher
/// confidence, or equal confidence and lower original index. A strict total
/// order on distinct indices.
pub open spec fn prior_before(cands: Seq<Candidate>, i: int, j: int) -> bool {
    cands[i].confidence > cands[j].confidence || (cands[i].confidence == cands[j].confidence && i
        < j)
}

/// Candidate `a` suppresses candidate `b`: they overlap beyond the
/// threshold, and, under class-aware suppression, belong to the same class.
pub open spec fn suppresses(a: Candidate, b: Candidate, num: i64, den: i64, class_aware: bool) -> bool {
    (!class_aware || a.class_id == b.class_id) && iou_exceeds(a.rect, b.rect, num, den)
}

pub proof fn lemma_suppresses_symmetric(a: Candidate, b: Candidate, num: i64, den: i64, class_aware: bool)
    ensures
        suppresses(a, b, num, den, class_aware) == suppresses(b, a, num, den, class_aware),
{
    lemma_iou_exceeds_symmetric(a.rect, b.rect, num, den);
}

/// No kept candidate of higher priority suppresses candidate `i`.
pub open spec fn nms_admits(
    cands: Seq<Candidate>,
    num: i64,
    den: i64,
    class_aware: bool,
    r: Seq<usize>,
    i: int,
) -> bool {
    forall|k: int|
        0 <= k < r.len() && prior_before(cands, (#[trigger] r[k]) as int, i) ==> !suppresses(
            cands[r[k] as int],
            cands[i],
            num,
            den,
            class_aware,
        )
}

/// `r` is the result of greedy non-maximum suppression on `cands`:
/// its indices are in bounds and in priority order, and a candidate is kept
/// exactly when no kept candidate of higher priority suppresses it.
pub open spec fn is_nms_result(
    cands: Seq<Candidate>,
    num: i64,
    den: i64,
    class_aware: bool,
    r: Seq<usize>,
) -> bool {
    &&& forall|k: int| 0 <= k < r.len() ==> (#[trigger] r[k]) < cands.len()
    &&& forall|k1: int, k2: int|
        #![trigger r[k1], r[k2]]
        0 <= k1 < k2 < r.len() ==> prior_before(cands, r[k1] as int, r[k2] as int)
    &&& forall|i: usize|
        i < cands.len() ==> ((#[trigger] r.contains(i)) <==> nms_admits(
            cands,
            num,
            den,
            class_aware,
            r,
            i as int,
        ))
}

/// Under global suppression, the engine never keeps two boxes whose IoU
/// exceeds the threshold: boxes of positive area overlap at most num/den,
/// and degenerate boxes have IoU 0 by definition.
pub proof fn lemma_nms_no_overlapping_pair(
    cands: Seq<Candidate>,
    num: i64,
    den: i64,
    r: Seq<usize>,
    k1: int,
    k2: int,
)
    requires
        is_nms_result(cands, num, den, false, r),
        0 <= k1 < k2 < r.len(),
    ensures
        !iou_exceeds(cands[r[k1] as int].rect, cands[r[k2] as int].rect, num, den),
{
    let i = r[k2];
    assert(r.contains(i));
    assert(nms_admits(cands, num, den, false, r, i as int));
    assert(prior_before(cands, r[k1] as int, i as int));
    assert(!suppresses(cands[r[k1] as int], cands[i as int], num, den, false));
}

/// A single candidate is always kept.
pub proof fn lemma_nms_singleton(
    cands: Seq<Candidate>,
    num: i64,
    den: i64,
    class_aware: bool,
    r: Seq<usize>,
)
    requires
        cands.len() == 1,
        is_nms_result(cands, num, den, class_aware, r),
    ensures
        r == seq![0usize],
{
    assert(forall|k: int| 0 <= k < r.len() ==> (#[trigger] r[k]) == 0usize);
    if r.len() == 0 {
        assert(nms_admits(cands, num, den, class_aware, r, 0));
        assert(r.contains(0usize));
        assert(false);
    }
    if r.len() >= 2 {
        assert(prior_before(cands, r[0] as int, r[1] as int));
        assert(false);
    }
    assert(r =~= seq![0usize]);
}

/// Of two identical boxes of positive area (IoU 1, above any threshold
/// below 1), only the preferred one is kept: the one of higher confidence,
/// or on equal confidence the one of lower original index.
pub proof fn lemma_nms_identical_pair(
    cands: Seq<Candidate>,
    num: i64,
    den: i64,
    r: Seq<usize>,
)
    requires
        cands.len() == 2,
        cands[0].rect == cands[1].rect,
        crate::geometry::rect_area(cands[0].rect) > 0,
        0 <= num < den,
        is_nms_result(cands, num, den, false, r),
    ensures
        cands[0].confidence >= cands[1].confidence ==> r == seq![0usize],
        cands[1].confidence > cands[0].confidence ==> r == seq![1usize],
{
    let w: int = if cands[0].confidence >= cands[1].confidence {
        0
    } else {
        1
    };
    let l: int = 1 - w;
    assert(prior_before(cands, w, l));
    crate::geometry::lemma_iou_exceeds_self(cands[0].rect, num, den);
    assert(suppresses(cands[w], cands[l], num, den, false));
    // the winner is admitted by everything of higher priority, so kept
    assert(nms_admits(cands, num, den, false, r, w)) by {
        assert forall|k: int|
            0 <= k < r.len() && prior_before(cands, (r[k]) as int, w) implies !suppresses(
            cands[r[k] as int],
            cands[w],
            num,
            den,
            false,
        ) by {
            assert(r[k] == 0usize || r[k] == 1usize);
            assert(!prior_before(cands, w, w));
            assert(!prior_before(cands, l, w));
        }
    }
    assert(r.contains(w as usize));
    // the loser is suppressed by the kept winner, so not kept
    assert(!r.contains(l as usize)) by {
        if r.contains(l as usize) {
            assert(nms_admits(cands, num, den, false, r, l));
            let kw = choose|k: int| 0 <= k < r.len() && r[k] == w as usize;
            assert(prior_before(cands, (r[kw]) as int, l));
            assert(!suppresses(cands[r[kw] as int], cands[l], num, den, false));
        }
    }
    // so the result is exactly the winner
    let kw = choose|k: int| 0 <= k < r.len() && r[k] == w as usize;
    if r.len() >= 2 {
        assert(prior_before(cands, r[0] as int, r[1] as int));
        assert(r[0] != r[1]);
        assert(r[0] < cands.len() && r[1] < cands.len());
        assert(r[0] == l as usize || r[1] == l as usize);
        assert(r.contains(l as usize));
        assert(false);
    }
    assert(r.len() == 1 && r[0] == w as usize);
    if w == 0 {
        assert(r =~= seq![0usize]);
    } else {
        assert(r =~= seq![1usize]);
    }
}

/// The indices with priority before `i`.
spec fn higher_set(cands: Seq<Candidate>, i: int) -> Set<int> {
    Set::new(|j: int| 0 <= j < cands.len() && prior_before(cands, j, i))
}

/// The number of candidates with priority before `i`.
spec fn rank(cands: Seq<Candidate>, i: int) -> nat {
    higher_set(cands, i).len()
}

proof fn lemma_higher_set_finite(cands: Seq<Candidate>, i: int)
    ensures
        higher_set(cands, i).finite(),
{
    vstd::set_lib::lemma_int_range(0, cands.len() as int);
    assert(higher_set(cands, i).subset_of(vstd::set_lib::set_int_range(0, cands.len() as int)));
    vstd::set_lib::lemma_len_subset(
        higher_set(cands, i),
        vstd::set_lib::set_int_range(0, cands.len() as int),
    );
}

proof fn lemma_rank_strictly_decreases(cands: Seq<Candidate>, j: int, i: int)
    requires
        0 <= j < cands.len(),
        0 <= i < cands.len(),
        prior_before(cands, j, i),
    ensures
        rank(cands, j) < rank(cands, i),
{
    let hj = higher_set(cands, j);
    let hi = higher_set(cands, i);
    lemma_higher_set_finite(cands, j);
    lemma_higher_set_finite(cands, i);
    // whatever is before j is before i, and j is before i but not before itself
    assert(hj.subset_of(hi.remove(j)));
    assert(hi.contains(j));
    assert(hi.remove(j).len() == hi.len() - 1);
    vstd::set_lib::lemma_len_subset(hj, hi.remove(j));
}

proof fn lemma_nms_membership_agrees(
    cands: Seq<Candidate>,
    num: i64,
    den: i64,
    class_aware: bool,
    r1: Seq<usize>,
    r2: Seq<usize>,
    i: usize,
)
    requires
        is_nms_result(cands, num, den, class_aware, r1),
        is_nms_result(cands, num, den, class_aware, r2),
        i < cands.len(),
    ensures
        r1.contains(i) == r2.contains(i),
    decreases rank(cands, i as int),
{
    let a1 = nms_admits(cands, num, den, class_aware, r1, i as int);
    let a2 = nms_admits(cands, num, den, class_aware, r2, i as int);
    assert(r1.contains(i) <==> a1);
    assert(r2.contains(i) <==> a2);
    if !a1 && a2 {
        // some kept entry of r1 with priority before i suppresses i; by
        // induction it is kept in r2 as well, so r2 does not admit i either
        let k = choose|k: int|
            0 <= k < r1.len() && prior_before(cands, (r1[k]) as int, i as int) && suppresses(
                cands[r1[k] as int],
                cands[i as int],
                num,
                den,
                class_aware,
            );
        let j = r1[k];
        assert(r1.contains(j));
        lemma_rank_strictly_decreases(cands, j as int, i as int);
        lemma_nms_membership_agrees(cands, num, den, class_aware, r1, r2, j);
        assert(r2.contains(j));
        let k2 = choose|k2: int| 0 <= k2 < r2.len() && r2[k2] == j;
        assert(!suppresses(cands[r2[k2] as int], cands[i as int], num, den, class_aware));
        assert(false);
    }
    if a1 && !a2 {
        let k = choose|k: int|
            0 <= k < r2.len() && prior_before(cands, (r2[k]) as int, i as int) && suppresses(
                cands[r2[k] as int],
                cands[i as int],
                num,
                den,
                class_aware,
            );
        let j = r2[k];
        assert(r2.contains(j));
        lemma_rank_strictly_decreases(cands, j as int, i as int);
        lemma_nms_membership_agrees(cands, num, den, class_aware, r1, r2, j);
        assert(r1.contains(j));
        let k1 = choose|k1: int| 0 <= k1 < r1.len() && r1[k1] == j;
        assert(!suppresses(cands[r1[k1] as int], cands[i as int], num, den, class_aware));
        assert(false);
    }
}

proof fn lemma_sorted_same_membership_equal(cands: Seq<Candidate>, r1: Seq<usize>, r2: Seq<usize>)
    requires
        forall|k1: int, k2: int|
            #![trigger r1[k1], r1[k2]]
            0 <= k1 < k2 < r1.len() ==> prior_before(cands, r1[k1] as int, r1[k2] as int),
        forall|k1: int, k2: int|
            #![trigger r2[k1], r2[k2]]
            0 <= k1 < k2 < r2.len() ==> prior_before(cands, r2[k1] as int, r2[k2] as int),
        forall|x: usize| #[trigger] r1.contains(x) == r2.contains(x),
    ensures
        r1 =~= r2,
    decreases r1.len(),
{
    if r1.len() == 0 {
        if r2.len() > 0 {
            assert(r2.contains(r2[0]));
            assert(r1.contains(r2[0]));
            assert(false);
        }
    } else {
        if r2.len() == 0 {
            assert(r1.contains(r1[0]));
            assert(r2.contains(r1[0]));
            assert(false);
        }
        // the heads agree: each head is the unique most-preferred element
        assert(r1.contains(r1[0]));
        assert(r2.contains(r1[0]));
        let k2 = choose|k: int| 0 <= k < r2.len() && r2[k] == r1[0];
        assert(r2.contains(r2[0]));
        assert(r1.contains(r2[0]));
        let k1 = choose|k: int| 0 <= k < r1.len() && r1[k] == r2[0];
        if k2 > 0 {
            assert(prior_before(cands, r2[0] as int, r1[0] as int));
            if k1 > 0 {
                assert(prior_before(cands, r1[0] as int, r2[0] as int));
                assert(false);
            } else {
                assert(r1[0] == r2[0]);
                assert(false);
            }
        }
        assert(r1[0] == r2[0]);
        // the tails satisfy the same assumptions
        let t1 = r1.subrange(1, r1.len() as int);
        let t2 = r2.subrange(1, r2.len() as int);
        assert forall|x: usize| #[trigger] t1.contains(x) == t2.contains(x) by {
            assert(t1.contains(x) <==> (r1.contains(x) && x != r1[0])) by {
                if t1.contains(x) {
                    let k = choose|k: int| 0 <= k < t1.len() && t1[k] == x;
                    assert(r1[k + 1] == x);
                    assert(r1.contains(x));
                    assert(prior_before(cands, r1[0] as int, r1[k + 1] as int));
                }
                if r1.contains(x) && x != r1[0] {
                    let k = choose|k: int| 0 <= k < r1.len() && r1[k] == x;
                    assert(t1[k - 1] == x);
                    assert(t1.contains(x));
                }
            }
            assert(t2.contains(x) <==> (r2.contains(x) && x != r2[0])) by {
                if t2.contains(x) {
                    let k = choose|k: int| 0 <= k < t2.len() && t2[k] == x;
                    assert(r2[k + 1] == x);
                    assert(r2.contains(x));
                    assert(prior_before(cands, r2[0] as int, r2[k + 1] as int));
                }
                if r2.contains(x) && x != r2[0] {
                    let k = choose|k: int| 0 <= k < r2.len() && r2[k] == x;
                    assert(t2[k - 1] == x);
                    assert(t2.contains(x));
                }
            }
        }
        lemma_sorted_same_membership_equal(cands, t1, t2);
        assert(r1.len() == r2.len());
        assert forall|k: int| 0 <= k < r1.len() implies r1[k] == r2[k] by {
            if k > 0 {
                assert(t1[k - 1] == r1[k]);
                assert(t2[k - 1] == r2[k]);
                assert(t1 =~= t2);
            }
        }
        assert(r1 =~= r2);
    }
}

/// The suppression contract pins its result: two sequences that are both
/// results of the engine on the same candidates and thresholds are equal.
pub proof fn lemma_nms_result_unique(
    cands: Seq<Candidate>,
    num: i64,
    den: i64,
    class_aware: bool,
    r1: Seq<usize>,
    r2: Seq<usize>,
)
    requires
        is_nms_result(cands, num, den, class_aware, r1),
        is_nms_result(cands, num, den, class_aware, r2),
    ensures
        r1 == r2,
{
    assert forall|x: usize| #[trigger] r1.contains(x) == r2.contains(x) by {
        if x < cands.len() {
            lemma_nms_membership_agrees(cands, num, den, class_aware, r1, r2, x);
        } else {
            if r1.contains(x) {
                let k = choose|k: int| 0 <= k < r1.len() && r1[k] == x;
                assert(r1[k] < cands.len());
            }
            if r2.contains(x) {
                let k = choose|k: int| 0 <= k < r2.len() && r2[k] == x;
                assert(r2[k] < cands.len());
            }
        }
    }
    lemma_sorted_same_membership_equal(cands, r1, r2);
    assert(r1 =~= r2);
}

fn comes_before(cands: &Vec<Candidate>, a: usize, b: usize) -> (r: bool)
    requires
        a < cands@.len(),
        b < cands@.len(),
    ensures
        r == prior_before(cands@, a as int, b as int),
{
    let ca = cands[a];
    let cb = cands[b];
    ca.confidence > cb.confidence || (ca.confidence == cb.confidence && a < b)
}

fn suppresses_check(a: Candidate, b: Candidate, num: i64, den: i64, class_aware: bool) -> (r: bool)
    requires
        0 <= num <= RATIO_LIMIT,
        0 < den <= RATIO_LIMIT,
    ensures
        r == suppresses(a, b, num, den, class_aware),
{
    (!class_aware || a.class_id == b.class_id) && iou_exceeds_check(&a.rect, &b.rect, num, den)
}

fn find_insert_pos(cands: &Vec<Candidate>, ord: &Vec<usize>, x: usize) -> (p: usize)
    requires
        x < cands@.len(),
        forall|k: int| 0 <= k < ord@.len() ==> (#[trigger] ord@[k]) < cands@.len(),
    ensures
        p <= ord@.len(),
        forall|k: int| 0 <= k < p ==> prior_before(cands@, (#[trigger] ord@[k]) as int, x as int),
        p < ord@.len() ==> !prior_before(cands@, ord@[p as int] as int, x as int),
{
    let n = ord.len();
    let mut p: usize = 0;
    while p < n
        invariant
            n == ord@.len(),
            p <= n,
            x < cands@.len(),
            forall|k: int| 0 <= k < ord@.len() ==> (#[trigger] ord@[k]) < cands@.len(),
            forall|k: int|
                0 <= k < p ==> prior_before(cands@, (#[trigger] ord@[k]) as int, x as int),
        decreases n - p,
    {
        let o = ord[p];
        if !comes_before(cands, o, x) {
            return p;
        }
        p += 1;
    }
    p
}

/// The candidate indices 0..len, ordered by priority: confidence
/// descending, ties by original index ascending.
fn sorted_order(cands: &Vec<Candidate>) -> (ord: Vec<usize>)
    ensures
        ord@.len() == cands@.len(),
        forall|k: int| 0 <= k < ord@.len() ==> (#[trigger] ord@[k]) < cands@.len(),
        forall|k1: int, k2: int|
            #![trigger ord@[k1], ord@[k2]]
            0 <= k1 < k2 < ord@.len() ==> prior_before(cands@, ord@[k1] as int, ord@[k2] as int),
        forall|i: usize| i < cands@.len() ==> #[trigger] ord@.contains(i),
{
    let n = cands.len();
    let mut ord: Vec<usize> = Vec::new();
    let mut i: usize = 0;
    while i < n
        invariant
            n == cands@.len(),
            i <= n,
            ord@.len() == i,
            forall|k: int| 0 <= k < ord@.len() ==> (#[trigger] ord@[k]) < i,
            forall|k1: int, k2: int|
                #![trigger ord@[k1], ord@[k2]]
                0 <= k1 < k2 < ord@.len() ==> prior_before(cands@, ord@[k1] as int, ord@[k2] as int),
            forall|j: usize| j < i ==> #[trigger] ord@.contains(j),
        decreases n - i,
    {
        let p = find_insert_pos(cands, &ord, i);
        let ghost before = ord@;
        ord.insert(p, i);
        proof {
            let x = i as usize;
            let pi = p as int;
            assert(ord@ == before.insert(pi, x));
            assert(forall|k: int| 0 <= k < pi ==> #[trigger] ord@[k] == before[k]);
            assert(ord@[pi] == x);
            assert(forall|k: int| pi < k < ord@.len() ==> #[trigger] ord@[k] == before[k - 1]);
            if pi < before.len() {
                // the position found is the first whose entry does not come
                // before x; by totality x comes before it
                assert(before[pi] < i);
                assert(prior_before(cands@, x as int, before[pi] as int));
            }
            assert forall|k1: int, k2: int|
                #![trigger ord@[k1], ord@[k2]]
                0 <= k1 < k2 < ord@.len() implies prior_before(
                cands@,
                ord@[k1] as int,
                ord@[k2] as int,
            ) by {
                if k2 < pi {
                    assert(prior_before(cands@, before[k1] as int, before[k2] as int));
                } else if k1 < pi && k2 == pi {
                    assert(prior_before(cands@, before[k1] as int, x as int));
                } else if k1 < pi && k2 > pi {
                    assert(prior_before(cands@, before[k1] as int, before[k2 - 1] as int));
                } else if k1 == pi {
                    // x before before[pi], and before[pi] before anything later
                    assert(prior_before(cands@, x as int, before[pi] as int));
                    if k2 - 1 > pi {
                        assert(prior_before(cands@, before[pi] as int, before[k2 - 1] as int));
                    }
                } else {
                    assert(prior_before(cands@, before[k1 - 1] as int, before[k2 - 1] as int));
                }
            }
            assert forall|j: usize| j < i + 1 implies #[trigger] ord@.contains(j) by {
                if j == i {
                    assert(ord@[pi] == j);
                } else {
                    assert(before.contains(j));
                    let k = choose|k: int| 0 <= k < before.len() && before[k] == j;
                    if k < pi {
                        assert(ord@[k] == j);
                    } else {
                        assert(ord@[k + 1] == j);
                    }
                }
            }
        }
        i += 1;
    }
    ord
}

fn suppressed_by_any(
    cands: &Vec<Candidate>,
    kept: &Vec<usize>,
    i: usize,
    num: i64,
    den: i64,
    class_aware: bool,
) -> (s: bool)
    requires
        i < cands@.len(),
        forall|m: int| 0 <= m < kept@.len() ==> (#[trigger] kept@[m]) < cands@.len(),
        0 <= num <= RATIO_LIMIT,
        0 < den <= RATIO_LIMIT,
    ensures
        s == exists|m: int|
            0 <= m < kept@.len() && suppresses(
                cands@[(#[trigger] kept@[m]) as int],
                cands@[i as int],
                num,
                den,
                class_aware,
            ),
{
    let n = kept.len();
    let mut s = false;
    let mut m: usize = 0;
    while m < n
        invariant
            n == kept@.len(),
            m <= n,
            i < cands@.len(),
            forall|mm: int| 0 <= mm < kept@.len() ==> (#[trigger] kept@[mm]) < cands@.len(),
            0 <= num <= RATIO_LIMIT,
            0 < den <= RATIO_LIMIT,
            s == exists|mm: int|
                0 <= mm < m && suppresses(
                    cands@[(#[trigger] kept@[mm]) as int],
                    cands@[i as int],
                    num,
                    den,
                    class_aware,
                ),
        decreases n - m,
    {
        let kc = cands[kept[m]];
        let cc = cands[i];
        if suppresses_check(kc, cc, num, den, class_aware) {
            s = true;
            proof {
                assert(suppresses(
                    cands@[kept@[m as int] as int],
                    cands@[i as int],
                    num,
                    den,
                    class_aware,
                ));
            }
        }
        m += 1;
    }
    s
}

/// Greedy non-maximum suppression. Returns the indices of the kept
/// candidates, into `cands`, in priority order (confidence descending, ties
/// by original index): a candidate is kept exactly when no kept candidate of
/// higher priority suppresses it. No two kept candidates overlap beyond the
/// threshold (under class-aware suppression: no two of the same class).
pub fn nms_indices(cands: &Vec<Candidate>, num: i64, den: i64, class_aware: bool) -> (kept: Vec<
    usize,
>)
    requires
        0 <= num <= RATIO_LIMIT,
        0 < den <= RATIO_LIMIT,
    ensures
        is_nms_result(cands@, num, den, class_aware, kept@),
        forall|k1: int, k2: int|
            #![trigger kept@[k1], kept@[k2]]
            0 <= k1 < kept@.len() && 0 <= k2 < kept@.len() && k1 != k2 ==> !suppresses(
                cands@[kept@[k1] as int],
                cands@[kept@[k2] as int],
                num,
                den,
                class_aware,
            ),
{
    let ghost c = cands@;
    let ord = sorted_order(cands);
    let n = cands.len();
    let mut kept: Vec<usize> = Vec::new();
    let mut k: usize = 0;
    while k < n
        invariant
            c == cands@,
            n == c.len(),
            ord@.len() == n,
            forall|j: int| 0 <= j < n ==> (#[trigger] ord@[j]) < n,
            forall|j1: int, j2: int|
                #![trigger ord@[j1], ord@[j2]]
                0 <= j1 < j2 < n ==> prior_before(c, ord@[j1] as int, ord@[j2] as int),
            forall|i: usize| i < n ==> #[trigger] ord@.contains(i),
            0 <= num <= RATIO_LIMIT,
            0 < den <= RATIO_LIMIT,
            k <= n,
            forall|m: int| 0 <= m < kept@.len() ==> (#[trigger] kept@[m]) < n,
            forall|m1: int, m2: int|
                #![trigger kept@[m1], kept@[m2]]
                0 <= m1 < m2 < kept@.len() ==> prior_before(c, kept@[m1] as int, kept@[m2] as int),
            forall|m: int, j: int|
                #![trigger kept@[m], ord@[j]]
                0 <= m < kept@.len() && k <= j < n ==> prior_before(
                    c,
                    kept@[m] as int,
                    ord@[j] as int,
                ),
            forall|m1: int, m2: int|
                #![trigger kept@[m1], kept@[m2]]
                0 <= m1 < kept@.len() && 0 <= m2 < kept@.len() && m1 != m2 ==> !suppresses(
                    c[kept@[m1] as int],
                    c[kept@[m2] as int],
                    num,
                    den,
                    class_aware,
                ),
            forall|j: int|
                0 <= j < k ==> ((#[trigger] kept@.contains(ord@[j])) <==> nms_admits(
                    c,
                    num,
                    den,
                    class_aware,
                    kept@,
                    ord@[j] as int,
                )),
        decreases n - k,
    {
        let x = ord[k];
        let sup = suppressed_by_any(cands, &kept, x, num, den, class_aware);
        let ghost oldkept = kept@;
        let ghost ki = k as int;
        if !sup {
            kept.push(x);
        }
        proof {
            // an already-kept entry is never the current one: every kept
            // entry has priority before ord[k], and priority is irreflexive
            assert forall|m: int| 0 <= m < oldkept.len() implies oldkept[m] != x by {
                assert(prior_before(c, oldkept[m] as int, ord@[ki] as int));
            }
            if !sup {
                let newkept = oldkept.push(x);
                assert(kept@ == newkept);
                assert(forall|m: int|
                    0 <= m < oldkept.len() ==> #[trigger] newkept[m] == oldkept[m]);
                assert(newkept[oldkept.len() as int] == x);
                // priority before the remaining, unprocessed entries
                assert forall|m: int, j: int|
                    #![trigger newkept[m], ord@[j]]
                    0 <= m < newkept.len() && ki + 1 <= j < n implies prior_before(
                    c,
                    newkept[m] as int,
                    ord@[j] as int,
                ) by {
                    if m < oldkept.len() {
                        assert(prior_before(c, oldkept[m] as int, ord@[j] as int));
                    } else {
                        assert(prior_before(c, ord@[ki] as int, ord@[j] as int));
                    }
                }
                // pairwise: nothing kept suppresses anything kept
                assert forall|m1: int, m2: int|
                    #![trigger newkept[m1], newkept[m2]]
                    0 <= m1 < newkept.len() && 0 <= m2 < newkept.len() && m1 != m2 implies
                    !suppresses(
                    c[newkept[m1] as int],
                    c[newkept[m2] as int],
                    num,
                    den,
                    class_aware,
                ) by {
                    if m1 < oldkept.len() && m2 < oldkept.len() {
                    } else if m1 < oldkept.len() && m2 == oldkept.len() {
                        assert(!suppresses(
                            c[oldkept[m1] as int],
                            c[x as int],
                            num,
                            den,
                            class_aware,
                        ));
                    } else if m1 == oldkept.len() && m2 < oldkept.len() {
                        assert(!suppresses(
                            c[oldkept[m2] as int],
                            c[x as int],
                            num,
                            den,
                            class_aware,
                        ));
                        lemma_suppresses_symmetric(
                            c[oldkept[m2] as int],
                            c[x as int],
                            num,
                            den,
                            class_aware,
                        );
                    }
                }
                // the decided prefix keeps its biconditional, and the
                // current entry is kept and admitted
                assert forall|j: int| 0 <= j < ki + 1 implies ((#[trigger] kept@.contains(
                    ord@[j],
                )) <==> nms_admits(c, num, den, class_aware, kept@, ord@[j] as int)) by {
                    if j < ki {
                        assert(ord@[j] != x);
                        assert(newkept.contains(ord@[j]) == oldkept.contains(ord@[j])) by {
                            if oldkept.contains(ord@[j]) {
                                let m = choose|m: int|
                                    0 <= m < oldkept.len() && oldkept[m] == ord@[j];
                                assert(newkept[m] == ord@[j]);
                            }
                            if newkept.contains(ord@[j]) {
                                let m = choose|m: int|
                                    0 <= m < newkept.len() && newkept[m] == ord@[j];
                                if m < oldkept.len() {
                                    assert(oldkept[m] == ord@[j]);
                                } else {
                                    assert(newkept[m] == x);
                                }
                            }
                        };
                        // the pushed entry has lower priority than ord[j],
                        // so it changes nothing about admission
                        assert(prior_before(c, ord@[j] as int, x as int));
                        assert(!prior_before(c, x as int, ord@[j] as int));
                        if nms_admits(c, num, den, class_aware, oldkept, ord@[j] as int) {
                            assert forall|m: int|
                                0 <= m < newkept.len() && prior_before(
                                    c,
                                    (newkept[m]) as int,
                                    ord@[j] as int,
                                ) implies !suppresses(
                                c[newkept[m] as int],
                                c[ord@[j] as int],
                                num,
                                den,
                                class_aware,
                            ) by {
                                if m < oldkept.len() {
                                    assert(newkept[m] == oldkept[m]);
                                } else {
                                    assert(newkept[m] == x);
                                }
                            }
                        } else {
                            let bad = choose|m: int|
                                0 <= m < oldkept.len() && prior_before(
                                    c,
                                    (oldkept[m]) as int,
                                    ord@[j] as int,
                                ) && suppresses(
                                    c[oldkept[m] as int],
                                    c[ord@[j] as int],
                                    num,
                                    den,
                                    class_aware,
                                );
                            assert(newkept[bad] == oldkept[bad]);
                            assert(!nms_admits(c, num, den, class_aware, newkept, ord@[j] as int));
                        }
                    } else {
                        // j == ki: kept, and admitted by everything
                        assert(newkept[oldkept.len() as int] == ord@[j]);
                        assert(newkept.contains(ord@[j]));
                        assert forall|m: int|
                            0 <= m < newkept.len() && prior_before(
                                c,
                                (newkept[m]) as int,
                                ord@[j] as int,
                            ) implies !suppresses(
                            c[newkept[m] as int],
                            c[ord@[j] as int],
                            num,
                            den,
                            class_aware,
                        ) by {
                            if m < oldkept.len() {
                                assert(newkept[m] == oldkept[m]);
                                assert(!suppresses(
                                    c[oldkept[m] as int],
                                    c[x as int],
                                    num,
                                    den,
                                    class_aware,
                                ));
                            } else {
                                assert(newkept[m] == x);
                                assert(!prior_before(c, x as int, x as int));
                            }
                        }
                    }
                }
            } else {
                // suppressed: kept is unchanged; the current entry is not
                // kept, and some kept entry of higher priority suppresses it
                let bad = choose|m: int|
                    0 <= m < oldkept.len() && suppresses(
                        c[(oldkept[m]) as int],
                        c[x as int],
                        num,
                        den,
                        class_aware,
                    );
                assert forall|j: int| 0 <= j < ki + 1 implies ((#[trigger] kept@.contains(
                    ord@[j],
                )) <==> nms_admits(c, num, den, class_aware, kept@, ord@[j] as int)) by {
                    if j == ki {
                        assert(!kept@.contains(x)) by {
                            if kept@.contains(x) {
                                let m = choose|m: int|
                                    0 <= m < kept@.len() && kept@[m] == x;
                                assert(prior_before(c, kept@[m] as int, ord@[ki] as int));
                            }
                        }
                        assert(prior_before(c, oldkept[bad] as int, x as int));
                        assert(!nms_admits(c, num, den, class_aware, kept@, ord@[j] as int));
                    }
                }
            }
        }
        k += 1;
    }
    proof {
        assert forall|i: usize| i < n implies ((#[trigger] kept@.contains(i)) <==> nms_admits(
            c,
            num,
            den,
            class_aware,
            kept@,
            i as int,
        )) by {
            assert(ord@.contains(i));
            let j = choose|j: int| 0 <= j < ord@.len() && ord@[j] == i;
            assert(kept@.contains(ord@[j]) <==> nms_admits(
                c,
                num,
                den,
                class_aware,
                kept@,
                ord@[j] as int,
            ));
        }
    }
    kept
}

} // verus!

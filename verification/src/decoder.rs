//! The detection decoder: turns each tensor row into one candidate
//! detection — argmax over the class-score columns for class and confidence,
//! and scaling of the normalized center/size by the source frame's
//! dimensions (truncation toward zero) for the pixel box.
//!
//! Decoding is total: every row yields a candidate, regardless of its
//! confidence. Thresholding is a separate stage.
use vstd::prelude::*;

use crate::geometry::Rect;
use crate::tensor::RawTensor;
use crate::CELL_LIMIT;
use crate::DIM_LIMIT;
use crate::FIXED_ONE;

verus! {

/// One decoded detection: class, fixed-point confidence, and a pixel box.
#[derive(Clone, Copy, PartialEq, Eq, Structural, Debug)]
pub struct Candidate {
    pub class_id: usize,
    pub confidence: i64,
    pub rect: Rect,
}

/// The class-score columns of a row (everything past the first five cells).
pub open spec fn class_scores(row: Seq<i64>) -> Seq<i64> {
    row.skip(5)
}

/// `k` is the position of the greatest value of `s`, taking the first
/// position on ties.
pub open spec fn is_first_max(s: Seq<i64>, k: int) -> bool {
    &&& 0 <= k < s.len()
    &&& forall|j: int| 0 <= j < s.len() ==> #[trigger] s[j] <= s[k]
    &&& forall|j: int| 0 <= j < k ==> #[trigger] s[j] < s[k]
}

/// The position of the greatest value of `s`, first position on ties.
pub open spec fn first_max_index(s: Seq<i64>) -> int
    decreases s.len(),
{
    if s.len() <= 1 {
        0
    } else {
        let r = first_max_index(s.drop_last());
        if s.last() > s[r] {
            s.len() - 1
        } else {
            r
        }
    }
}

pub proof fn lemma_first_max_index(s: Seq<i64>)
    requires
        s.len() > 0,
    ensures
        is_first_max(s, first_max_index(s)),
    decreases s.len(),
{
    if s.len() == 1 {
        assert(is_first_max(s, 0));
    } else {
        let p = s.drop_last();
        lemma_first_max_index(p);
        let r = first_max_index(p);
        assert(forall|j: int| 0 <= j < p.len() ==> #[trigger] s[j] == p[j]);
        if s.last() > s[r] {
            assert(is_first_max(s, s.len() - 1));
        } else {
            assert(is_first_max(s, r));
        }
    }
}

pub proof fn lemma_first_max_unique(s: Seq<i64>, k1: int, k2: int)
    requires
        is_first_max(s, k1),
        is_first_max(s, k2),
    ensures
        k1 == k2,
{
    if k1 < k2 {
        assert(s[k1] < s[k2]);
        assert(s[k2] <= s[k1]);
    }
    if k2 < k1 {
        assert(s[k2] < s[k1]);
        assert(s[k1] <= s[k2]);
    }
}

/// Fixed-point scaling with truncation toward zero: (v * d) / FIXED_ONE.
pub open spec fn scaled(v: int, d: int) -> int {
    (v * d) / (FIXED_ONE as int)
}

/// The pixel box of one row: center/size columns scaled by the frame's
/// dimensions, then converted to a left/top corner.
pub open spec fn spec_row_rect(row: Seq<i64>, fw: int, fh: int) -> Rect {
    let cx = scaled(row[0] as int, fw);
    let cy = scaled(row[1] as int, fh);
    let w = scaled(row[2] as int, fw);
    let h = scaled(row[3] as int, fh);
    Rect {
        left: (cx - w / 2) as i32,
        top: (cy - h / 2) as i32,
        width: w as i32,
        height: h as i32,
    }
}

/// The candidate decoded from one row.
pub open spec fn spec_row_candidate(row: Seq<i64>, fw: int, fh: int) -> Candidate {
    let scores = class_scores(row);
    let k = first_max_index(scores);
    Candidate {
        class_id: k as usize,
        confidence: scores[k],
        rect: spec_row_rect(row, fw, fh),
    }
}

/// The candidates decoded from one tensor, one per row, in row order.
pub open spec fn spec_decode_rows(rows: Seq<Seq<i64>>, fw: int, fh: int) -> Seq<Candidate> {
    Seq::new(rows.len(), |i: int| spec_row_candidate(rows[i], fw, fh))
}

/// The flat candidate sequence decoded from several tensors, in tensor
/// order then row order.
pub open spec fn spec_decode_all(tensors: Seq<Seq<Seq<i64>>>, fw: int, fh: int) -> Seq<Candidate>
    decreases tensors.len(),
{
    if tensors.len() == 0 {
        Seq::empty()
    } else {
        spec_decode_all(tensors.drop_last(), fw, fh) + spec_decode_rows(tensors.last(), fw, fh)
    }
}

/// The views of a list of tensors.
pub open spec fn tensor_views(ts: Seq<RawTensor>) -> Seq<Seq<Seq<i64>>> {
    ts.map_values(|t: RawTensor| t@)
}

/// A row with at least one class-score column decodes to a candidate whose
/// class is the position of the row's greatest class score (first position
/// on ties) and whose confidence is that score.
pub proof fn lemma_row_candidate_argmax(row: Seq<i64>, fw: int, fh: int)
    requires
        row.len() >= 6,
        row.len() - 5 <= usize::MAX,
    ensures
        is_first_max(class_scores(row), spec_row_candidate(row, fw, fh).class_id as int),
        spec_row_candidate(row, fw, fh).confidence == class_scores(row)[spec_row_candidate(
            row,
            fw,
            fh,
        ).class_id as int],
{
    lemma_first_max_index(class_scores(row));
}

/// Every candidate the decoder produces comes from some row of some input
/// tensor, decoded by `spec_row_candidate`.
pub proof fn lemma_decode_all_element(tensors: Seq<Seq<Seq<i64>>>, fw: int, fh: int, i: int)
    requires
        0 <= i < spec_decode_all(tensors, fw, fh).len(),
    ensures
        exists|t: int, r: int|
            0 <= t < tensors.len() && 0 <= r < (#[trigger] tensors[t]).len() && spec_decode_all(
                tensors,
                fw,
                fh,
            )[i] == spec_row_candidate(#[trigger] tensors[t][r], fw, fh),
    decreases tensors.len(),
{
    let all = spec_decode_all(tensors, fw, fh);
    if tensors.len() > 0 {
        let pre = spec_decode_all(tensors.drop_last(), fw, fh);
        let rows = spec_decode_rows(tensors.last(), fw, fh);
        if i < pre.len() {
            lemma_decode_all_element(tensors.drop_last(), fw, fh, i);
            let (t, r): (int, int) = choose|t: int, r: int|
                0 <= t < tensors.drop_last().len() && 0 <= r < (#[trigger] tensors.drop_last()[t]).len()
                    && pre[i] == spec_row_candidate(#[trigger] tensors.drop_last()[t][r], fw, fh);
            assert(all[i] == pre[i]);
            assert(tensors[t] == tensors.drop_last()[t]);
            assert(0 <= t < tensors.len() && 0 <= r < tensors[t].len() && all[i]
                == spec_row_candidate(tensors[t][r], fw, fh));
        } else {
            let t = tensors.len() - 1;
            let r = i - pre.len();
            assert(all[i] == rows[r]);
            assert(0 <= t < tensors.len() && 0 <= r < tensors[t].len() && all[i]
                == spec_row_candidate(tensors[t][r], fw, fh));
        }
    }
}

fn scale_cell(v: i64, d: i64) -> (r: i64)
    requires
        0 <= v <= CELL_LIMIT,
        0 <= d <= DIM_LIMIT,
    ensures
        r == scaled(v as int, d as int),
        0 <= r <= CELL_LIMIT,
{
    proof {
        assert((v as int) * (d as int) <= 100_000_000_000_000 && 0 <= (v as int) * (d as int))
            by (nonlinear_arith)
            requires
                0 <= v <= 100_000_000,
                0 <= d <= 1_000_000,
        ;
    }
    let p: u64 = (v as u64) * (d as u64);
    let q: u64 = p / 1_000_000u64;
    proof {
        assert(p / 1_000_000 <= 100_000_000) by (nonlinear_arith)
            requires
                0 <= p <= 100_000_000_000_000,
        ;
    }
    q as i64
}

fn decode_row(t: &RawTensor, i: usize, fw: i64, fh: i64) -> (c: Candidate)
    requires
        t.wf(),
        i < t@.len(),
        0 <= fw <= DIM_LIMIT,
        0 <= fh <= DIM_LIMIT,
    ensures
        c == spec_row_candidate(t@[i as int], fw as int, fh as int),
{
    let ghost row = t@[i as int];
    let cols = t.num_cols();
    assert(row.len() == cols);
    let mut best_col: usize = 5;
    let mut best: i64 = t.at(i, 5);
    let mut j: usize = 6;
    while j < cols
        invariant
            t.wf(),
            i < t@.len(),
            row == t@[i as int],
            row.len() == cols,
            cols >= 6,
            5 <= best_col < j,
            6 <= j <= cols,
            best == row[best_col as int],
            forall|m: int| 5 <= m < j ==> #[trigger] row[m] <= best,
            forall|m: int| 5 <= m < best_col ==> #[trigger] row[m] < best,
        decreases cols - j,
    {
        let v = t.at(i, j);
        if v > best {
            best = v;
            best_col = j;
        }
        j += 1;
    }
    let ghost scores = class_scores(row);
    proof {
        assert(forall|x: int| 0 <= x < scores.len() ==> #[trigger] scores[x] == row[x + 5]);
        assert(is_first_max(scores, best_col as int - 5));
        lemma_first_max_index(scores);
        lemma_first_max_unique(scores, best_col as int - 5, first_max_index(scores));
    }
    let cx = scale_cell(t.at(i, 0), fw);
    let cy = scale_cell(t.at(i, 1), fh);
    let w = scale_cell(t.at(i, 2), fw);
    let h = scale_cell(t.at(i, 3), fh);
    let half_w = (w as u64 / 2) as i64;
    let half_h = (h as u64 / 2) as i64;
    let rect = Rect {
        left: (cx - half_w) as i32,
        top: (cy - half_h) as i32,
        width: w as i32,
        height: h as i32,
    };
    let c = Candidate { class_id: best_col - 5, confidence: best, rect };
    proof {
        assert(c == spec_row_candidate(row, fw as int, fh as int));
    }
    c
}

/// Decodes every row of one tensor. Total: one candidate per row, no
/// filtering; a tensor with zero rows yields zero candidates.
pub fn decode_tensor(t: &RawTensor, frame_w: i64, frame_h: i64) -> (cands: Vec<Candidate>)
    requires
        t.wf(),
        0 <= frame_w <= DIM_LIMIT,
        0 <= frame_h <= DIM_LIMIT,
    ensures
        cands@ == spec_decode_rows(t@, frame_w as int, frame_h as int),
        cands@.len() == t@.len(),
        t@.len() == 0 ==> cands@.len() == 0,
        forall|i: int|
            0 <= i < cands@.len() ==> is_first_max(
                class_scores(t@[i]),
                #[trigger] cands@[i].class_id as int,
            ) && cands@[i].confidence == class_scores(t@[i])[cands@[i].class_id as int],
{
    let n = t.num_rows();
    let mut cands: Vec<Candidate> = Vec::new();
    let mut i: usize = 0;
    while i < n
        invariant
            t.wf(),
            0 <= frame_w <= DIM_LIMIT,
            0 <= frame_h <= DIM_LIMIT,
            n == t@.len(),
            i <= n,
            cands@.len() == i,
            forall|k: int|
                0 <= k < i ==> #[trigger] cands@[k] == spec_row_candidate(
                    t@[k],
                    frame_w as int,
                    frame_h as int,
                ),
        decreases n - i,
    {
        let c = decode_row(t, i, frame_w, frame_h);
        cands.push(c);
        i += 1;
    }
    proof {
        assert(cands@ =~= spec_decode_rows(t@, frame_w as int, frame_h as int));
        assert forall|i: int| 0 <= i < cands@.len() implies is_first_max(
            class_scores(t@[i]),
            #[trigger] cands@[i].class_id as int,
        ) && cands@[i].confidence == class_scores(t@[i])[cands@[i].class_id as int] by {
            lemma_first_max_index(class_scores(t@[i]));
        }
    }
    cands
}

/// Decodes every row of every tensor into one flat candidate sequence.
pub fn decode_all(tensors: &Vec<RawTensor>, frame_w: i64, frame_h: i64) -> (cands: Vec<Candidate>)
    requires
        forall|k: int| 0 <= k < tensors@.len() ==> (#[trigger] tensors@[k]).wf(),
        0 <= frame_w <= DIM_LIMIT,
        0 <= frame_h <= DIM_LIMIT,
    ensures
        cands@ == spec_decode_all(tensor_views(tensors@), frame_w as int, frame_h as int),
{
    let n = tensors.len();
    let mut cands: Vec<Candidate> = Vec::new();
    proof {
        assert(tensor_views(tensors@.subrange(0, 0)) =~= Seq::<Seq<Seq<i64>>>::empty());
    }
    let mut k: usize = 0;
    while k < n
        invariant
            forall|m: int| 0 <= m < tensors@.len() ==> (#[trigger] tensors@[m]).wf(),
            0 <= frame_w <= DIM_LIMIT,
            0 <= frame_h <= DIM_LIMIT,
            n == tensors@.len(),
            k <= n,
            cands@ == spec_decode_all(
                tensor_views(tensors@.subrange(0, k as int)),
                frame_w as int,
                frame_h as int,
            ),
        decreases n - k,
    {
        let mut part = decode_tensor(&tensors[k], frame_w, frame_h);
        let ghost pre = tensor_views(tensors@.subrange(0, k as int));
        let ghost post = tensor_views(tensors@.subrange(0, k as int + 1));
        cands.append(&mut part);
        proof {
            assert(post.drop_last() =~= pre);
            assert(post.last() == tensors@[k as int]@);
            assert(spec_decode_all(post, frame_w as int, frame_h as int) == spec_decode_all(
                pre,
                frame_w as int,
                frame_h as int,
            ) + spec_decode_rows(tensors@[k as int]@, frame_w as int, frame_h as int));
        }
        k += 1;
    }
    proof {
        assert(tensors@.subrange(0, n as int) =~= tensors@);
    }
    cands
}

} // verus!

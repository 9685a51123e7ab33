//! Per-pixel motion scores over three consecutive luma frames.

use vstd::prelude::*;

verus! {

/// Distance between two intensities.
pub open spec fn intensity_gap(a: u8, b: u8) -> int {
    if a >= b {
        a - b
    } else {
        b - a
    }
}

/// Motion score of one pixel seen in three consecutive frames, oldest
/// first: the mean of the two gaps between neighbouring frames, rounded
/// down. A pixel scores high only if it changed across both gaps.
pub open spec fn pixel_score(oldest: u8, middle: u8, newest: u8) -> u8 {
    ((intensity_gap(oldest, middle) + intensity_gap(middle, newest)) / 2) as u8
}

/// The scores of all pixels of three frames of one size.
pub open spec fn frame_scores(oldest: Seq<u8>, middle: Seq<u8>, newest: Seq<u8>) -> Seq<u8>
    recommends
        oldest.len() == middle.len(),
        middle.len() == newest.len(),
{
    Seq::new(oldest.len(), |i: int| pixel_score(oldest[i], middle[i], newest[i]))
}

/// How many of the scores lie strictly above the threshold.
pub open spec fn count_above(scores: Seq<u8>, threshold: u8) -> nat {
    scores.filter(|s: u8| s > threshold).len()
}

/// Whether the scores amount to motion: strictly more than
/// `motion_pixel_count` of them lie strictly above the threshold.
pub open spec fn is_motion(scores: Seq<u8>, threshold: u8, motion_pixel_count: int) -> bool {
    count_above(scores, threshold) > motion_pixel_count
}

/// Computes the motion score of one pixel.
pub fn score_pixel(oldest: u8, middle: u8, newest: u8) -> (score: u8)
    ensures
        score == pixel_score(oldest, middle, newest),
        2 * score <= intensity_gap(oldest, middle) + intensity_gap(middle, newest) < 2 * (score
            + 1),
{
    let first: u16 = if oldest >= middle {
        (oldest - middle) as u16
    } else {
        (middle - oldest) as u16
    };
    let second: u16 = if middle >= newest {
        (middle - newest) as u16
    } else {
        (newest - middle) as u16
    };
    ((first + second) / 2) as u8
}

/// Scores three frames of one size pixel by pixel.
pub fn score_frames(oldest: &Vec<u8>, middle: &Vec<u8>, newest: &Vec<u8>) -> (scores: Vec<u8>)
    requires
        oldest.len() == middle.len(),
        middle.len() == newest.len(),
    ensures
        scores@ == frame_scores(oldest@, middle@, newest@),
{
    let pixels: usize = oldest.len();
    let mut scores: Vec<u8> = Vec::with_capacity(pixels);
    let mut i: usize = 0;
    while i < pixels
        invariant
            pixels == oldest.len(),
            pixels == middle.len(),
            pixels == newest.len(),
            i <= pixels,
            scores.len() == i,
            forall|k: int| 0 <= k < i ==> scores[k] == pixel_score(oldest[k], middle[k], newest[k]),
        decreases pixels - i,
    {
        scores.push(score_pixel(oldest[i], middle[i], newest[i]));
        i += 1;
    }
    scores
}

/// Counts the scores that lie strictly above the threshold.
pub fn count_scores_above(scores: &Vec<u8>, threshold: u8) -> (count: usize)
    ensures
        count == count_above(scores@, threshold),
{
    let mut count: usize = 0;
    let mut i: usize = 0;
    proof {
        assert(scores@.take(0) =~= Seq::<u8>::empty());
        lemma_count_above_empty(threshold);
    }
    while i < scores.len()
        invariant
            i <= scores.len(),
            count == count_above(scores@.take(i as int), threshold),
            count <= i,
        decreases scores.len() - i,
    {
        proof {
            lemma_count_above_push(scores@.take(i as int), scores@[i as int], threshold);
            assert(scores@.take(i as int).push(scores@[i as int]) =~= scores@.take(i + 1));
        }
        if scores[i] > threshold {
            count += 1;
        }
        i += 1;
    }
    proof {
        assert(scores@.take(scores.len() as int) =~= scores@);
    }
    count
}

/// No score of an empty frame lies above any threshold.
pub proof fn lemma_count_above_empty(threshold: u8)
    ensures
        count_above(Seq::<u8>::empty(), threshold) == 0,
{
    Seq::<u8>::empty().lemma_filter_len(|s: u8| s > threshold);
}

/// One more score raises the count by one if it lies above the threshold,
/// and leaves it as it is otherwise.
pub proof fn lemma_count_above_push(scores: Seq<u8>, score: u8, threshold: u8)
    ensures
        count_above(scores.push(score), threshold) == count_above(scores, threshold) + (if score
            > threshold {
            1nat
        } else {
            0nat
        }),
{
    scores.lemma_filter_push(score, |s: u8| s > threshold);
}

/// Where every score lies above the threshold, all of them count.
pub proof fn lemma_count_above_all(scores: Seq<u8>, threshold: u8)
    requires
        forall|i: int| 0 <= i < scores.len() ==> scores[i] > threshold,
    ensures
        count_above(scores, threshold) == scores.len(),
    decreases scores.len(),
{
    if scores.len() == 0 {
        assert(scores =~= Seq::<u8>::empty());
        lemma_count_above_empty(threshold);
    } else {
        let front = scores.drop_last();
        lemma_count_above_all(front, threshold);
        lemma_count_above_push(front, scores.last(), threshold);
        assert(front.push(scores.last()) =~= scores);
    }
}

/// Where no score lies above the threshold, none counts.
pub proof fn lemma_count_above_none(scores: Seq<u8>, threshold: u8)
    requires
        forall|i: int| 0 <= i < scores.len() ==> scores[i] <= threshold,
    ensures
        count_above(scores, threshold) == 0,
    decreases scores.len(),
{
    if scores.len() == 0 {
        assert(scores =~= Seq::<u8>::empty());
        lemma_count_above_empty(threshold);
    } else {
        let front = scores.drop_last();
        lemma_count_above_none(front, threshold);
        lemma_count_above_push(front, scores.last(), threshold);
        assert(front.push(scores.last()) =~= scores);
    }
}

} // verus!

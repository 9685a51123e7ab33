//! What holds of every detector, proved over its model.

use crate::detector::{DetectionResult, DetectorState, HISTORY};
use crate::luma::{frame_stride, grayscale, lemma_grayscale_len, luma, luma_plane, uniform_color};
use crate::score::{
    count_above, frame_scores, intensity_gap, lemma_count_above_all, lemma_count_above_none,
    pixel_score,
};
use vstd::prelude::*;

verus! {

/// Processing a frame keeps the state well formed.
pub proof fn lemma_processed_wf(s: DetectorState, frame: Seq<u8>)
    requires
        s.wf(),
    ensures
        s.processed(frame).wf(),
{
    lemma_grayscale_len(frame, s.width as int, s.height as int);
    let t = s.processed(frame);
    assert forall|k: int| 0 <= k < t.frames.len() implies (#[trigger] t.frames[k]).len()
        == t.pixel_count() || t.frames[k].len() == 0 by {
        if s.ready() {
            if k < 2 {
                assert(t.frames[k] == s.frames[k + 1]);
            }
        } else {
            if k < s.frames.len() {
                assert(t.frames[k] == s.frames[k]);
            }
        }
    }
}

/// Setting the size keeps the state well formed, whatever the new size.
pub proof fn lemma_resized_wf(s: DetectorState, width: usize, height: usize)
    requires
        s.wf(),
    ensures
        s.resized(width, height).wf(),
{
}

/// While fewer than three frames are buffered, a frame is answered with
/// `NotReady` and makes the buffer longer by exactly one.
pub proof fn lemma_filling(s: DetectorState, frame: Seq<u8>)
    requires
        s.frames.len() < HISTORY,
    ensures
        s.verdict() == DetectionResult::NotReady,
        s.processed(frame).frames.len() == s.frames.len() + 1,
{
}

/// Once three frames are buffered, a frame is answered with `Detected` or
/// `NotDetected`, and three frames are buffered after it.
pub proof fn lemma_ready(s: DetectorState, frame: Seq<u8>)
    requires
        s.ready(),
    ensures
        s.verdict() != DetectionResult::NotReady,
        s.verdict() == DetectionResult::Detected <==> s.motion(),
        s.processed(frame).ready(),
{
}

/// Once three frames are buffered, the detector stays ready through any run
/// of frames: none of them, and no frame after them, is answered with
/// `NotReady`.
pub proof fn lemma_ready_forever(s: DetectorState, frames: Seq<Seq<u8>>)
    requires
        s.ready(),
    ensures
        s.processed_all(frames).ready(),
        s.processed_all(frames).verdict() != DetectionResult::NotReady,
    decreases frames.len(),
{
    if frames.len() > 0 {
        lemma_ready_forever(s, frames.drop_last());
        lemma_ready(s.processed_all(frames.drop_last()), frames.last());
    }
}

/// A grey pixel is its own luma.
pub proof fn lemma_luma_of_grey(v: u8)
    ensures
        luma(v, v, v) == v,
{
}

/// A frame of the configured size in which every pixel has one colour
/// reduces to a luma frame of one byte per pixel, each the luma of that
/// colour.
pub proof fn lemma_uniform_frame(
    frame: Seq<u8>,
    width: usize,
    height: usize,
    stride: usize,
    r: u8,
    g: u8,
    b: u8,
)
    requires
        stride == 3 || stride == 4,
        frame.len() == width * height * stride,
        uniform_color(frame, stride as int, r, g, b),
    ensures
        grayscale(frame, width as int, height as int) == Seq::new(
            (width * height) as nat,
            |i: int| luma(r, g, b),
        ),
{
    let pixels = width * height;
    assert(pixels >= 0) by (nonlinear_arith)
        requires
            pixels == width * height,
            width >= 0,
            height >= 0,
    ;
    let used = frame_stride(frame.len() as int, width as int, height as int);
    assert(used is Some);
    let plane = luma_plane(frame, used->0 as int);
    if used->0 != stride {
        // Only an empty frame can be read under both strides.
        assert(pixels == 0);
    }
    assert(plane.len() == pixels);
    assert forall|i: int| 0 <= i < pixels implies plane[i] == luma(r, g, b) by {
        assert(frame[i * stride] == r);
    }
    assert(plane =~= Seq::new(pixels as nat, |i: int| luma(r, g, b)));
}

/// Three identical buffered frames never show motion.
pub proof fn lemma_identical_frames(s: DetectorState)
    requires
        s.ready(),
        s.frames[0] == s.frames[1],
        s.frames[1] == s.frames[2],
    ensures
        s.pixel_diff() == Seq::new(s.pixel_diff().len(), |i: int| 0u8),
        s.verdict() == DetectionResult::NotDetected,
{
    let scores = s.pixel_diff();
    assert forall|i: int| 0 <= i < scores.len() implies scores[i] == 0 by {
        assert(pixel_score(s.frames[0][i], s.frames[0][i], s.frames[0][i]) == 0);
    }
    assert(scores =~= Seq::new(scores.len(), |i: int| 0u8));
    lemma_count_above_none(scores, s.threshold);
}

/// The same frame `count` times in a row.
pub open spec fn repeated(frame: Seq<u8>, count: nat) -> Seq<Seq<u8>> {
    Seq::new(count, |i: int| frame)
}

/// After the same frame has been processed three times or more, the buffer
/// holds three copies of its luma plane, and the next frame is answered
/// with `NotDetected`.
pub proof fn lemma_repeated_frame(s: DetectorState, frame: Seq<u8>, count: nat)
    requires
        s.wf(),
        count >= HISTORY,
    ensures
        s.processed_all(repeated(frame, count)).frames == seq![
            grayscale(frame, s.width as int, s.height as int),
            grayscale(frame, s.width as int, s.height as int),
            grayscale(frame, s.width as int, s.height as int),
        ],
        s.processed_all(repeated(frame, count)).verdict() == DetectionResult::NotDetected,
    decreases count,
{
    let gray = grayscale(frame, s.width as int, s.height as int);
    let run = repeated(frame, count);
    let before = s.processed_all(run.drop_last());
    let after = s.processed_all(run);
    assert(run.last() == frame);
    assert(after == before.processed(frame));
    if count == HISTORY {
        let first = repeated(frame, 1);
        let second = repeated(frame, 2);
        assert(run.drop_last() =~= second);
        assert(second.drop_last() =~= first);
        assert(first.drop_last() =~= Seq::<Seq<u8>>::empty());
        let s0 = s.processed_all(Seq::<Seq<u8>>::empty());
        assert(s0 == s);
        let s1 = s.processed_all(first);
        assert(first.last() == frame);
        assert(s1 == s0.processed(frame));
        let s2 = s.processed_all(second);
        assert(second.last() == frame);
        assert(s2 == s1.processed(frame));
        assert(after.frames =~= seq![gray, gray, gray]);
    } else {
        assert(run.drop_last() =~= repeated(frame, (count - 1) as nat));
        lemma_repeated_frame(s, frame, (count - 1) as nat);
        assert(after.frames =~= seq![gray, gray, gray]);
    }
    lemma_identical_frames(after);
}

/// Where every pixel changes by exactly one more than the threshold from
/// each buffered frame to the next, and there are more pixels than the
/// motion pixel count, the triplet shows motion.
pub proof fn lemma_steady_change(s: DetectorState)
    requires
        s.aligned(),
        s.pixel_count() > s.motion_pixel_count,
        forall|i: int|
            0 <= i < s.pixel_count() ==> {
                &&& intensity_gap(#[trigger] s.frames[0][i], s.frames[1][i]) == s.threshold + 1
                &&& intensity_gap(s.frames[1][i], s.frames[2][i]) == s.threshold + 1
            },
    ensures
        s.verdict() == DetectionResult::Detected,
{
    let scores = s.pixel_diff();
    assert(scores == frame_scores(s.frames[0], s.frames[1], s.frames[2]));
    assert forall|i: int| 0 <= i < scores.len() implies scores[i] > s.threshold by {
        assert(intensity_gap(s.frames[0][i], s.frames[1][i]) == s.threshold + 1);
        assert(scores[i] == pixel_score(s.frames[0][i], s.frames[1][i], s.frames[2][i]));
    }
    lemma_count_above_all(scores, s.threshold);
    assert(count_above(scores, s.threshold) == s.pixel_count());
}

/// A new size empties the buffer: the next frame finds no history, is
/// answered with `NotReady`, and is the only frame buffered after it.
pub proof fn lemma_resize_restarts(s: DetectorState, width: usize, height: usize, frame: Seq<u8>)
    requires
        s.width != width || s.height != height,
    ensures
        s.resized(width, height).frames.len() == 0,
        s.resized(width, height).verdict() == DetectionResult::NotReady,
        s.resized(width, height).processed(frame).frames == seq![
            grayscale(frame, width as int, height as int),
        ],
{
    let t = s.resized(width, height).processed(frame);
    assert(t.frames =~= seq![grayscale(frame, width as int, height as int)]);
}

/// Setting the size that is already set changes nothing.
pub proof fn lemma_resize_same(s: DetectorState)
    ensures
        s.resized(s.width, s.height) == s,
{
}

} // verus!

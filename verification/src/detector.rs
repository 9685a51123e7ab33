//! The frame-buffering detector and its mathematical model.

use crate::luma::{convert_plane, detect_stride, grayscale, lemma_grayscale_len};
use crate::score::{count_scores_above, frame_scores, is_motion, score_frames};
use vstd::prelude::*;

verus! {

/// Number of luma frames that one comparison looks at.
pub const HISTORY: usize = 3;

/// Threshold of a new detector.
pub const DEFAULT_THRESHOLD: u8 = 30;

/// Motion pixel count of a new detector.
pub const DEFAULT_MOTION_PIXEL_COUNT: usize = 100;

/// What the detector says of one processed frame.
#[derive(Debug, Clone, Copy, PartialEq, Eq, Structural)]
pub enum DetectionResult {
    /// Fewer than three frames had been buffered before this one.
    NotReady,
    /// The three buffered frames show motion.
    Detected,
    /// The three buffered frames show no motion.
    NotDetected,
}

/// The state of a detector as a mathematical value.
pub struct DetectorState {
    /// The buffered luma frames, oldest first.
    pub frames: Seq<Seq<u8>>,
    /// A pixel qualifies if its score lies strictly above this.
    pub threshold: u8,
    /// Motion is declared if strictly more pixels than this qualify.
    pub motion_pixel_count: usize,
    /// Width of the frames, in pixels.
    pub width: usize,
    /// Height of the frames, in pixels.
    pub height: usize,
}

impl DetectorState {
    /// The state of a fresh detector of the given size.
    pub open spec fn initial(width: usize, height: usize) -> DetectorState {
        DetectorState {
            frames: Seq::empty(),
            threshold: DEFAULT_THRESHOLD,
            motion_pixel_count: DEFAULT_MOTION_PIXEL_COUNT,
            width,
            height,
        }
    }

    /// Pixels per frame.
    pub open spec fn pixel_count(self) -> int {
        self.width * self.height
    }

    /// At most three frames are buffered, and each of them has either one
    /// luma byte per pixel or, where it came from a raw frame of the wrong
    /// length, none at all.
    pub open spec fn wf(self) -> bool {
        &&& self.frames.len() <= HISTORY
        &&& forall|k: int|
            0 <= k < self.frames.len() ==> {
                ||| (#[trigger] self.frames[k]).len() == self.pixel_count()
                ||| self.frames[k].len() == 0
            }
    }

    /// Whether three frames are buffered, so that the next call compares.
    pub open spec fn ready(self) -> bool {
        self.frames.len() == HISTORY
    }

    /// Whether three frames are buffered and each holds every pixel.
    pub open spec fn aligned(self) -> bool {
        &&& self.ready()
        &&& self.frames[0].len() == self.pixel_count()
        &&& self.frames[1].len() == self.pixel_count()
        &&& self.frames[2].len() == self.pixel_count()
    }

    /// The per-pixel scores of what is buffered.
    ///
    /// Three full frames give the score of each pixel. While the buffer
    /// fills there is nothing to compare yet, and every pixel scores zero.
    /// Where one of three buffered frames is empty, or where the detector
    /// has more pixels than a vector can hold, no pixel has a score.
    pub open spec fn pixel_diff(self) -> Seq<u8> {
        if self.aligned() {
            frame_scores(self.frames[0], self.frames[1], self.frames[2])
        } else if !self.ready() && self.pixel_count() <= usize::MAX {
            Seq::new(self.pixel_count() as nat, |i: int| 0u8)
        } else {
            Seq::empty()
        }
    }

    /// Whether the buffered triplet shows motion under the current settings.
    pub open spec fn motion(self) -> bool {
        is_motion(self.pixel_diff(), self.threshold, self.motion_pixel_count as int)
    }

    /// The result of processing the next frame, whatever that frame holds:
    /// the comparison looks only at what is buffered already.
    pub open spec fn verdict(self) -> DetectionResult {
        if !self.ready() {
            DetectionResult::NotReady
        } else if self.motion() {
            DetectionResult::Detected
        } else {
            DetectionResult::NotDetected
        }
    }

    /// The state after a luma frame has entered the buffer: appended while
    /// the buffer fills, and in place of the oldest frame once it is full.
    pub open spec fn buffered(self, luma: Seq<u8>) -> DetectorState {
        DetectorState {
            frames: if self.ready() {
                self.frames.skip(1).push(luma)
            } else {
                self.frames.push(luma)
            },
            ..self
        }
    }

    /// The state after a raw frame has been processed.
    pub open spec fn processed(self, frame: Seq<u8>) -> DetectorState {
        self.buffered(grayscale(frame, self.width as int, self.height as int))
    }

    /// The state after a run of raw frames has been processed, first to last.
    pub open spec fn processed_all(self, frames: Seq<Seq<u8>>) -> DetectorState
        decreases frames.len(),
    {
        if frames.len() == 0 {
            self
        } else {
            self.processed_all(frames.drop_last()).processed(frames.last())
        }
    }

    /// The state after the size has been set: a new size empties the buffer,
    /// the old one leaves it as it is.
    pub open spec fn resized(self, width: usize, height: usize) -> DetectorState {
        DetectorState {
            frames: if self.width != width || self.height != height {
                Seq::empty()
            } else {
                self.frames
            },
            width,
            height,
            ..self
        }
    }
}

/// Detects motion in a stream of frames from the last three of them.
pub struct MotionDetector {
    frames: Vec<Vec<u8>>,
    threshold: u8,
    motion_pixel_count: usize,
    width: usize,
    height: usize,
}

impl View for MotionDetector {
    type V = DetectorState;

    closed spec fn view(&self) -> DetectorState {
        DetectorState {
            frames: Seq::new(self.frames.len() as nat, |k: int| self.frames[k]@),
            threshold: self.threshold,
            motion_pixel_count: self.motion_pixel_count,
            width: self.width,
            height: self.height,
        }
    }
}

impl MotionDetector {
    #[verifier::type_invariant]
    spec fn inv(&self) -> bool {
        self@.wf()
    }

    /// Creates a detector for frames of `width` by `height` pixels, with an
    /// empty buffer and the default settings.
    pub fn new(width: usize, height: usize) -> (detector: Self)
        ensures
            detector@ == DetectorState::initial(width, height),
            detector@.wf(),
    {
        let detector = Self {
            frames: Vec::new(),
            threshold: DEFAULT_THRESHOLD,
            motion_pixel_count: DEFAULT_MOTION_PIXEL_COUNT,
            width,
            height,
        };
        assert(detector@.frames =~= Seq::<Seq<u8>>::empty());
        detector
    }

    /// Sets the size of the frames to come. Frames buffered under another
    /// size are dropped.
    pub fn set_size(&mut self, width: usize, height: usize)
        ensures
            final(self)@ == old(self)@.resized(width, height),
            final(self)@.wf(),
    {
        proof {
            use_type_invariant(&*self);
        }
        if self.width != width || self.height != height {
            self.frames = Vec::new();
            assert(self@.frames =~= Seq::<Seq<u8>>::empty());
        }
        self.width = width;
        self.height = height;
    }

    /// Sets the score that a pixel must exceed to qualify.
    pub fn set_threshold(&mut self, threshold: u8)
        ensures
            final(self)@ == (DetectorState { threshold, ..old(self)@ }),
            final(self)@.wf(),
    {
        proof {
            use_type_invariant(&*self);
        }
        self.threshold = threshold;
    }

    /// Sets the number of qualifying pixels that motion must exceed.
    pub fn set_motion_pixel_count(&mut self, motion_pixel_count: usize)
        ensures
            final(self)@ == (DetectorState { motion_pixel_count, ..old(self)@ }),
            final(self)@.wf(),
    {
        proof {
            use_type_invariant(&*self);
        }
        self.motion_pixel_count = motion_pixel_count;
    }

    /// Scores what is buffered, pixel by pixel: the scores of three full
    /// frames, and one zero per pixel while the buffer fills. The result is
    /// empty where one of three buffered frames is empty, or where the
    /// detector has more pixels than a vector can hold.
    pub fn get_pixel_diff(&self) -> (diff: Vec<u8>)
        ensures
            diff@ == self@.pixel_diff(),
    {
        proof {
            use_type_invariant(self);
        }
        let pixels: usize = match self.width.checked_mul(self.height) {
            Some(pixels) => pixels,
            None => {
                proof {
                    if self@.ready() {
                        // More pixels than any frame has bytes.
                        assert(self@.frames[0].len() == self.frames[0].len() <= usize::MAX);
                    }
                }
                return Vec::new();
            },
        };
        if self.frames.len() < HISTORY {
            return vec![0u8; pixels];
        }
        assert(self@.frames[0] == self.frames[0]@ && self@.frames[1] == self.frames[1]@
            && self@.frames[2] == self.frames[2]@);
        if self.frames[0].len() == pixels && self.frames[1].len() == pixels
            && self.frames[2].len() == pixels {
            score_frames(&self.frames[0], &self.frames[1], &self.frames[2])
        } else {
            Vec::new()
        }
    }

    /// Reduces a raw RGBA or RGB frame of the configured size to its luma
    /// plane. A buffer of any other length yields the empty frame.
    pub fn to_grayscale(&self, frame: Vec<u8>) -> (gray: Vec<u8>)
        ensures
            gray@ == grayscale(frame@, self@.width as int, self@.height as int),
    {
        match detect_stride(frame.len(), self.width, self.height) {
            Some(stride) => convert_plane(&frame, stride),
            None => Vec::new(),
        }
    }

    /// Takes one luma frame: compares the buffered triplet if there is one,
    /// then lets the frame into the buffer. The frame has one byte per
    /// pixel, or none where the raw frame it stands for was unusable.
    pub fn process_gs_frame(&mut self, frame: Vec<u8>) -> (result: DetectionResult)
        requires
            frame.len() == old(self)@.pixel_count() || frame.len() == 0,
        ensures
            result == old(self)@.verdict(),
            final(self)@ == old(self)@.buffered(frame@),
            final(self)@.wf(),
    {
        proof {
            use_type_invariant(&*self);
        }
        let ghost before = self@;
        let ready = self.frames.len() == HISTORY;
        let result = if ready {
            let pixel_diff = self.get_pixel_diff();
            let pix_count = count_scores_above(&pixel_diff, self.threshold);
            if pix_count > self.motion_pixel_count {
                DetectionResult::Detected
            } else {
                DetectionResult::NotDetected
            }
        } else {
            DetectionResult::NotReady
        };
        // The buffer leaves the detector while it changes, so that the
        // detector is well formed at every step.
        let mut frames: Vec<Vec<u8>> = Vec::new();
        std::mem::swap(&mut frames, &mut self.frames);
        if ready {
            frames.remove(0);
        }
        frames.push(frame);
        assert forall|k: int| 0 <= k < frames.len() implies (#[trigger] frames[k]).len()
            == before.pixel_count() || frames[k].len() == 0 by {
            let kept = if ready { k + 1 } else { k };
            if kept < before.frames.len() {
                assert(frames[k]@ == before.frames[kept]);
            }
        }
        self.frames = frames;
        assert(self@.frames =~= before.buffered(frame@).frames);
        result
    }

    /// Processes one raw frame and says what the frames buffered before it
    /// show. The frame then enters the buffer as its luma plane, in place
    /// of the oldest frame once three are held.
    pub fn process_frame(&mut self, frame: Vec<u8>) -> (result: DetectionResult)
        ensures
            result == old(self)@.verdict(),
            final(self)@ == old(self)@.processed(frame@),
            final(self)@.wf(),
    {
        let gs_frame = self.to_grayscale(frame);
        proof {
            lemma_grayscale_len(frame@, self.width as int, self.height as int);
        }
        self.process_gs_frame(gs_frame)
    }
    /// Number of frames in the buffer.
    pub fn frame_count(&self) -> (count: usize)
        ensures
            count == self@.frames.len(),
            count <= HISTORY,
    {
        proof {
            use_type_invariant(self);
        }
        self.frames.len()
    }

    /// Width of the frames, in pixels.
    pub fn width(&self) -> (width: usize)
        ensures
            width == self@.width,
    {
        self.width
    }

    /// Height of the frames, in pixels.
    pub fn height(&self) -> (height: usize)
        ensures
            height == self@.height,
    {
        self.height
    }

    /// The score that a pixel must exceed to qualify.
    pub fn threshold(&self) -> (threshold: u8)
        ensures
            threshold == self@.threshold,
    {
        self.threshold
    }

    /// The number of qualifying pixels that motion must exceed.
    pub fn motion_pixel_count(&self) -> (count: usize)
        ensures
            count == self@.motion_pixel_count,
    {
        self.motion_pixel_count
    }
}

} // verus!

//! The animation assembler: composite frames, each the static base with one
//! scan laid over it, in the order in which they are shown.

use vstd::prelude::*;
use crate::canvas::Canvas;
use crate::canvas::Raster;
use crate::compositor::composite;
use crate::compositor::composited;
use crate::error::Fault;
use crate::error::RadarError;
use crate::selector::MAX_FRAMES;

verus! {

/// How long each frame of a radar loop is shown, in milliseconds.
pub const FRAME_DELAY_MS: u32 = 400;

/// How often an animation plays.
#[derive(Clone, Copy, Debug, PartialEq, Eq)]
pub enum LoopCount {
    /// So many times after the first.
    Finite(u16),
    /// Without end.
    Infinite,
}

/// Mathematical model of a [`TimedFrame`].
pub struct FrameView {
    pub image: Raster,
    pub delay_ms: nat,
}

/// One frame of an animation: an image and how long it is shown.
pub struct TimedFrame {
    pub(crate) canvas: Canvas,
    pub(crate) delay_ms: u32,
}

impl View for TimedFrame {
    type V = FrameView;

    closed spec fn view(&self) -> FrameView {
        FrameView { image: self.canvas@, delay_ms: self.delay_ms as nat }
    }
}

impl TimedFrame {
    pub fn new(canvas: Canvas, delay_ms: u32) -> (frame: TimedFrame)
        ensures
            frame@ == (FrameView { image: canvas@, delay_ms: delay_ms as nat }),
    {
        TimedFrame { canvas, delay_ms }
    }

    pub fn canvas(&self) -> (canvas: &Canvas)
        ensures
            canvas@ == self@.image,
    {
        &self.canvas
    }

    pub fn delay_ms(&self) -> (delay_ms: u32)
        ensures
            delay_ms == self@.delay_ms,
    {
        self.delay_ms
    }

    /// An independent copy of this frame.
    pub fn duplicate(&self) -> (copy: TimedFrame)
        ensures
            copy@ == self@,
    {
        TimedFrame { canvas: self.canvas.duplicate(), delay_ms: self.delay_ms }
    }
}

/// Mathematical model of a [`ScanFrame`].
pub struct ScanView {
    pub name: Seq<char>,
    pub image: Raster,
}

/// One decoded scan image and the name of the file that it came from.
pub struct ScanFrame {
    pub name: String,
    pub image: Canvas,
}

impl View for ScanFrame {
    type V = ScanView;

    open spec fn view(&self) -> ScanView {
        ScanView { name: self.name@, image: self.image@ }
    }
}

/// The scans in a list, each by its model.
pub open spec fn scan_views(scans: Seq<ScanFrame>) -> Seq<ScanView> {
    Seq::new(scans.len(), |i: int| scans[i]@)
}

/// The frame that shows one scan: the scan laid over the base, shown for
/// `FRAME_DELAY_MS`.
pub open spec fn frame_of(base: Raster, scan: Raster) -> FrameView {
    FrameView { image: composited(base, scan), delay_ms: FRAME_DELAY_MS as nat }
}

/// The frames after one more scan: a scan of another size than the base is a
/// `DimensionMismatch` that names the scan's file.
pub open spec fn framed(base: Raster, frames: Seq<FrameView>, scan: ScanView) -> Result<
    Seq<FrameView>,
    Fault,
> {
    if scan.image.same_size(base) {
        Ok(frames.push(frame_of(base, scan.image)))
    } else {
        Err(Fault::DimensionMismatch { name: scan.name })
    }
}

/// The frames for a list of scans, in the order of the list. The first scan
/// of another size than the base fails the whole list.
pub open spec fn assembled(base: Raster, scans: Seq<ScanView>) -> Result<Seq<FrameView>, Fault>
    decreases scans.len(),
{
    if scans.len() == 0 {
        Ok(Seq::empty())
    } else {
        match assembled(base, scans.drop_last()) {
            Ok(frames) => framed(base, frames, scans.last()),
            Err(fault) => Err(fault),
        }
    }
}

/// The last `MAX_FRAMES - 1` of the given frames, or all of them if there are
/// fewer than `MAX_FRAMES`: what stays when one more frame comes in.
pub open spec fn room_made(frames: Seq<FrameView>) -> Seq<FrameView> {
    if frames.len() < MAX_FRAMES {
        frames
    } else {
        frames.subrange(frames.len() - MAX_FRAMES + 1, frames.len() as int)
    }
}

/// The last `MAX_FRAMES` of the given scans, or all of them if there are
/// fewer.
pub open spec fn latest(scans: Seq<ScanView>) -> Seq<ScanView> {
    if scans.len() <= MAX_FRAMES {
        scans
    } else {
        scans.subrange(scans.len() - MAX_FRAMES, scans.len() as int)
    }
}

/// What assembling gives. If it succeeds, there is one frame for each scan,
/// in the order of the scans; every scan, and so every frame, has the size of
/// the base; each frame is its scan laid over the base and is shown for
/// `FRAME_DELAY_MS`. If it fails, it names the first scan of another size
/// than the base.
pub proof fn lemma_assembled(base: Raster, scans: Seq<ScanView>)
    requires
        base.wf(),
    ensures
        match assembled(base, scans) {
            Ok(frames) => {
                &&& frames.len() == scans.len()
                &&& forall|i: int|
                    0 <= i < scans.len() ==> {
                        &&& (#[trigger] scans[i]).image.same_size(base)
                        &&& frames[i] == frame_of(base, scans[i].image)
                    }
                &&& forall|i: int|
                    0 <= i < frames.len() ==> {
                        &&& (#[trigger] frames[i]).image.same_size(base)
                        &&& frames[i].image.wf()
                        &&& frames[i].delay_ms == FRAME_DELAY_MS
                    }
            },
            Err(fault) => exists|i: int|
                {
                    &&& 0 <= i < scans.len()
                    &&& !(#[trigger] scans[i]).image.same_size(base)
                    &&& fault == Fault::DimensionMismatch { name: scans[i].name }
                    &&& forall|j: int| 0 <= j < i ==> (#[trigger] scans[j]).image.same_size(base)
                },
        },
    decreases scans.len(),
{
    if scans.len() > 0 {
        let earlier = scans.drop_last();
        lemma_assembled(base, earlier);
        match assembled(base, earlier) {
            Ok(frames) => {
                let last = scans.last();
                if last.image.same_size(base) {
                    let all = frames.push(frame_of(base, last.image));
                    assert forall|i: int| 0 <= i < scans.len() implies {
                        &&& (#[trigger] scans[i]).image.same_size(base)
                        &&& all[i] == frame_of(base, scans[i].image)
                    } by {
                        if i < earlier.len() {
                            assert(earlier[i] == scans[i]);
                        }
                    }
                    assert forall|i: int| 0 <= i < all.len() implies {
                        &&& (#[trigger] all[i]).image.same_size(base)
                        &&& all[i].image.wf()
                        &&& all[i].delay_ms == FRAME_DELAY_MS
                    } by {
                        if i < frames.len() {
                            assert(all[i] == frames[i]);
                        }
                    }
                } else {
                    let i = scans.len() - 1;
                    assert forall|j: int| 0 <= j < i implies (#[trigger] scans[j]).image.same_size(
                        base,
                    ) by {
                        assert(earlier[j] == scans[j]);
                    }
                    assert(!scans[i].image.same_size(base));
                }
            },
            Err(fault) => {
                let i = choose|i: int|
                    {
                        &&& 0 <= i < earlier.len()
                        &&& !(#[trigger] earlier[i]).image.same_size(base)
                        &&& fault == Fault::DimensionMismatch { name: earlier[i].name }
                        &&& forall|j: int|
                            0 <= j < i ==> (#[trigger] earlier[j]).image.same_size(base)
                    };
                assert(earlier[i] == scans[i]);
                assert forall|j: int| 0 <= j < i implies (#[trigger] scans[j]).image.same_size(
                    base,
                ) by {
                    assert(earlier[j] == scans[j]);
                }
            },
        }
    }
}

/// Mathematical model of an [`AnimationSequence`].
pub struct SequenceView {
    /// The static base that every frame starts from.
    pub base: Raster,
    /// The frames, oldest first.
    pub frames: Seq<FrameView>,
}

/// The frames of a radar loop, oldest first, with the static base that each
/// of them was made from. A sequence plays without end.
pub struct AnimationSequence {
    base: Canvas,
    frames: Vec<TimedFrame>,
}

impl View for AnimationSequence {
    type V = SequenceView;

    closed spec fn view(&self) -> SequenceView {
        SequenceView { base: self.base@, frames: Seq::new(self.frames@.len(), |i: int| self.frames@[i]@) }
    }
}

impl SequenceView {
    /// At most `MAX_FRAMES` frames, each of the size of the base and shown
    /// for `FRAME_DELAY_MS`.
    pub open spec fn wf(self) -> bool {
        &&& self.base.wf()
        &&& self.frames.len() <= MAX_FRAMES
        &&& forall|i: int|
            0 <= i < self.frames.len() ==> {
                &&& (#[trigger] self.frames[i]).image.same_size(self.base)
                &&& self.frames[i].image.wf()
                &&& self.frames[i].delay_ms == FRAME_DELAY_MS
            }
    }
}

impl AnimationSequence {
    /// Every sequence keeps to the limits of its model.
    #[verifier::type_invariant]
    pub open spec fn wf(&self) -> bool {
        self@.wf()
    }

    /// A sequence without frames over the given static base.
    pub fn new(base: Canvas) -> (sequence: AnimationSequence)
        ensures
            sequence@.base == base@,
            sequence@.frames == Seq::<FrameView>::empty(),
            sequence@.wf(),
    {
        proof {
            use_type_invariant(&base);
        }
        let sequence = AnimationSequence { base, frames: Vec::new() };
        assert(sequence@.frames =~= Seq::<FrameView>::empty());
        sequence
    }

    /// How many frames the sequence holds.
    pub fn len(&self) -> (len: usize)
        ensures
            len == self@.frames.len(),
            len <= MAX_FRAMES,
            self@.wf(),
    {
        proof {
            use_type_invariant(self);
        }
        self.frames.len()
    }

    /// The static base.
    pub fn base(&self) -> (base: &Canvas)
        ensures
            base@ == self@.base,
    {
        &self.base
    }

    /// The frame at position `i`, the oldest at 0.
    pub fn frame(&self, i: usize) -> (frame: Option<&TimedFrame>)
        ensures
            frame is Some <==> i < self@.frames.len(),
            frame matches Some(found) ==> found@ == self@.frames[i as int],
    {
        if i < self.frames.len() {
            Some(&self.frames[i])
        } else {
            None
        }
    }

    /// The frames, oldest first.
    pub fn frames(&self) -> (frames: &Vec<TimedFrame>)
        ensures
            frames@.len() == self@.frames.len(),
            forall|i: int| 0 <= i < frames@.len() ==> (#[trigger] frames@[i])@ == self@.frames[i],
            Seq::new(frames@.len(), |i: int| frames@[i]@) == self@.frames,
            self@.wf(),
    {
        proof {
            use_type_invariant(self);
        }
        &self.frames
    }

    /// How often the sequence plays: without end.
    pub fn looping(&self) -> (looping: LoopCount)
        ensures
            looping == LoopCount::Infinite,
    {
        LoopCount::Infinite
    }

    /// Adds the frame for one more scan: a fresh copy of the static base with
    /// the scan laid over it. A scan of another size than the base is a
    /// `DimensionMismatch` that names the scan's file. A full sequence lets go
    /// of its oldest frame.
    pub fn with_scan(self, name: &str, image: &Canvas) -> (grown: Result<
        AnimationSequence,
        RadarError,
    >)
        ensures
            grown is Ok <==> image@.same_size(self@.base),
            grown matches Ok(sequence) ==> {
                &&& sequence@.base == self@.base
                &&& sequence@.frames == room_made(self@.frames).push(
                    frame_of(self@.base, image@),
                )
                &&& sequence@.wf()
            },
            grown matches Err(error) ==> error@ == (Fault::DimensionMismatch { name: name@ }),
    {
        proof {
            use_type_invariant(&self);
            use_type_invariant(image);
        }
        if !image.same_size(&self.base) {
            return Err(RadarError::DimensionMismatch { name: String::from_str(name) });
        }
        let mut copy = self.base.duplicate();
        match composite(&mut copy, image, name) {
            Ok(()) => {},
            Err(error) => {
                return Err(error);
            },
        }
        proof {
            use_type_invariant(&copy);
        }
        let ghost before = self@;
        let ghost held = self.frames@;
        let AnimationSequence { base, frames } = self;
        let mut frames = frames;
        if frames.len() >= MAX_FRAMES {
            let _ = frames.remove(0);
        }
        frames.push(TimedFrame::new(copy, FRAME_DELAY_MS));
        proof {
            let shift = held.len() + 1 - frames@.len();
            let grown = Seq::new(frames@.len(), |i: int| frames@[i]@);
            assert forall|i: int| 0 <= i < grown.len() implies {
                &&& (#[trigger] grown[i]).image.same_size(before.base)
                &&& grown[i].image.wf()
                &&& grown[i].delay_ms == FRAME_DELAY_MS
            } by {
                if i < frames@.len() - 1 {
                    assert(frames@[i] == held[i + shift]);
                    assert(grown[i] == before.frames[i + shift]);
                }
            }
            assert(grown =~= room_made(before.frames).push(frame_of(before.base, image@)));
        }
        let sequence = AnimationSequence { base, frames };
        Ok(sequence)
    }
}

/// Assembles the frames for the given scans over the static base, one frame
/// for each scan and in their order. Of more than `MAX_FRAMES` scans only the
/// last `MAX_FRAMES` are used. No scans give a sequence without frames.
pub fn assemble(base: Canvas, scans: &Vec<ScanFrame>) -> (made: Result<
    AnimationSequence,
    RadarError,
>)
    ensures
        base@.wf(),
        match made {
            Ok(sequence) => {
                &&& sequence@.base == base@
                &&& assembled(base@, latest(scan_views(scans@))) == Ok::<Seq<FrameView>, Fault>(
                    sequence@.frames,
                )
                &&& sequence@.wf()
            },
            Err(error) => assembled(base@, latest(scan_views(scans@))) == Err::<
                Seq<FrameView>,
                Fault,
            >(error@),
        },
{
    proof {
        use_type_invariant(&base);
    }
    let first: usize = if scans.len() <= MAX_FRAMES {
        0
    } else {
        scans.len() - MAX_FRAMES
    };
    let ghost used = latest(scan_views(scans@));
    let mut sequence = AnimationSequence::new(base);
    let mut i: usize = first;
    while i < scans.len()
        invariant
            first <= i <= scans.len(),
            scans.len() - first <= MAX_FRAMES,
            used == latest(scan_views(scans@)),
            used.len() == scans.len() - first,
            forall|k: int| 0 <= k < used.len() ==> used[k] == scans@[first + k]@,
            sequence@.base == base@,
            sequence@.wf(),
            sequence@.frames.len() == i - first,
            assembled(base@, used.subrange(0, i - first)) == Ok::<Seq<FrameView>, Fault>(
                sequence@.frames,
            ),
        decreases scans.len() - i,
    {
        let ghost seen = used.subrange(0, i - first + 1);
        let ghost frames = sequence@.frames;
        proof {
            assert(seen.drop_last() =~= used.subrange(0, i - first));
            assert(seen.last() == scans@[i as int]@);
            assert(assembled(base@, seen) == framed(base@, frames, seen.last()));
        }
        match sequence.with_scan(scans[i].name.as_str(), &scans[i].image) {
            Ok(grown) => {
                sequence = grown;
                assert(room_made(frames) == frames);
            },
            Err(error) => {
                proof {
                    lemma_failure_stays(base@, used, i - first + 1);
                }
                return Err(error);
            },
        }
        i += 1;
    }
    assert(used.subrange(0, used.len() as int) =~= used);
    Ok(sequence)
}

/// Once the first scans of a list fail to assemble, the whole list fails in
/// the same way.
pub proof fn lemma_failure_stays(base: Raster, scans: Seq<ScanView>, count: int)
    requires
        0 <= count <= scans.len(),
        assembled(base, scans.subrange(0, count)) is Err,
    ensures
        assembled(base, scans) == assembled(base, scans.subrange(0, count)),
    decreases scans.len() - count,
{
    if count < scans.len() {
        let longer = scans.subrange(0, count + 1);
        assert(longer.drop_last() =~= scans.subrange(0, count));
        lemma_failure_stays(base, scans, count + 1);
    } else {
        assert(scans.subrange(0, count) =~= scans);
    }
}

} // verus!

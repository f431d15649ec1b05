//! The stream encoder: frames in, one animated GIF out.

use vstd::prelude::*;
use image::Delay;
use image::Frame;
use image::ImageError;
use image::RgbaImage;
use image::codecs::gif::GifEncoder;
use image::codecs::gif::Repeat;
use crate::animation::AnimationSequence;
use crate::animation::FrameView;
use crate::animation::LoopCount;
use crate::animation::TimedFrame;
use crate::canvas::Canvas;
use crate::canvas::Raster;
use crate::error::Fault;
use crate::error::RadarError;
use crate::sink::OutputSink;

verus! {

/// The widest and the tallest that a GIF can be.
pub const MAX_GIF_SIDE: u32 = 65535;

/// The longest delay that a GIF frame can carry, in hundredths of a second.
pub const MAX_DELAY_UNITS: u16 = 65535;

/// The bytes that `image::codecs::gif::GifEncoder` writes for the given loop
/// setting and frames, each frame placed at `(left, top)`; `None` where the
/// encoder fails.
pub uninterp spec fn gif_stream(
    looping: LoopCount,
    frames: Seq<FrameView>,
    left: u32,
    top: u32,
) -> Option<Seq<u8>>;

/// The six bytes that every GIF stream begins with: `GIF89a`.
pub open spec fn gif_signature() -> Seq<u8> {
    seq![0x47u8, 0x49u8, 0x46u8, 0x38u8, 0x39u8, 0x61u8]
}

/// The byte that ends a GIF stream.
pub const GIF_TRAILER: u8 = 0x3B;

/// The stream is whole: it begins with the signature and ends with the
/// trailer.
pub open spec fn is_whole_gif(bytes: Seq<u8>) -> bool {
    &&& bytes.len() > 6
    &&& bytes.subrange(0, 6) == gif_signature()
    &&& bytes.last() == GIF_TRAILER
}

/// The frames in a list, each by its model.
pub open spec fn frame_views(frames: Seq<TimedFrame>) -> Seq<FrameView> {
    Seq::new(frames.len(), |i: int| frames[i]@)
}

/// An image that a GIF can hold: at least one pixel, and no side longer than
/// `MAX_GIF_SIDE`.
pub open spec fn fits_gif(image: Raster) -> bool {
    1 <= image.width <= MAX_GIF_SIDE && 1 <= image.height <= MAX_GIF_SIDE
}

/// Whether a stream that holds `frames` takes `frame` as its next: the image
/// must fit a GIF and, after the first frame, have the size of the first.
pub open spec fn accepts(frames: Seq<FrameView>, frame: FrameView) -> bool {
    fits_gif(frame.image) && (frames.len() > 0 ==> frame.image.same_size(frames[0].image))
}

/// Every frame fits a GIF and has the size of the first.
pub open spec fn uniform(frames: Seq<FrameView>) -> bool {
    forall|i: int|
        0 <= i < frames.len() ==> fits_gif((#[trigger] frames[i]).image) && frames[i].image.same_size(
            frames[0].image,
        )
}

/// A delay in the unit of the GIF format, hundredths of a second. The
/// milliseconds are divided by ten and what is left over is dropped; a delay
/// beyond `MAX_DELAY_UNITS` becomes `MAX_DELAY_UNITS`.
pub open spec fn delay_units_of(delay_ms: nat) -> nat {
    if delay_ms / 10 > MAX_DELAY_UNITS {
        MAX_DELAY_UNITS as nat
    } else {
        delay_ms / 10
    }
}

/// The bytes of the stream for the given loop setting and frames. No frames
/// are `NoFramesAvailable`; frames that are not uniform, which never reach
/// the GIF encoder, and frames that the encoder fails on are an
/// `EncodeFailure`.
pub open spec fn stream_of(looping: LoopCount, frames: Seq<FrameView>) -> Result<Seq<u8>, Fault> {
    if frames.len() == 0 {
        Err(Fault::NoFramesAvailable)
    } else if !uniform(frames) {
        Err(Fault::EncodeFailure)
    } else {
        match gif_stream(looping, frames, 0, 0) {
            Some(bytes) => Ok(bytes),
            None => Err(Fault::EncodeFailure),
        }
    }
}

/// Encodes the frames with the `image` crate's `GifEncoder`: `new` on an
/// empty buffer, `set_repeat`, `encode_frames`, and the drop of the encoder,
/// which ends the stream. Each frame is handed over by `Frame::from_parts`,
/// its delay by `Delay::from_numer_denom_ms`.
///
/// Trusted: the outcome, the bytes or a failure, is a function of the loop
/// setting, the frames and the offset alone, named `gif_stream`: the encoder
/// reads nothing else, and the buffer that it writes to does not fail.
/// Nothing is claimed of when the encoder succeeds. Of the bytes only this:
/// the encoder writes the signature before the first frame, and its drop
/// writes the trailer, so a stream that comes back is whole. As for every
/// allocation, memory is taken to be there.
#[verifier::external_body]
fn write_gif(looping: LoopCount, frames: &Vec<TimedFrame>, left: u32, top: u32) -> (written: Result<
    Vec<u8>,
    ImageError,
>)
    requires
        frames@.len() > 0,
        forall|i: int| 0 <= i < frames@.len() ==> fits_gif((#[trigger] frames@[i])@.image),
    ensures
        match written {
            Ok(bytes) => gif_stream(looping, frame_views(frames@), left, top) == Some(bytes@)
                && is_whole_gif(bytes@),
            Err(_) => gif_stream(looping, frame_views(frames@), left, top) is None,
        },
{
    let mut sink: Vec<u8> = Vec::new();
    let mut encoder = GifEncoder::new(&mut sink);
    let repeat = match looping {
        LoopCount::Finite(count) => Repeat::Finite(count),
        LoopCount::Infinite => Repeat::Infinite,
    };
    encoder.set_repeat(repeat)?;
    encoder.encode_frames(frames.iter().map(|f| {
        let buffer = RgbaImage::from_raw(f.canvas.width, f.canvas.height, f.canvas.pixels.clone());
        Frame::from_parts(buffer.unwrap(), left, top, Delay::from_numer_denom_ms(f.delay_ms, 1))
    }))?;
    drop(encoder);
    Ok(sink)
}

/// A delay in hundredths of a second, as a GIF carries it.
pub fn delay_units(delay_ms: u32) -> (units: u16)
    ensures
        units == delay_units_of(delay_ms as nat),
{
    let hundredths: u32 = delay_ms / 10;
    if hundredths > MAX_DELAY_UNITS as u32 {
        MAX_DELAY_UNITS
    } else {
        hundredths as u16
    }
}

/// Whether a GIF can hold the image.
pub fn canvas_fits_gif(canvas: &Canvas) -> (fits: bool)
    ensures
        fits == fits_gif(canvas@),
{
    1 <= canvas.width() && canvas.width() <= MAX_GIF_SIDE && 1 <= canvas.height()
        && canvas.height() <= MAX_GIF_SIDE
}

/// Turns the outcome of the GIF encoder into that of the library: the bytes,
/// or an `EncodeFailure`.
pub fn stream_from_written(written: Result<Vec<u8>, ImageError>) -> (stream: Result<
    Vec<u8>,
    RadarError,
>)
    ensures
        stream is Ok <==> written is Ok,
        stream matches Ok(bytes) ==> written matches Ok(given) && bytes == given,
        stream matches Err(error) ==> error == RadarError::EncodeFailure,
{
    match written {
        Ok(bytes) => Ok(bytes),
        Err(_) => Err(RadarError::EncodeFailure),
    }
}

/// Mathematical model of a [`StreamEncoder`].
pub struct EncoderView {
    pub looping: LoopCount,
    /// The frames taken so far, in the order in which they came.
    pub frames: Seq<FrameView>,
}

/// An encoder for one animation. The loop setting is given when the encoder
/// is made, before any frame; frames are taken one by one; `finish` ends the
/// stream and hands it to a sink. An encoder that is dropped before `finish`
/// leaves no trace in any sink.
pub struct StreamEncoder {
    looping: LoopCount,
    frames: Vec<TimedFrame>,
}

impl View for StreamEncoder {
    type V = EncoderView;

    closed spec fn view(&self) -> EncoderView {
        EncoderView { looping: self.looping, frames: frame_views(self.frames@) }
    }
}

impl StreamEncoder {
    /// The frames of an encoder are uniform.
    #[verifier::type_invariant]
    pub open spec fn wf(&self) -> bool {
        uniform(self@.frames)
    }

    /// An encoder without frames.
    pub fn new(looping: LoopCount) -> (encoder: StreamEncoder)
        ensures
            encoder@ == (EncoderView { looping, frames: Seq::<FrameView>::empty() }),
    {
        let encoder = StreamEncoder { looping, frames: Vec::new() };
        assert(encoder@.frames =~= Seq::<FrameView>::empty());
        encoder
    }

    pub fn looping(&self) -> (looping: LoopCount)
        ensures
            looping == self@.looping,
    {
        self.looping
    }

    /// How many frames the encoder has taken.
    pub fn frame_count(&self) -> (count: usize)
        ensures
            count == self@.frames.len(),
            uniform(self@.frames),
    {
        proof {
            use_type_invariant(self);
        }
        self.frames.len()
    }

    /// Takes the next frame. A frame that no GIF can hold, and one of another
    /// size than the first frame, is an `EncodeFailure`, which ends the
    /// encoder.
    pub fn encode_frame(self, frame: TimedFrame) -> (grown: Result<StreamEncoder, RadarError>)
        ensures
            grown is Ok <==> accepts(self@.frames, frame@),
            grown matches Ok(encoder) ==> encoder@ == (EncoderView {
                looping: self@.looping,
                frames: self@.frames.push(frame@),
            }),
            grown matches Err(error) ==> error == RadarError::EncodeFailure,
    {
        proof {
            use_type_invariant(&self);
        }
        if !canvas_fits_gif(frame.canvas()) {
            return Err(RadarError::EncodeFailure);
        }
        if self.frames.len() > 0 && !frame.canvas().same_size(self.frames[0].canvas()) {
            return Err(RadarError::EncodeFailure);
        }
        let ghost before = self@;
        let ghost held = self.frames@;
        let StreamEncoder { looping, frames } = self;
        let mut frames = frames;
        frames.push(frame);
        proof {
            let grown = frame_views(frames@);
            assert(grown =~= before.frames.push(frame@));
            assert forall|i: int| 0 <= i < grown.len() implies fits_gif(
                (#[trigger] grown[i]).image,
            ) && grown[i].image.same_size(grown[0].image) by {
                if i < held.len() {
                    assert(grown[i] == before.frames[i]);
                    assert(grown[0] == before.frames[0]);
                }
            }
        }
        Ok(StreamEncoder { looping, frames })
    }

    /// Ends the stream and appends it to `sink`. An encoder without frames is
    /// `NoFramesAvailable`, and a failure of the GIF encoder is an
    /// `EncodeFailure`; in both cases the sink stays as it was.
    pub fn finish(self, sink: &mut OutputSink) -> (done: Result<(), RadarError>)
        ensures
            uniform(self@.frames),
            match stream_of(self@.looping, self@.frames) {
                Ok(bytes) => {
                    &&& done is Ok
                    &&& is_whole_gif(bytes)
                    &&& final(sink)@.data == old(sink)@.data + bytes
                    &&& final(sink)@.position == old(sink)@.position
                },
                Err(fault) => {
                    &&& done matches Err(error)
                    &&& error@ == fault
                    &&& final(sink)@ == old(sink)@
                },
            },
    {
        proof {
            use_type_invariant(&self);
        }
        if self.frames.len() == 0 {
            return Err(RadarError::NoFramesAvailable);
        }
        assert forall|i: int| 0 <= i < self.frames@.len() implies fits_gif(
            (#[trigger] self.frames@[i])@.image,
        ) by {
            assert(self@.frames[i] == self.frames@[i]@);
        }
        match stream_from_written(write_gif(self.looping, &self.frames, 0, 0)) {
            Ok(bytes) => {
                sink.write_all(bytes.as_slice());
                Ok(())
            },
            Err(error) => Err(error),
        }
    }
}

/// Encodes a sequence into one stream and appends the stream to `sink`: the
/// loop setting first, then every frame in the order of the sequence, then
/// the end of the stream. Either the whole stream reaches the sink or nothing
/// does.
pub fn encode_sequence(sequence: &AnimationSequence, sink: &mut OutputSink) -> (done: Result<
    (),
    RadarError,
>)
    ensures
        match stream_of(LoopCount::Infinite, sequence@.frames) {
            Ok(bytes) => {
                &&& done is Ok
                &&& is_whole_gif(bytes)
                &&& final(sink)@.data == old(sink)@.data + bytes
                &&& final(sink)@.position == old(sink)@.position
            },
            Err(fault) => {
                &&& done matches Err(error)
                &&& error@ == fault
                &&& final(sink)@ == old(sink)@
            },
        },
{
    let held = sequence.frames();
    let count: usize = held.len();
    let ghost frames = sequence@.frames;
    let mut encoder = StreamEncoder::new(sequence.looping());
    let mut i: usize = 0;
    while i < count
        invariant
            i <= count,
            count == held@.len(),
            frames == frame_views(held@),
            frames == sequence@.frames,
            encoder@.looping == LoopCount::Infinite,
            encoder@.frames == frames.subrange(0, i as int),
            uniform(encoder@.frames),
        decreases count - i,
    {
        let frame = held[i].duplicate();
        let ghost taken = encoder@.frames;
        match encoder.encode_frame(frame) {
            Ok(grown) => {
                encoder = grown;
                proof {
                    assert(encoder@.frames =~= frames.subrange(0, i as int + 1));
                    assert forall|k: int| 0 <= k < encoder@.frames.len() implies fits_gif(
                        (#[trigger] encoder@.frames[k]).image,
                    ) && encoder@.frames[k].image.same_size(encoder@.frames[0].image) by {
                        if k < i {
                            assert(encoder@.frames[k] == taken[k]);
                            assert(encoder@.frames[0] == taken[0]);
                        }
                    }
                }
            },
            Err(error) => {
                proof {
                    assert(taken.len() > 0 ==> taken[0] == frames[0]);
                    assert(!(fits_gif(frames[i as int].image) && frames[i as int].image.same_size(
                        frames[0].image,
                    )));
                }
                return Err(error);
            },
        }
        i += 1;
    }
    assert(encoder@.frames =~= frames);
    encoder.finish(sink)
}

} // verus!

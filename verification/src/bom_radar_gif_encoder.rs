//! The radar loop of one product, from payloads to stream.

use vstd::prelude::*;
use crate::animation::AnimationSequence;
use crate::animation::FRAME_DELAY_MS;
use crate::animation::FrameView;
use crate::animation::LoopCount;
use crate::animation::ScanView;
use crate::animation::frame_of;
use crate::animation::framed;
use crate::animation::room_made;
use crate::assets::AssetsView;
use crate::assets::Layer;
use crate::assets::RadarAssets;
use crate::assets::ScanPayloadView;
use crate::assets::lemma_layer_arrival_order;
use crate::canvas::Canvas;
use crate::canvas::Raster;
use crate::compositor::composite;
use crate::compositor::composited;
use crate::compositor::decode;
use crate::compositor::decoded_canvas;
use crate::encoder::encode_sequence;
use crate::encoder::fits_gif;
use crate::encoder::gif_stream;
use crate::encoder::uniform;
use crate::encoder::is_whole_gif;
use crate::encoder::delay_units_of;
use crate::encoder::stream_of;
use crate::error::Fault;
use crate::error::RadarError;
use crate::selector::as_ints;
use crate::selector::lemma_matching_positions;
use crate::selector::lemma_selection_is_most_recent;
use crate::selector::lemma_selection_keeps_order;
use crate::selector::lemma_selection_length;
use crate::selector::select_positions;
use crate::selector::select_recent;
use crate::selector::selection;
use crate::selector::matching;
use crate::selector::names_of;
use crate::selector::MAX_FRAMES;
use crate::sink::OutputSink;
use crate::sink::SinkView;

verus! {

/// The image of one layer of a product: a missing payload is a
/// `RetrievalFailure` that names the layer's file, one that does not decode
/// is a `DecodeFailure`.
pub open spec fn loaded(prod_id: Seq<char>, assets: AssetsView, layer: Layer) -> Result<
    Raster,
    Fault,
> {
    match assets.layer(layer) {
        None => Err(Fault::RetrievalFailure { name: layer.file_name_of(prod_id) }),
        Some(bytes) => match decoded_canvas(bytes) {
            Some(image) => Ok(image),
            None => Err(Fault::DecodeFailure),
        },
    }
}

/// The canvas after one more layer has been laid over it. A failure so far
/// stays; a layer of another size than the canvas is a `DimensionMismatch`
/// that names the layer's file.
pub open spec fn overlaid(
    prod_id: Seq<char>,
    assets: AssetsView,
    below: Result<Raster, Fault>,
    layer: Layer,
) -> Result<Raster, Fault> {
    match below {
        Err(fault) => Err(fault),
        Ok(canvas) => match loaded(prod_id, assets, layer) {
            Err(fault) => Err(fault),
            Ok(image) => if image.same_size(canvas) {
                Ok(composited(canvas, image))
            } else {
                Err(Fault::DimensionMismatch { name: layer.file_name_of(prod_id) })
            },
        },
    }
}

/// The static base of a product: the background, then catchments,
/// topography, waterways and locations, each laid over what is below it.
pub open spec fn static_base(prod_id: Seq<char>, assets: AssetsView) -> Result<Raster, Fault> {
    let background = loaded(prod_id, assets, Layer::Background);
    let catchments = overlaid(prod_id, assets, background, Layer::Catchments);
    let topography = overlaid(prod_id, assets, catchments, Layer::Topography);
    let waterways = overlaid(prod_id, assets, topography, Layer::Waterways);
    overlaid(prod_id, assets, waterways, Layer::Locations)
}

/// The scan payloads that are shown: the most recent `MAX_FRAMES` whose names
/// match the product, oldest first.
pub open spec fn chosen_scans(scans: AssetsView, token: Seq<char>) -> Seq<ScanPayloadView> {
    let positions = selection(scans.scan_names(), token);
    Seq::new(positions.len(), |k: int| scans.scans[positions[k]])
}

/// The frames for a list of scan payloads over a static base, in the order
/// of the list. The first payload that does not decode, or whose image has
/// another size than the base, fails the whole list.
pub open spec fn frames_from(base: Raster, scans: Seq<ScanPayloadView>) -> Result<
    Seq<FrameView>,
    Fault,
>
    decreases scans.len(),
{
    if scans.len() == 0 {
        Ok(Seq::empty())
    } else {
        match frames_from(base, scans.drop_last()) {
            Err(fault) => Err(fault),
            Ok(frames) => match decoded_canvas(scans.last().bytes) {
                None => Err(Fault::DecodeFailure),
                Some(image) => framed(base, frames, ScanView { name: scans.last().name, image }),
            },
        }
    }
}

/// The stream of a radar loop: the static base, then one frame for each
/// chosen scan, then the encoding. Where no scan is chosen there are no
/// frames, which is `NoFramesAvailable`.
pub open spec fn rendered(prod_id: Seq<char>, token: Seq<char>, assets: AssetsView) -> Result<
    Seq<u8>,
    Fault,
> {
    match static_base(prod_id, assets) {
        Err(fault) => Err(fault),
        Ok(base) => match frames_from(base, chosen_scans(assets, token)) {
            Err(fault) => Err(fault),
            Ok(frames) => stream_of(LoopCount::Infinite, frames),
        },
    }
}

/// Once the first payloads of a list fail, the whole list fails in the same
/// way.
pub proof fn lemma_frames_failure_stays(base: Raster, scans: Seq<ScanPayloadView>, count: int)
    requires
        0 <= count <= scans.len(),
        frames_from(base, scans.subrange(0, count)) is Err,
    ensures
        frames_from(base, scans) == frames_from(base, scans.subrange(0, count)),
    decreases scans.len() - count,
{
    if count < scans.len() {
        let longer = scans.subrange(0, count + 1);
        assert(longer.drop_last() =~= scans.subrange(0, count));
        lemma_frames_failure_stays(base, scans, count + 1);
    } else {
        assert(scans.subrange(0, count) =~= scans);
    }
}

/// What the frames of a list of scan payloads are, where there are any: one
/// frame for each payload, in the order of the list; each frame is its scan
/// laid over the static base, has the size of the base, and is shown for
/// `FRAME_DELAY_MS`, which is 40 hundredths of a second.
pub proof fn lemma_frames(base: Raster, scans: Seq<ScanPayloadView>)
    requires
        base.wf(),
    ensures
        frames_from(base, scans) matches Ok(frames) ==> {
            &&& frames.len() == scans.len()
            &&& forall|i: int|
                0 <= i < frames.len() ==> {
                    &&& (#[trigger] frames[i]).image.same_size(base)
                    &&& frames[i].image.wf()
                    &&& frames[i].delay_ms == FRAME_DELAY_MS
                    &&& delay_units_of(frames[i].delay_ms) == 40
                    &&& decoded_canvas(scans[i].bytes) matches Some(image) && frames[i].image
                        == composited(base, image)
                }
        },
    decreases scans.len(),
{
    if scans.len() > 0 {
        let earlier = scans.drop_last();
        lemma_frames(base, earlier);
        match frames_from(base, scans) {
            Ok(frames) => {
                let before = frames_from(base, earlier)->Ok_0;
                assert forall|i: int| 0 <= i < frames.len() implies {
                    &&& (#[trigger] frames[i]).image.same_size(base)
                    &&& frames[i].image.wf()
                    &&& frames[i].delay_ms == FRAME_DELAY_MS
                    &&& delay_units_of(frames[i].delay_ms) == 40
                    &&& decoded_canvas(scans[i].bytes) matches Some(image) && frames[i].image
                        == composited(base, image)
                } by {
                    if i < before.len() {
                        assert(frames[i] == before[i]);
                        assert(earlier[i] == scans[i]);
                    }
                }
            },
            Err(_) => {},
        }
    }
}

/// The payload decodes to an image of the size of the base.
pub open spec fn fits_base(base: Raster, scan: ScanPayloadView) -> bool {
    decoded_canvas(scan.bytes) matches Some(image) && image.same_size(base)
}

/// Payloads that all decode to images of the size of the base give frames.
pub proof fn lemma_frames_succeed(base: Raster, scans: Seq<ScanPayloadView>)
    requires
        forall|j: int|
            0 <= j < scans.len() ==> fits_base(base, #[trigger] scans[j]),
    ensures
        frames_from(base, scans) is Ok,
    decreases scans.len(),
{
    if scans.len() > 0 {
        let earlier = scans.drop_last();
        assert forall|j: int| 0 <= j < earlier.len() implies fits_base(
            base,
            #[trigger] earlier[j],
        ) by {
            assert(earlier[j] == scans[j]);
        }
        lemma_frames_succeed(base, earlier);
        assert(scans.last() == scans[scans.len() - 1]);
    }
}

/// A scan of another size than the base fails the request with a
/// `DimensionMismatch` that names it, if every scan before it is in order.
pub proof fn lemma_first_mismatch_fails(base: Raster, scans: Seq<ScanPayloadView>, at: int)
    requires
        0 <= at < scans.len(),
        forall|j: int|
            0 <= j < at ==> fits_base(base, #[trigger] scans[j]),
        decoded_canvas(scans[at].bytes) matches Some(image) && !image.same_size(base),
    ensures
        frames_from(base, scans) == Err::<Seq<FrameView>, Fault>(
            Fault::DimensionMismatch { name: scans[at].name },
        ),
{
    let upto = scans.subrange(0, at + 1);
    let earlier = upto.drop_last();
    assert forall|j: int| 0 <= j < earlier.len() implies fits_base(base, #[trigger] earlier[j]) by {
        assert(earlier[j] == scans[j]);
    }
    lemma_frames_succeed(base, earlier);
    assert(upto.last() == scans[at]);
    lemma_frames_failure_stays(base, scans, at + 1);
}

/// The chosen scans keep the order of the payloads. Whatever strict order the
/// payloads' names are sorted by (for scan files, the order of their
/// timestamps), the chosen scans, and so the frames, ascend strictly by it.
pub proof fn lemma_chosen_scans_keep_order(
    assets: AssetsView,
    token: Seq<char>,
    before: spec_fn(Seq<char>, Seq<char>) -> bool,
)
    requires
        forall|i: int, j: int|
            0 <= i < j < assets.scans.len() ==> before(
                assets.scans[i].name,
                assets.scans[j].name,
            ),
    ensures
        ({
            let chosen = chosen_scans(assets, token);
            forall|j: int, k: int|
                #![trigger chosen[j], chosen[k]]
                0 <= j < k < chosen.len() ==> before(chosen[j].name, chosen[k].name)
        }),
{
    let names = assets.scan_names();
    let positions = selection(names, token);
    let chosen = chosen_scans(assets, token);
    lemma_selection_keeps_order(names, token, before);
    lemma_matching_positions(names, token);
    lemma_selection_is_most_recent(names, token);
    assert forall|j: int, k: int|
        #![trigger chosen[j], chosen[k]]
        0 <= j < k < chosen.len() implies before(chosen[j].name, chosen[k].name) by {
        let all = matching(names, token);
        let shift = all.len() - positions.len();
        assert(positions[j] == all[shift + j]);
        assert(positions[k] == all[shift + k]);
        assert(0 <= all[shift + j] < names.len());
        assert(0 <= all[shift + k] < names.len());
        assert(before(names[positions[j]], names[positions[k]]));
    }
}

/// The number of frames of a radar loop that succeeds: as many as there are
/// scans of the product among the payloads, up to `MAX_FRAMES`.
pub proof fn lemma_frame_count(base: Raster, assets: AssetsView, token: Seq<char>)
    requires
        base.wf(),
    ensures
        frames_from(base, chosen_scans(assets, token)) matches Ok(frames) ==> frames.len() == if matching(
            assets.scan_names(),
            token,
        ).len() <= MAX_FRAMES {
            matching(assets.scan_names(), token).len()
        } else {
            MAX_FRAMES as nat
        },
{
    lemma_frames(base, chosen_scans(assets, token));
    lemma_selection_length(assets.scan_names(), token);
}

/// Laying one more layer over a well-formed canvas gives a well-formed
/// canvas.
pub proof fn lemma_overlaid_wf(
    prod_id: Seq<char>,
    assets: AssetsView,
    below: Result<Raster, Fault>,
    layer: Layer,
)
    requires
        below matches Ok(canvas) ==> canvas.wf(),
    ensures
        overlaid(prod_id, assets, below, layer) matches Ok(canvas) ==> canvas.wf(),
{
}

/// A static base holds four bytes for each of its pixels.
pub proof fn lemma_static_base_wf(prod_id: Seq<char>, assets: AssetsView)
    ensures
        static_base(prod_id, assets) matches Ok(base) ==> base.wf(),
{
    let background = loaded(prod_id, assets, Layer::Background);
    let catchments = overlaid(prod_id, assets, background, Layer::Catchments);
    let topography = overlaid(prod_id, assets, catchments, Layer::Topography);
    let waterways = overlaid(prod_id, assets, topography, Layer::Waterways);
    lemma_overlaid_wf(prod_id, assets, background, Layer::Catchments);
    lemma_overlaid_wf(prod_id, assets, catchments, Layer::Topography);
    lemma_overlaid_wf(prod_id, assets, topography, Layer::Waterways);
    lemma_overlaid_wf(prod_id, assets, waterways, Layer::Locations);
}

/// What the stream of a request is made of. Let the layers give a static
/// base that a GIF can hold, let at least one payload be a scan of the
/// product, and let every chosen scan decode to an image of the size of the
/// base. Then nothing fails before the frames are encoded, the frames are
/// uniform, and the outcome of the request is that of the GIF encoder on
/// these frames: as many as there are scans of the product among the
/// payloads, `MAX_FRAMES` at most; the last of them, each used once and in
/// the order of the payloads, so that the first frame shows the oldest of
/// them and the last frame the newest. Each frame is its scan laid over the
/// static base.
pub proof fn lemma_rendered_frames(prod_id: Seq<char>, token: Seq<char>, assets: AssetsView)
    requires
        static_base(prod_id, assets) is Ok,
        fits_gif(static_base(prod_id, assets)->Ok_0),
        matching(assets.scan_names(), token).len() >= 1,
        forall|k: int|
            0 <= k < chosen_scans(assets, token).len() ==> fits_base(
                static_base(prod_id, assets)->Ok_0,
                #[trigger] chosen_scans(assets, token)[k],
            ),
    ensures
        ({
            let base = static_base(prod_id, assets)->Ok_0;
            let all = matching(assets.scan_names(), token);
            let positions = selection(assets.scan_names(), token);
            &&& frames_from(base, chosen_scans(assets, token)) matches Ok(frames)
            &&& frames.len() == positions.len()
            &&& positions.len() == if all.len() <= MAX_FRAMES {
                all.len()
            } else {
                MAX_FRAMES as nat
            }
            &&& forall|i: int|
                0 <= i < positions.len() ==> {
                    &&& #[trigger] positions[i] == all[all.len() - positions.len() + i]
                    &&& 0 <= positions[i] < assets.scans.len()
                    &&& decoded_canvas(assets.scans[positions[i]].bytes) is Some
                    &&& frames[i] == frame_of(
                        base,
                        decoded_canvas(assets.scans[positions[i]].bytes)->Some_0,
                    )
                }
            &&& forall|i: int, j: int|
                0 <= i < j < positions.len() ==> #[trigger] positions[i] < #[trigger] positions[j]
            &&& frames.len() >= 1
            &&& uniform(frames)
            &&& rendered(prod_id, token, assets) == stream_of(LoopCount::Infinite, frames)
            &&& rendered(prod_id, token, assets) == match gif_stream(
                LoopCount::Infinite,
                frames,
                0,
                0,
            ) {
                Some(bytes) => Ok::<Seq<u8>, Fault>(bytes),
                None => Err::<Seq<u8>, Fault>(Fault::EncodeFailure),
            }
        }),
{
    let base = static_base(prod_id, assets)->Ok_0;
    let names = assets.scan_names();
    let all = matching(names, token);
    let positions = selection(names, token);
    let chosen = chosen_scans(assets, token);
    lemma_static_base_wf(prod_id, assets);
    lemma_matching_positions(names, token);
    lemma_selection_length(names, token);
    lemma_selection_is_most_recent(names, token);
    lemma_frames_succeed(base, chosen);
    lemma_frames(base, chosen);
    let frames = frames_from(base, chosen)->Ok_0;
    let first = all.len() - positions.len();
    assert(frames.len() == positions.len());
    assert forall|i: int| 0 <= i < positions.len() implies {
        &&& #[trigger] positions[i] == all[all.len() - positions.len() + i]
        &&& 0 <= positions[i] < assets.scans.len()
        &&& decoded_canvas(assets.scans[positions[i]].bytes) is Some
        &&& frames[i] == frame_of(base, decoded_canvas(assets.scans[positions[i]].bytes)->Some_0)
    } by {
        assert(positions[i] == all[first + i]);
        assert(0 <= all[first + i] < names.len());
        assert(chosen[i] == assets.scans[positions[i]]);
        assert(fits_base(base, chosen[i]));
        assert(frames[i].delay_ms == FRAME_DELAY_MS);
        assert(frames[i].image == composited(base, decoded_canvas(chosen[i].bytes)->Some_0));
    }
    assert forall|i: int, j: int| 0 <= i < j < positions.len() implies #[trigger] positions[i]
        < #[trigger] positions[j] by {
        assert(positions[i] == all[first + i]);
        assert(positions[j] == all[first + j]);
        assert(all[first + i] < all[first + j]);
    }
    assert(uniform(frames)) by {
        assert forall|i: int| 0 <= i < frames.len() implies fits_gif((#[trigger] frames[i]).image)
            && frames[i].image.same_size(frames[0].image) by {
            assert(frames[i].image.same_size(base));
            assert(frames[0].image.same_size(base));
        }
    }
    assert(frames.len() > 0);
    assert(rendered(prod_id, token, assets) == stream_of(LoopCount::Infinite, frames));
}

/// The stream depends on the payloads alone, not on the order in which the
/// layers arrived: two different layers put in place either way round give
/// the same stream, or the same failure.
pub proof fn lemma_stacking_ignores_arrival_order(
    prod_id: Seq<char>,
    token: Seq<char>,
    assets: AssetsView,
    first: Layer,
    first_bytes: Seq<u8>,
    second: Layer,
    second_bytes: Seq<u8>,
)
    requires
        first != second,
    ensures
        rendered(
            prod_id,
            token,
            assets.with_layer(first, first_bytes).with_layer(second, second_bytes),
        ) == rendered(
            prod_id,
            token,
            assets.with_layer(second, second_bytes).with_layer(first, first_bytes),
        ),
{
    lemma_layer_arrival_order(assets, first, first_bytes, second, second_bytes);
}

/// Mathematical model of a [`BomRadarGifEncoder`].
pub struct RadarView {
    /// The product whose map layers are used.
    pub prod_id: Seq<char>,
    /// The token by which the product's scan files are recognised.
    pub prod_id_2: Seq<char>,
    /// The directory that the stream is stored in.
    pub temp_files_dir: Seq<char>,
    /// The encoded bytes.
    pub gif_data: SinkView,
}

/// Builds the radar loop of one product and keeps the encoded stream.
pub struct BomRadarGifEncoder {
    prod_id: String,
    prod_id_2: String,
    gif_data: OutputSink,
    temp_files_dir: String,
}

impl View for BomRadarGifEncoder {
    type V = RadarView;

    closed spec fn view(&self) -> RadarView {
        RadarView {
            prod_id: self.prod_id@,
            prod_id_2: self.prod_id_2@,
            temp_files_dir: self.temp_files_dir@,
            gif_data: self.gif_data@,
        }
    }
}

/// The image of one layer of a product.
fn load_layer(prod_id: &str, assets: &RadarAssets, layer: Layer) -> (made: Result<
    Canvas,
    RadarError,
>)
    ensures
        match made {
            Ok(canvas) => loaded(prod_id@, assets@, layer) == Ok::<Raster, Fault>(canvas@),
            Err(error) => loaded(prod_id@, assets@, layer) == Err::<Raster, Fault>(error@),
        },
{
    match assets.layer(layer) {
        None => Err(RadarError::RetrievalFailure { name: layer.file_name(prod_id) }),
        Some(bytes) => decode(bytes.as_slice()),
    }
}

/// Lays one more layer of a product over the canvas.
fn add_layer(prod_id: &str, assets: &RadarAssets, below: Canvas, layer: Layer) -> (made: Result<
    Canvas,
    RadarError,
>)
    ensures
        match made {
            Ok(canvas) => overlaid(prod_id@, assets@, Ok(below@), layer) == Ok::<Raster, Fault>(
                canvas@,
            ),
            Err(error) => overlaid(prod_id@, assets@, Ok(below@), layer) == Err::<Raster, Fault>(
                error@,
            ),
        },
{
    let image = match load_layer(prod_id, assets, layer) {
        Ok(image) => image,
        Err(error) => {
            return Err(error);
        },
    };
    if !image.same_size(&below) {
        return Err(RadarError::DimensionMismatch { name: layer.file_name(prod_id) });
    }
    let mut canvas = below;
    match composite(&mut canvas, &image, layer.file_name(prod_id).as_str()) {
        Ok(()) => Ok(canvas),
        Err(error) => Err(error),
    }
}

/// The static base of a product: its five layers, stacked in their fixed
/// order.
pub fn compose_static_base(prod_id: &str, assets: &RadarAssets) -> (made: Result<
    Canvas,
    RadarError,
>)
    ensures
        match made {
            Ok(canvas) => static_base(prod_id@, assets@) == Ok::<Raster, Fault>(canvas@),
            Err(error) => static_base(prod_id@, assets@) == Err::<Raster, Fault>(error@),
        },
{
    let background = match load_layer(prod_id, assets, Layer::Background) {
        Ok(canvas) => canvas,
        Err(error) => {
            return Err(error);
        },
    };
    let catchments = match add_layer(prod_id, assets, background, Layer::Catchments) {
        Ok(canvas) => canvas,
        Err(error) => {
            return Err(error);
        },
    };
    let topography = match add_layer(prod_id, assets, catchments, Layer::Topography) {
        Ok(canvas) => canvas,
        Err(error) => {
            return Err(error);
        },
    };
    let waterways = match add_layer(prod_id, assets, topography, Layer::Waterways) {
        Ok(canvas) => canvas,
        Err(error) => {
            return Err(error);
        },
    };
    add_layer(prod_id, assets, waterways, Layer::Locations)
}

/// The frames of a product's radar loop over a static base: one for each
/// chosen scan, oldest first.
pub fn assemble_chosen(base: Canvas, assets: &RadarAssets, token: &str) -> (made: Result<
    AnimationSequence,
    RadarError,
>)
    ensures
        base@.wf(),
        match made {
            Ok(sequence) => {
                &&& sequence@.base == base@
                &&& sequence@.wf()
                &&& frames_from(base@, chosen_scans(assets@, token@)) == Ok::<Seq<FrameView>, Fault>(
                    sequence@.frames,
                )
            },
            Err(error) => frames_from(base@, chosen_scans(assets@, token@)) == Err::<
                Seq<FrameView>,
                Fault,
            >(error@),
        },
{
    proof {
        use_type_invariant(&base);
    }
    let scans = assets.scans();
    let names = assets.scan_names();
    let positions = select_positions(&names, token);
    let ghost chosen = chosen_scans(assets@, token@);
    proof {
        assert(chosen.len() == positions@.len());
        assert forall|k: int| 0 <= k < positions@.len() implies chosen[k] == assets@.scans[positions@[k] as int]
        by {
            assert(as_ints(positions@)[k] == positions@[k]);
        }
        assert(names@.len() == assets@.scans.len()) by {
            assert(names_of(names@).len() == assets@.scan_names().len());
        }
    }
    let mut sequence = AnimationSequence::new(base);
    let mut k: usize = 0;
    while k < positions.len()
        invariant
            k <= positions@.len() <= MAX_FRAMES,
            scans@.len() == assets@.scans.len(),
            forall|j: int| 0 <= j < scans@.len() ==> (#[trigger] scans@[j])@ == assets@.scans[j],
            chosen == chosen_scans(assets@, token@),
            chosen.len() == positions@.len(),
            forall|j: int|
                0 <= j < positions@.len() ==> (#[trigger] positions@[j]) < assets@.scans.len()
                    && chosen[j] == assets@.scans[positions@[j] as int],
            sequence@.base == base@,
            sequence@.wf(),
            sequence@.frames.len() == k,
            frames_from(base@, chosen.subrange(0, k as int)) == Ok::<Seq<FrameView>, Fault>(
                sequence@.frames,
            ),
        decreases positions@.len() - k,
    {
        let ghost seen = chosen.subrange(0, k as int + 1);
        let ghost frames = sequence@.frames;
        proof {
            assert(seen.drop_last() =~= chosen.subrange(0, k as int));
            assert(seen.last() == chosen[k as int]);
        }
        let payload = &scans[positions[k]];
        proof {
            assert(payload@ == seen.last());
            assert(frames_from(base@, seen) == match decoded_canvas(seen.last().bytes) {
                None => Err::<Seq<FrameView>, Fault>(Fault::DecodeFailure),
                Some(image) => framed(base@, frames, ScanView { name: seen.last().name, image }),
            });
        }
        let image = match decode(payload.bytes.as_slice()) {
            Ok(image) => image,
            Err(error) => {
                proof {
                    lemma_frames_failure_stays(base@, chosen, k as int + 1);
                }
                return Err(error);
            },
        };
        match sequence.with_scan(payload.name.as_str(), &image) {
            Ok(grown) => {
                sequence = grown;
                assert(room_made(frames) == frames);
            },
            Err(error) => {
                proof {
                    lemma_frames_failure_stays(base@, chosen, k as int + 1);
                }
                return Err(error);
            },
        }
        k += 1;
    }
    assert(chosen.subrange(0, chosen.len() as int) =~= chosen);
    Ok(sequence)
}

impl BomRadarGifEncoder {
    /// An encoder for the product `prod_id`, whose scan files are recognised
    /// by `prod_id_2`, with nothing encoded yet. The stream will be stored
    /// under `temp_files_dir`.
    pub fn new(prod_id: String, prod_id_2: String, temp_files_dir: String) -> (encoder:
        BomRadarGifEncoder)
        ensures
            encoder@ == (RadarView {
                prod_id: prod_id@,
                prod_id_2: prod_id_2@,
                temp_files_dir: temp_files_dir@,
                gif_data: SinkView { data: Seq::empty(), position: 0 },
            }),
    {
        BomRadarGifEncoder { prod_id, prod_id_2, gif_data: OutputSink::new(), temp_files_dir }
    }

    pub fn prod_id(&self) -> (prod_id: &str)
        ensures
            prod_id@ == self@.prod_id,
    {
        self.prod_id.as_str()
    }

    pub fn prod_id_2(&self) -> (prod_id_2: &str)
        ensures
            prod_id_2@ == self@.prod_id_2,
    {
        self.prod_id_2.as_str()
    }

    /// The name of the file that holds a layer of the product.
    pub fn layer_file_name(&self, layer: Layer) -> (name: String)
        ensures
            name@ == layer.file_name_of(self@.prod_id),
    {
        layer.file_name(self.prod_id.as_str())
    }

    /// The names of the scans to fetch from a listing of the scan directory:
    /// the most recent `MAX_FRAMES` scans of the product, oldest first, or
    /// `NoFramesAvailable` where the listing holds none.
    pub fn select_scans(&self, listing: &Vec<String>) -> (chosen: Result<Vec<String>, RadarError>)
        ensures
            chosen is Err <==> matching(names_of(listing@), self@.prod_id_2).len() == 0,
            chosen matches Err(error) ==> error == RadarError::NoFramesAvailable,
            chosen matches Ok(names) ==> {
                let positions = selection(names_of(listing@), self@.prod_id_2);
                &&& names@.len() == positions.len()
                &&& forall|k: int|
                    0 <= k < names@.len() ==> #[trigger] names@[k]@ == listing@[positions[k]]@
            },
    {
        select_recent(listing, self.prod_id_2.as_str())
    }

    /// Builds the radar loop from the payloads and appends the encoded stream
    /// to what this encoder holds. The layers are stacked in their fixed
    /// order whatever the order of their arrival; the scans are those that
    /// `select_scans` chooses among the payloads' names. The first failure
    /// ends the work, and then the encoder holds what it held before.
    pub fn make_gif(&mut self, assets: &RadarAssets) -> (done: Result<(), RadarError>)
        ensures
            final(self)@.prod_id == old(self)@.prod_id,
            final(self)@.prod_id_2 == old(self)@.prod_id_2,
            final(self)@.temp_files_dir == old(self)@.temp_files_dir,
            match rendered(old(self)@.prod_id, old(self)@.prod_id_2, assets@) {
                Ok(bytes) => {
                    &&& done is Ok
                    &&& is_whole_gif(bytes)
                    &&& final(self)@.gif_data.data == old(self)@.gif_data.data + bytes
                    &&& final(self)@.gif_data.position == old(self)@.gif_data.position
                },
                Err(fault) => {
                    &&& done matches Err(error)
                    &&& error@ == fault
                    &&& final(self)@.gif_data == old(self)@.gif_data
                },
            },
    {
        let base = match compose_static_base(self.prod_id.as_str(), assets) {
            Ok(canvas) => canvas,
            Err(error) => {
                return Err(error);
            },
        };
        let sequence = match assemble_chosen(base, assets, self.prod_id_2.as_str()) {
            Ok(sequence) => sequence,
            Err(error) => {
                return Err(error);
            },
        };
        encode_sequence(&sequence, &mut self.gif_data)
    }

    /// The whole encoded stream, read from its first byte. The encoder keeps
    /// the stream, so that it can be read again.
    pub fn write_radar_gif(&mut self) -> (stream: Vec<u8>)
        ensures
            stream@ == old(self)@.gif_data.data,
            final(self)@.gif_data.data == old(self)@.gif_data.data,
            final(self)@.gif_data.position == old(self)@.gif_data.data.len(),
            final(self)@.prod_id == old(self)@.prod_id,
            final(self)@.prod_id_2 == old(self)@.prod_id_2,
            final(self)@.temp_files_dir == old(self)@.temp_files_dir,
    {
        self.gif_data.drain()
    }

    /// Where the stream is stored: the file `radar.gif` under the directory
    /// that the encoder was made with.
    pub fn radar_gif_path(&self) -> (path: String)
        ensures
            path@ == self@.temp_files_dir + "radar.gif"@,
    {
        self.temp_files_dir.clone().concat("radar.gif")
    }

    /// The media type of the stream.
    pub fn content_type() -> (media_type: &'static str)
        ensures
            media_type@ == "image/gif"@,
    {
        "image/gif"
    }
}

} // verus!

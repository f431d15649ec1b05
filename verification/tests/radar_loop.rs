use bom_radar_rs::animation::{assemble, AnimationSequence, LoopCount, ScanFrame, TimedFrame, FRAME_DELAY_MS};
use bom_radar_rs::assets::{Layer, RadarAssets};
use bom_radar_rs::bom_radar_gif_encoder::{assemble_chosen, compose_static_base, BomRadarGifEncoder};
use bom_radar_rs::canvas::Canvas;
use bom_radar_rs::encoder::{
    canvas_fits_gif, delay_units, encode_sequence, stream_from_written, StreamEncoder,
    MAX_DELAY_UNITS, MAX_GIF_SIDE,
};
use bom_radar_rs::error::RadarError;
use bom_radar_rs::sink::OutputSink;
use image::AnimationDecoder;
use std::io::Cursor;

const CLEAR: [u8; 4] = [0, 0, 0, 0];
const SEA: [u8; 4] = [10, 40, 90, 255];

struct GifInfo {
    width: u16,
    height: u16,
    loop_count: Option<u16>,
    delays: Vec<u16>,
    frames: Vec<(u16, u16, u16, u16)>,
    ended: bool,
}

fn le16(bytes: &[u8], at: usize) -> u16 {
    u16::from_le_bytes([bytes[at], bytes[at + 1]])
}

fn table_len(flags: u8) -> usize {
    if flags & 0x80 != 0 {
        3 * (1usize << ((flags & 7) + 1))
    } else {
        0
    }
}

fn skip_blocks(bytes: &[u8], mut at: usize) -> usize {
    while bytes[at] != 0 {
        at += 1 + bytes[at] as usize;
    }
    at + 1
}

fn parse_gif(bytes: &[u8]) -> GifInfo {
    assert_eq!(&bytes[0..6], b"GIF89a");
    let mut info = GifInfo {
        width: le16(bytes, 6),
        height: le16(bytes, 8),
        loop_count: None,
        delays: Vec::new(),
        frames: Vec::new(),
        ended: false,
    };
    let mut at = 13 + table_len(bytes[10]);
    while at < bytes.len() {
        match bytes[at] {
            0x21 => {
                let label = bytes[at + 1];
                at += 2;
                if label == 0xF9 {
                    assert_eq!(bytes[at], 4);
                    info.delays.push(le16(bytes, at + 2));
                }
                if label == 0xFF && &bytes[at + 1..at + 12] == b"NETSCAPE2.0" {
                    assert_eq!(bytes[at + 12], 3);
                    assert_eq!(bytes[at + 13], 1);
                    info.loop_count = Some(le16(bytes, at + 14));
                }
                at = skip_blocks(bytes, at);
            }
            0x2C => {
                info.frames.push((
                    le16(bytes, at + 1),
                    le16(bytes, at + 3),
                    le16(bytes, at + 5),
                    le16(bytes, at + 7),
                ));
                at += 10 + table_len(bytes[at + 9]);
                at = skip_blocks(bytes, at + 1);
            }
            0x3B => {
                info.ended = at + 1 == bytes.len();
                return info;
            }
            other => panic!("unknown block {}", other),
        }
    }
    info
}

fn decoded_frames(bytes: &[u8]) -> Vec<image::Frame> {
    image::codecs::gif::GifDecoder::new(Cursor::new(bytes))
        .unwrap()
        .into_frames()
        .collect_frames()
        .unwrap()
}

fn image_of(width: u32, height: u32, fill: [u8; 4], marks: &[(u32, u32, [u8; 4])]) -> image::RgbaImage {
    let mut image = image::RgbaImage::from_pixel(width, height, image::Rgba(fill));
    for (x, y, rgba) in marks {
        image.put_pixel(*x, *y, image::Rgba(*rgba));
    }
    image
}

fn png_of(width: u32, height: u32, fill: [u8; 4], marks: &[(u32, u32, [u8; 4])]) -> Vec<u8> {
    let mut bytes: Vec<u8> = Vec::new();
    image::DynamicImage::ImageRgba8(image_of(width, height, fill, marks))
        .write_to(&mut Cursor::new(&mut bytes), image::ImageOutputFormat::Png)
        .unwrap();
    bytes
}

fn canvas_of(width: u32, height: u32, fill: [u8; 4], marks: &[(u32, u32, [u8; 4])]) -> Canvas {
    Canvas::from_raw(width, height, image_of(width, height, fill, marks).into_raw()).unwrap()
}

fn overlay_mark(layer: Layer) -> (u32, u32, [u8; 4]) {
    match layer {
        Layer::Background => (0, 0, SEA),
        Layer::Catchments => (1, 1, [200, 0, 0, 255]),
        Layer::Topography => (2, 2, [0, 200, 0, 255]),
        Layer::Waterways => (3, 3, [0, 0, 200, 255]),
        Layer::Locations => (4, 4, [200, 200, 0, 255]),
    }
}

fn layer_png(layer: Layer, side: u32) -> Vec<u8> {
    match layer {
        Layer::Background => png_of(side, side, SEA, &[]),
        other => png_of(side, side, CLEAR, &[overlay_mark(other)]),
    }
}

const LAYERS: [Layer; 5] = [
    Layer::Background,
    Layer::Catchments,
    Layer::Topography,
    Layer::Waterways,
    Layer::Locations,
];

#[test]
fn layers_stack_from_the_background_up() {
    assert_eq!(Layer::stack(), LAYERS);
}

fn scan_name(i: u32) -> String {
    format!("IDR71B.T.2023060813{:02}.png", i)
}

fn scan_color(i: u32) -> [u8; 4] {
    [250, 10 + 20 * i as u8, 250, 255]
}

fn scan_png(i: u32, side: u32) -> Vec<u8> {
    png_of(side, side, CLEAR, &[((10 + i) % side, 20 % side, scan_color(i))])
}

fn assets_with(side: u32, scans: u32) -> RadarAssets {
    let mut assets = RadarAssets::new();
    for layer in LAYERS {
        assets.put_layer(layer, layer_png(layer, side));
    }
    for i in 0..scans {
        assets.push_scan(scan_name(i), scan_png(i, side));
    }
    assets
}

fn radar() -> BomRadarGifEncoder {
    BomRadarGifEncoder::new("IDR713".to_string(), "IDR71B".to_string(), "/tmp/radar/".to_string())
}

#[test]
fn nine_scans_give_the_last_seven_frames() {
    let mut radar = radar();
    assert_eq!(radar.make_gif(&assets_with(64, 9)), Ok(()));
    let stream = radar.write_radar_gif();
    let info = parse_gif(&stream);
    assert_eq!((info.width, info.height), (64, 64));
    assert_eq!(info.loop_count, Some(0));
    assert_eq!(info.delays, vec![40; 7]);
    assert_eq!(info.frames, vec![(0, 0, 64, 64); 7]);
    assert!(info.ended);
    let frames = decoded_frames(&stream);
    assert_eq!(frames.len(), 7);
    for (k, frame) in frames.iter().enumerate() {
        let shown = k as u32 + 2;
        let buffer = frame.buffer();
        assert_eq!(buffer.dimensions(), (64, 64));
        assert_eq!(frame.delay().numer_denom_ms(), (400, 1));
        assert_eq!(buffer.get_pixel(10 + shown, 20).0, scan_color(shown));
        for other in 0..9u32 {
            if other != shown {
                assert_eq!(buffer.get_pixel(10 + other, 20).0, SEA);
            }
        }
        assert_eq!(buffer.get_pixel(0, 0).0, SEA);
        for layer in LAYERS {
            let (x, y, rgba) = overlay_mark(layer);
            assert_eq!(buffer.get_pixel(x, y).0, rgba);
        }
    }
}

#[test]
fn no_matching_scan_is_no_frames_available() {
    let mut assets = assets_with(64, 0);
    assets.push_scan("IDR713.T.202306081319.png".to_string(), scan_png(0, 64));
    assets.push_scan("IDR71B.T.202306081319.txt".to_string(), scan_png(1, 64));
    let mut radar = radar();
    assert_eq!(radar.make_gif(&assets), Err(RadarError::NoFramesAvailable));
    assert_eq!(radar.write_radar_gif(), Vec::<u8>::new());
    assert_eq!(radar.make_gif(&assets_with(64, 0)), Err(RadarError::NoFramesAvailable));
    assert_eq!(radar.write_radar_gif(), Vec::<u8>::new());
}

#[test]
fn a_scan_of_another_size_is_a_dimension_mismatch() {
    let mut assets = assets_with(64, 3);
    assets.push_scan(scan_name(3), scan_png(3, 32));
    assets.push_scan(scan_name(4), scan_png(4, 64));
    let mut radar = radar();
    assert_eq!(
        radar.make_gif(&assets),
        Err(RadarError::DimensionMismatch { name: scan_name(3) })
    );
    assert_eq!(radar.write_radar_gif(), Vec::<u8>::new());
}

#[test]
fn frame_count_is_the_smaller_of_scan_count_and_seven() {
    for scans in 1..11u32 {
        let mut radar = radar();
        assert_eq!(radar.make_gif(&assets_with(16, scans)), Ok(()));
        let info = parse_gif(&radar.write_radar_gif());
        assert_eq!(info.frames.len() as u32, scans.min(7));
        assert_eq!(info.delays.len() as u32, scans.min(7));
    }
}

#[test]
fn only_chosen_scans_are_decoded() {
    let mut assets = assets_with(32, 0);
    assets.push_scan(scan_name(0), b"broken".to_vec());
    assets.push_scan("notes.txt".to_string(), b"broken".to_vec());
    for i in 1..8 {
        assets.push_scan(scan_name(i), scan_png(i, 32));
    }
    let mut radar = radar();
    assert_eq!(radar.make_gif(&assets), Ok(()));
    assert_eq!(parse_gif(&radar.write_radar_gif()).frames.len(), 7);
}

#[test]
fn a_chosen_scan_that_does_not_decode_fails_the_request() {
    let mut assets = assets_with(32, 2);
    assets.push_scan(scan_name(2), b"broken".to_vec());
    assets.push_scan(scan_name(3), scan_png(3, 16));
    let mut radar = radar();
    assert_eq!(radar.make_gif(&assets), Err(RadarError::DecodeFailure));
    assert_eq!(radar.write_radar_gif(), Vec::<u8>::new());
}

#[test]
fn layers_stack_the_same_in_any_arrival_order() {
    let orders: [[usize; 5]; 4] = [[0, 1, 2, 3, 4], [4, 3, 2, 1, 0], [2, 0, 4, 1, 3], [1, 4, 0, 3, 2]];
    let mut streams: Vec<Vec<u8>> = Vec::new();
    for order in orders {
        let mut assets = RadarAssets::new();
        for i in 0..3 {
            assets.push_scan(scan_name(i), scan_png(i, 32));
        }
        for at in order {
            let layer = LAYERS[at];
            let fill = [40 * at as u8, 0, 0, if at == 0 { 255 } else { 120 }];
            assets.put_layer(layer, png_of(32, 32, fill, &[]));
        }
        let mut radar = radar();
        assert_eq!(radar.make_gif(&assets), Ok(()));
        streams.push(radar.write_radar_gif());
    }
    assert!(!streams[0].is_empty());
    for stream in &streams {
        assert_eq!(stream, &streams[0]);
    }
}

#[test]
fn static_base_stacks_layers_in_their_fixed_order() {
    let mut assets = RadarAssets::new();
    assets.put_layer(Layer::Locations, png_of(2, 2, [5, 5, 5, 255], &[(1, 1, CLEAR)]));
    assets.put_layer(Layer::Waterways, png_of(2, 2, [4, 4, 4, 255], &[(1, 0, CLEAR), (0, 1, CLEAR)]));
    assets.put_layer(Layer::Topography, png_of(2, 2, [3, 3, 3, 255], &[]));
    assets.put_layer(Layer::Catchments, png_of(2, 2, [2, 2, 2, 255], &[]));
    assets.put_layer(Layer::Background, png_of(2, 2, [1, 1, 1, 255], &[]));
    let base = compose_static_base("IDR713", &assets).unwrap();
    assert_eq!(base.pixel(0, 0), Some([5, 5, 5, 255]));
    assert_eq!(base.pixel(1, 0), Some([5, 5, 5, 255]));
    assert_eq!(base.pixel(1, 1), Some([4, 4, 4, 255]));
    assets.put_layer(Layer::Locations, png_of(2, 2, CLEAR, &[]));
    let base = compose_static_base("IDR713", &assets).unwrap();
    assert_eq!(base.pixel(0, 0), Some([4, 4, 4, 255]));
    assert_eq!(base.pixel(1, 0), Some([3, 3, 3, 255]));
    assert_eq!(base.pixel(0, 1), Some([3, 3, 3, 255]));
}

#[test]
fn a_missing_layer_is_a_retrieval_failure() {
    let mut assets = RadarAssets::new();
    assets.push_scan(scan_name(0), scan_png(0, 16));
    let mut radar = radar();
    assert_eq!(
        radar.make_gif(&assets),
        Err(RadarError::RetrievalFailure { name: "IDR713.background.png".to_string() })
    );
    assets.put_layer(Layer::Background, layer_png(Layer::Background, 16));
    assets.put_layer(Layer::Locations, layer_png(Layer::Locations, 16));
    assets.put_layer(Layer::Catchments, layer_png(Layer::Catchments, 16));
    assert_eq!(
        radar.make_gif(&assets),
        Err(RadarError::RetrievalFailure { name: "IDR713.topography.png".to_string() })
    );
    assert_eq!(radar.write_radar_gif(), Vec::<u8>::new());
}

#[test]
fn a_layer_that_does_not_decode_or_fit_fails_the_request() {
    let mut assets = assets_with(16, 2);
    assets.put_layer(Layer::Waterways, Vec::new());
    let mut radar = radar();
    assert_eq!(radar.make_gif(&assets), Err(RadarError::DecodeFailure));
    assets.put_layer(Layer::Waterways, layer_png(Layer::Waterways, 8));
    assert_eq!(
        radar.make_gif(&assets),
        Err(RadarError::DimensionMismatch { name: "IDR713.waterways.png".to_string() })
    );
    assets.put_layer(Layer::Waterways, layer_png(Layer::Waterways, 32));
    assert_eq!(
        radar.make_gif(&assets),
        Err(RadarError::DimensionMismatch { name: "IDR713.waterways.png".to_string() })
    );
    assert_eq!(radar.write_radar_gif(), Vec::<u8>::new());
}

#[test]
fn the_stream_is_kept_and_can_be_read_again() {
    let mut radar = radar();
    assert_eq!(radar.make_gif(&assets_with(16, 2)), Ok(()));
    let first = radar.write_radar_gif();
    let second = radar.write_radar_gif();
    assert!(!first.is_empty());
    assert_eq!(first, second);
    assert_eq!(&first[0..6], b"GIF89a");
    assert_eq!(*first.last().unwrap(), 0x3B);
}

#[test]
fn a_failure_leaves_the_earlier_stream_alone() {
    let mut radar = radar();
    assert_eq!(radar.make_gif(&assets_with(16, 2)), Ok(()));
    let first = radar.write_radar_gif();
    assert_eq!(radar.make_gif(&assets_with(16, 0)), Err(RadarError::NoFramesAvailable));
    assert_eq!(radar.write_radar_gif(), first);
    assert_eq!(radar.make_gif(&assets_with(16, 2)), Ok(()));
    let both = radar.write_radar_gif();
    assert_eq!(both.len(), 2 * first.len());
    assert_eq!(&both[..first.len()], &first[..]);
    assert_eq!(&both[first.len()..], &first[..]);
}

#[test]
fn the_same_inputs_give_the_same_stream() {
    let mut one = radar();
    let mut two = radar();
    assert_eq!(one.make_gif(&assets_with(24, 5)), Ok(()));
    assert_eq!(two.make_gif(&assets_with(24, 5)), Ok(()));
    assert_eq!(one.write_radar_gif(), two.write_radar_gif());
}

#[test]
fn names_and_paths_of_a_product() {
    let radar = radar();
    assert_eq!(radar.prod_id(), "IDR713");
    assert_eq!(radar.prod_id_2(), "IDR71B");
    assert_eq!(radar.layer_file_name(Layer::Background), "IDR713.background.png");
    assert_eq!(radar.layer_file_name(Layer::Catchments), "IDR713.catchments.png");
    assert_eq!(radar.layer_file_name(Layer::Topography), "IDR713.topography.png");
    assert_eq!(radar.layer_file_name(Layer::Waterways), "IDR713.waterways.png");
    assert_eq!(radar.layer_file_name(Layer::Locations), "IDR713.locations.png");
    assert_eq!(Layer::Waterways.label(), "waterways");
    assert_eq!(Layer::Locations.file_name("IDR023"), "IDR023.locations.png");
    assert_eq!(radar.radar_gif_path(), "/tmp/radar/radar.gif");
    assert_eq!(BomRadarGifEncoder::content_type(), "image/gif");
}

#[test]
fn select_scans_uses_the_second_id() {
    let radar = radar();
    let listing: Vec<String> = vec![
        "IDR713.T.202306081319.png".to_string(),
        "IDR71B.T.202306081319.png".to_string(),
        "IDR71B.T.202306081324.png".to_string(),
    ];
    assert_eq!(
        radar.select_scans(&listing),
        Ok(vec!["IDR71B.T.202306081319.png".to_string(), "IDR71B.T.202306081324.png".to_string()])
    );
    assert_eq!(
        radar.select_scans(&vec!["IDR713.T.202306081319.png".to_string()]),
        Err(RadarError::NoFramesAvailable)
    );
}

#[test]
fn assets_hold_what_was_put() {
    let mut assets = RadarAssets::new();
    assert_eq!(assets.layer(Layer::Topography), None);
    assert_eq!(assets.scan_count(), 0);
    assert!(assets.scan(0).is_none());
    assets.put_layer(Layer::Topography, vec![1, 2]);
    assets.put_layer(Layer::Topography, vec![3]);
    assets.push_scan("a.png".to_string(), vec![7]);
    assets.push_scan("b.png".to_string(), vec![8, 9]);
    assert_eq!(assets.layer(Layer::Topography), Some(&vec![3u8]));
    assert_eq!(assets.layer(Layer::Background), None);
    assert_eq!(assets.scan_count(), 2);
    assert_eq!(assets.scan(1).unwrap().name, "b.png");
    assert_eq!(assets.scan(1).unwrap().bytes, vec![8, 9]);
    assert_eq!(assets.scan_names(), vec!["a.png".to_string(), "b.png".to_string()]);
    assert_eq!(assets.scans().len(), 2);
    assert_eq!(assets.scans()[0].name, "a.png");
    assert_eq!(assets.scans()[0].bytes, vec![7]);
}

#[test]
fn delay_is_counted_in_hundredths() {
    assert_eq!(FRAME_DELAY_MS, 400);
    assert_eq!(delay_units(FRAME_DELAY_MS), 40);
    assert_eq!(delay_units(0), 0);
    assert_eq!(delay_units(9), 0);
    assert_eq!(delay_units(10), 1);
    assert_eq!(delay_units(405), 40);
    assert_eq!(delay_units(655_350), 65535);
    assert_eq!(delay_units(655_360), MAX_DELAY_UNITS);
    assert_eq!(delay_units(u32::MAX), 65535);
}

#[test]
fn a_gif_holds_sides_from_one_to_65535() {
    assert_eq!(MAX_GIF_SIDE, 65535);
    assert!(canvas_fits_gif(&canvas_of(1, 1, SEA, &[])));
    assert!(canvas_fits_gif(&Canvas::from_raw(65535, 1, vec![0u8; 4 * 65535]).unwrap()));
    assert!(!canvas_fits_gif(&Canvas::from_raw(65536, 1, vec![0u8; 4 * 65536]).unwrap()));
    assert!(!canvas_fits_gif(&Canvas::from_raw(1, 65536, vec![0u8; 4 * 65536]).unwrap()));
    assert!(!canvas_fits_gif(&Canvas::from_raw(0, 3, Vec::new()).unwrap()));
    assert!(!canvas_fits_gif(&Canvas::from_raw(3, 0, Vec::new()).unwrap()));
}

#[test]
fn assemble_gives_one_frame_per_scan_in_order() {
    let base = canvas_of(4, 4, SEA, &[]);
    let mut scans: Vec<ScanFrame> = Vec::new();
    for i in 0..3u32 {
        scans.push(ScanFrame { name: scan_name(i), image: canvas_of(4, 4, CLEAR, &[(i, 0, scan_color(i))]) });
    }
    let sequence = assemble(base, &scans).unwrap();
    assert_eq!(sequence.len(), 3);
    assert_eq!(sequence.frames().len(), 3);
    assert_eq!(sequence.frames()[2].canvas().pixel(2, 0), Some(scan_color(2)));
    assert_eq!(sequence.looping(), LoopCount::Infinite);
    assert_eq!(sequence.base().pixel(0, 0), Some(SEA));
    assert!(sequence.frame(3).is_none());
    for i in 0..3u32 {
        let frame = sequence.frame(i as usize).unwrap();
        assert_eq!(frame.delay_ms(), 400);
        assert_eq!((frame.canvas().width(), frame.canvas().height()), (4, 4));
        for x in 0..3u32 {
            let expected = if x == i { scan_color(i) } else { SEA };
            assert_eq!(frame.canvas().pixel(x, 0), Some(expected));
        }
    }
}

#[test]
fn assemble_of_no_scans_is_an_empty_sequence() {
    let sequence = assemble(canvas_of(4, 4, SEA, &[]), &Vec::new()).unwrap();
    assert_eq!(sequence.len(), 0);
    assert!(sequence.frame(0).is_none());
}

#[test]
fn assemble_uses_the_last_seven_scans() {
    let mut scans: Vec<ScanFrame> = Vec::new();
    scans.push(ScanFrame { name: scan_name(0), image: canvas_of(2, 2, CLEAR, &[]) });
    for i in 1..10u32 {
        scans.push(ScanFrame { name: scan_name(i), image: canvas_of(16, 1, CLEAR, &[(i, 0, scan_color(i))]) });
    }
    let sequence = assemble(canvas_of(16, 1, SEA, &[]), &scans).unwrap();
    assert_eq!(sequence.len(), 7);
    for k in 0..7u32 {
        assert_eq!(sequence.frame(k as usize).unwrap().canvas().pixel(k + 3, 0), Some(scan_color(k + 3)));
    }
}

#[test]
fn assemble_names_the_first_scan_of_another_size() {
    let mut scans: Vec<ScanFrame> = Vec::new();
    scans.push(ScanFrame { name: "a.png".to_string(), image: canvas_of(4, 4, CLEAR, &[]) });
    scans.push(ScanFrame { name: "b.png".to_string(), image: canvas_of(4, 3, CLEAR, &[]) });
    scans.push(ScanFrame { name: "c.png".to_string(), image: canvas_of(5, 4, CLEAR, &[]) });
    assert_eq!(
        assemble(canvas_of(4, 4, SEA, &[]), &scans).err(),
        Some(RadarError::DimensionMismatch { name: "b.png".to_string() })
    );
    scans.remove(1);
    assert_eq!(
        assemble(canvas_of(4, 4, SEA, &[]), &scans).err(),
        Some(RadarError::DimensionMismatch { name: "c.png".to_string() })
    );
    scans.remove(1);
    assert!(assemble(canvas_of(4, 4, SEA, &[]), &scans).is_ok());
    assert_eq!(
        assemble(canvas_of(8, 8, SEA, &[]), &scans).err(),
        Some(RadarError::DimensionMismatch { name: "a.png".to_string() })
    );
}

#[test]
fn a_full_sequence_lets_go_of_its_oldest_frame() {
    let mut sequence = AnimationSequence::new(canvas_of(16, 1, SEA, &[]));
    for i in 0..9u32 {
        let image = canvas_of(16, 1, CLEAR, &[(i, 0, scan_color(i))]);
        sequence = sequence.with_scan(&scan_name(i), &image).unwrap();
        assert_eq!(sequence.len() as u32, (i + 1).min(7));
    }
    assert_eq!(sequence.frame(0).unwrap().canvas().pixel(2, 0), Some(scan_color(2)));
    assert_eq!(sequence.frame(6).unwrap().canvas().pixel(8, 0), Some(scan_color(8)));
    let small = canvas_of(15, 1, CLEAR, &[]);
    assert_eq!(
        sequence.with_scan("small.png", &small).err(),
        Some(RadarError::DimensionMismatch { name: "small.png".to_string() })
    );
}

#[test]
fn frames_do_not_leak_into_one_another() {
    let assets = {
        let mut assets = assets_with(32, 0);
        assets.push_scan(scan_name(0), png_of(32, 32, CLEAR, &[(5, 5, [255, 0, 0, 255])]));
        assets.push_scan(scan_name(1), png_of(32, 32, CLEAR, &[(6, 6, [0, 255, 0, 255])]));
        assets
    };
    let base = compose_static_base("IDR713", &assets).unwrap();
    let sequence = assemble_chosen(base, &assets, "IDR71B").unwrap();
    assert_eq!(sequence.len(), 2);
    assert_eq!(sequence.frame(0).unwrap().canvas().pixel(5, 5), Some([255, 0, 0, 255]));
    assert_eq!(sequence.frame(0).unwrap().canvas().pixel(6, 6), Some(SEA));
    assert_eq!(sequence.frame(1).unwrap().canvas().pixel(5, 5), Some(SEA));
    assert_eq!(sequence.frame(1).unwrap().canvas().pixel(6, 6), Some([0, 255, 0, 255]));
    assert_eq!(sequence.base().pixel(5, 5), Some(SEA));
    assert_eq!(sequence.base().pixel(6, 6), Some(SEA));
}

#[test]
fn encoder_takes_frames_of_one_size() {
    let encoder = StreamEncoder::new(LoopCount::Finite(3));
    assert_eq!(encoder.looping(), LoopCount::Finite(3));
    assert_eq!(encoder.frame_count(), 0);
    let encoder = encoder.encode_frame(TimedFrame::new(canvas_of(3, 2, SEA, &[]), 100)).unwrap();
    let encoder = encoder.encode_frame(TimedFrame::new(canvas_of(3, 2, CLEAR, &[]), 250)).unwrap();
    assert_eq!(encoder.frame_count(), 2);
    let mut sink = OutputSink::new();
    sink.write_all(&[7, 7]);
    assert_eq!(encoder.finish(&mut sink), Ok(()));
    let stream = sink.drain();
    assert_eq!(&stream[..2], &[7, 7]);
    let info = parse_gif(&stream[2..]);
    assert_eq!((info.width, info.height), (3, 2));
    assert_eq!(info.loop_count, Some(3));
    assert_eq!(info.delays, vec![10, 25]);
    assert_eq!(info.frames, vec![(0, 0, 3, 2); 2]);
    assert!(info.ended);
}

#[test]
fn encoder_refuses_a_frame_of_another_size() {
    let encoder = StreamEncoder::new(LoopCount::Infinite);
    let encoder = encoder.encode_frame(TimedFrame::new(canvas_of(3, 2, SEA, &[]), 400)).unwrap();
    assert_eq!(
        encoder.encode_frame(TimedFrame::new(canvas_of(2, 3, SEA, &[]), 400)).err(),
        Some(RadarError::EncodeFailure)
    );
}

#[test]
fn encoder_refuses_frames_that_no_gif_holds() {
    let empty = TimedFrame::new(Canvas::from_raw(0, 0, Vec::new()).unwrap(), 400);
    assert_eq!(
        StreamEncoder::new(LoopCount::Infinite).encode_frame(empty).err(),
        Some(RadarError::EncodeFailure)
    );
    let wide = TimedFrame::new(Canvas::from_raw(65536, 1, vec![0u8; 4 * 65536]).unwrap(), 400);
    assert_eq!(
        StreamEncoder::new(LoopCount::Infinite).encode_frame(wide).err(),
        Some(RadarError::EncodeFailure)
    );
}

#[test]
fn encoder_without_frames_writes_nothing() {
    let mut sink = OutputSink::new();
    sink.write_all(&[1]);
    assert_eq!(
        StreamEncoder::new(LoopCount::Infinite).finish(&mut sink),
        Err(RadarError::NoFramesAvailable)
    );
    assert_eq!(sink.drain(), vec![1]);
    let empty = AnimationSequence::new(canvas_of(4, 4, SEA, &[]));
    assert_eq!(encode_sequence(&empty, &mut sink), Err(RadarError::NoFramesAvailable));
    assert_eq!(sink.drain(), vec![1]);
}

#[test]
fn a_sequence_round_trips_through_the_stream() {
    let mut scans: Vec<ScanFrame> = Vec::new();
    for i in 0..4u32 {
        scans.push(ScanFrame { name: scan_name(i), image: canvas_of(8, 8, CLEAR, &[(i, i, scan_color(i))]) });
    }
    let sequence = assemble(canvas_of(8, 8, SEA, &[]), &scans).unwrap();
    let mut sink = OutputSink::new();
    assert_eq!(encode_sequence(&sequence, &mut sink), Ok(()));
    let stream = sink.drain();
    let info = parse_gif(&stream);
    assert_eq!(info.frames.len(), sequence.len());
    assert_eq!(info.loop_count, Some(0));
    assert!(info.ended);
    let frames = decoded_frames(&stream);
    assert_eq!(frames.len(), sequence.len());
    for (k, frame) in frames.iter().enumerate() {
        let kept = sequence.frame(k).unwrap();
        assert_eq!(info.delays[k], delay_units(kept.delay_ms()));
        assert_eq!(frame.delay().numer_denom_ms(), (kept.delay_ms(), 1));
        assert_eq!(frame.buffer().as_raw(), kept.canvas().as_raw());
    }
}

#[test]
fn an_oversized_sequence_is_an_encode_failure() {
    let base = Canvas::from_raw(65536, 1, vec![255u8; 4 * 65536]).unwrap();
    let scans = vec![ScanFrame {
        name: "wide.png".to_string(),
        image: Canvas::from_raw(65536, 1, vec![0u8; 4 * 65536]).unwrap(),
    }];
    let sequence = assemble(base, &scans).unwrap();
    let mut sink = OutputSink::new();
    assert_eq!(encode_sequence(&sequence, &mut sink), Err(RadarError::EncodeFailure));
    assert_eq!(sink.len(), 0);
}

#[test]
fn the_encoder_outcome_maps_to_the_library_error() {
    assert_eq!(stream_from_written(Ok(vec![1, 2, 3])), Ok(vec![1, 2, 3]));
    let failed = image::ImageError::IoError(std::io::Error::new(std::io::ErrorKind::Other, "x"));
    assert_eq!(stream_from_written(Err(failed)), Err(RadarError::EncodeFailure));
}

#[test]
fn timed_frames_copy_independently() {
    let frame = TimedFrame::new(canvas_of(2, 2, SEA, &[]), 400);
    let copy = frame.duplicate();
    assert_eq!(copy.delay_ms(), 400);
    assert_eq!(copy.canvas().as_raw(), frame.canvas().as_raw());
}

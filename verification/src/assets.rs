//! What a request is made from: the payloads of the static map layers, each
//! under the name of its layer, and the payloads of the scan images, in the
//! order of the directory listing.

use vstd::prelude::*;
use crate::selector::names_of;

verus! {

/// The static layers of a radar map. They are stacked in the order in which
/// they are declared here, the background lowest.
#[derive(Clone, Copy, Debug, PartialEq, Eq)]
pub enum Layer {
    Background,
    Catchments,
    Topography,
    Waterways,
    Locations,
}

impl Layer {
    /// The word for this layer in file names.
    pub open spec fn label_of(self) -> Seq<char> {
        match self {
            Layer::Background => "background"@,
            Layer::Catchments => "catchments"@,
            Layer::Topography => "topography"@,
            Layer::Waterways => "waterways"@,
            Layer::Locations => "locations"@,
        }
    }

    /// The name of the file that holds this layer of a product: the
    /// product's id, the layer's label and the extension, joined by dots.
    pub open spec fn file_name_of(self, prod_id: Seq<char>) -> Seq<char> {
        prod_id + "."@ + self.label_of() + ".png"@
    }

    /// The layers from the lowest to the highest.
    pub open spec fn stack_of() -> Seq<Layer> {
        seq![
            Layer::Background,
            Layer::Catchments,
            Layer::Topography,
            Layer::Waterways,
            Layer::Locations,
        ]
    }

    /// The layers from the lowest to the highest.
    pub fn stack() -> (layers: [Layer; 5])
        ensures
            layers@ == Layer::stack_of(),
    {
        let layers = [
            Layer::Background,
            Layer::Catchments,
            Layer::Topography,
            Layer::Waterways,
            Layer::Locations,
        ];
        assert(layers@ =~= Layer::stack_of());
        layers
    }

    /// The word for this layer in file names.
    pub fn label(&self) -> (label: &'static str)
        ensures
            label@ == self.label_of(),
    {
        match self {
            Layer::Background => "background",
            Layer::Catchments => "catchments",
            Layer::Topography => "topography",
            Layer::Waterways => "waterways",
            Layer::Locations => "locations",
        }
    }

    /// The name of the file that holds this layer of a product.
    pub fn file_name(&self, prod_id: &str) -> (name: String)
        ensures
            name@ == self.file_name_of(prod_id@),
    {
        String::from_str(prod_id).concat(".").concat(self.label()).concat(".png")
    }
}

/// Mathematical model of a [`ScanPayload`].
pub struct ScanPayloadView {
    pub name: Seq<char>,
    pub bytes: Seq<u8>,
}

/// The payload of one file of the scan directory, under the file's name.
pub struct ScanPayload {
    pub name: String,
    pub bytes: Vec<u8>,
}

impl View for ScanPayload {
    type V = ScanPayloadView;

    open spec fn view(&self) -> ScanPayloadView {
        ScanPayloadView { name: self.name@, bytes: self.bytes@ }
    }
}

/// Mathematical model of [`RadarAssets`].
pub struct AssetsView {
    pub background: Option<Seq<u8>>,
    pub catchments: Option<Seq<u8>>,
    pub topography: Option<Seq<u8>>,
    pub waterways: Option<Seq<u8>>,
    pub locations: Option<Seq<u8>>,
    /// The scan payloads, in the order in which they were added.
    pub scans: Seq<ScanPayloadView>,
}

impl AssetsView {
    /// The payload of a layer, if it has arrived.
    pub open spec fn layer(self, layer: Layer) -> Option<Seq<u8>> {
        match layer {
            Layer::Background => self.background,
            Layer::Catchments => self.catchments,
            Layer::Topography => self.topography,
            Layer::Waterways => self.waterways,
            Layer::Locations => self.locations,
        }
    }

    /// These assets with the payload of one layer put in its place.
    pub open spec fn with_layer(self, layer: Layer, bytes: Seq<u8>) -> AssetsView {
        match layer {
            Layer::Background => AssetsView { background: Some(bytes), ..self },
            Layer::Catchments => AssetsView { catchments: Some(bytes), ..self },
            Layer::Topography => AssetsView { topography: Some(bytes), ..self },
            Layer::Waterways => AssetsView { waterways: Some(bytes), ..self },
            Layer::Locations => AssetsView { locations: Some(bytes), ..self },
        }
    }

    /// These assets with one more scan payload at the end.
    pub open spec fn with_scan(self, name: Seq<char>, bytes: Seq<u8>) -> AssetsView {
        AssetsView { scans: self.scans.push(ScanPayloadView { name, bytes }), ..self }
    }

    /// The names of the scan payloads, in their order.
    pub open spec fn scan_names(self) -> Seq<Seq<char>> {
        Seq::new(self.scans.len(), |i: int| self.scans[i].name)
    }
}

/// The payloads that one request works on.
pub struct RadarAssets {
    background: Option<Vec<u8>>,
    catchments: Option<Vec<u8>>,
    topography: Option<Vec<u8>>,
    waterways: Option<Vec<u8>>,
    locations: Option<Vec<u8>>,
    scans: Vec<ScanPayload>,
}

/// The bytes of a payload that may be missing.
pub open spec fn payload_view(payload: Option<Vec<u8>>) -> Option<Seq<u8>> {
    match payload {
        Some(bytes) => Some(bytes@),
        None => None,
    }
}

impl View for RadarAssets {
    type V = AssetsView;

    closed spec fn view(&self) -> AssetsView {
        AssetsView {
            background: payload_view(self.background),
            catchments: payload_view(self.catchments),
            topography: payload_view(self.topography),
            waterways: payload_view(self.waterways),
            locations: payload_view(self.locations),
            scans: Seq::new(self.scans@.len(), |i: int| self.scans@[i]@),
        }
    }
}

impl RadarAssets {
    /// No layers and no scans.
    pub fn new() -> (assets: RadarAssets)
        ensures
            assets@ == (AssetsView {
                background: None,
                catchments: None,
                topography: None,
                waterways: None,
                locations: None,
                scans: Seq::empty(),
            }),
    {
        let assets = RadarAssets {
            background: None,
            catchments: None,
            topography: None,
            waterways: None,
            locations: None,
            scans: Vec::new(),
        };
        assert(assets@.scans =~= Seq::<ScanPayloadView>::empty());
        assets
    }

    /// Puts the payload of a layer in its place, whenever it arrives. A
    /// payload that was there before is replaced.
    pub fn put_layer(&mut self, layer: Layer, bytes: Vec<u8>)
        ensures
            final(self)@ == old(self)@.with_layer(layer, bytes@),
    {
        match layer {
            Layer::Background => {
                self.background = Some(bytes);
            },
            Layer::Catchments => {
                self.catchments = Some(bytes);
            },
            Layer::Topography => {
                self.topography = Some(bytes);
            },
            Layer::Waterways => {
                self.waterways = Some(bytes);
            },
            Layer::Locations => {
                self.locations = Some(bytes);
            },
        }
    }

    /// Adds the payload of a scan file behind those added before.
    pub fn push_scan(&mut self, name: String, bytes: Vec<u8>)
        ensures
            final(self)@ == old(self)@.with_scan(name@, bytes@),
    {
        self.scans.push(ScanPayload { name, bytes });
        assert(self@.scans =~= old(self)@.scans.push(ScanPayloadView { name: name@, bytes: bytes@ }));
    }

    /// The payload of a layer, if it has arrived.
    pub fn layer(&self, layer: Layer) -> (payload: Option<&Vec<u8>>)
        ensures
            payload is Some <==> self@.layer(layer) is Some,
            payload matches Some(bytes) ==> self@.layer(layer) == Some(bytes@),
    {
        match layer {
            Layer::Background => self.background.as_ref(),
            Layer::Catchments => self.catchments.as_ref(),
            Layer::Topography => self.topography.as_ref(),
            Layer::Waterways => self.waterways.as_ref(),
            Layer::Locations => self.locations.as_ref(),
        }
    }

    /// How many scan payloads there are.
    pub fn scan_count(&self) -> (count: usize)
        ensures
            count == self@.scans.len(),
    {
        self.scans.len()
    }

    /// The scan payload at position `i`.
    pub fn scan(&self, i: usize) -> (payload: Option<&ScanPayload>)
        ensures
            payload is Some <==> i < self@.scans.len(),
            payload matches Some(found) ==> found@ == self@.scans[i as int],
    {
        if i < self.scans.len() {
            Some(&self.scans[i])
        } else {
            None
        }
    }

    /// The scan payloads, in their order.
    pub fn scans(&self) -> (scans: &Vec<ScanPayload>)
        ensures
            scans@.len() == self@.scans.len(),
            forall|i: int| 0 <= i < scans@.len() ==> (#[trigger] scans@[i])@ == self@.scans[i],
    {
        &self.scans
    }

    /// The names of the scan payloads, in their order.
    pub fn scan_names(&self) -> (names: Vec<String>)
        ensures
            names_of(names@) == self@.scan_names(),
    {
        let mut names: Vec<String> = Vec::new();
        let mut i: usize = 0;
        while i < self.scans.len()
            invariant
                i <= self.scans.len(),
                names@.len() == i,
                forall|k: int| 0 <= k < i ==> (#[trigger] names@[k])@ == self.scans@[k].name@,
            decreases self.scans.len() - i,
        {
            names.push(self.scans[i].name.clone());
            i += 1;
        }
        assert(names_of(names@) =~= self@.scan_names());
        names
    }
}

/// The order in which layers arrive does not matter: putting two different
/// layers in place gives the same assets either way round.
pub proof fn lemma_layer_arrival_order(
    assets: AssetsView,
    first: Layer,
    first_bytes: Seq<u8>,
    second: Layer,
    second_bytes: Seq<u8>,
)
    requires
        first != second,
    ensures
        assets.with_layer(first, first_bytes).with_layer(second, second_bytes) == assets.with_layer(
            second,
            second_bytes,
        ).with_layer(first, first_bytes),
{
}

/// Putting a layer in place changes that layer's payload and nothing else.
pub proof fn lemma_with_layer(assets: AssetsView, layer: Layer, bytes: Seq<u8>, other: Layer)
    ensures
        assets.with_layer(layer, bytes).layer(layer) == Some(bytes),
        other != layer ==> assets.with_layer(layer, bytes).layer(other) == assets.layer(other),
        assets.with_layer(layer, bytes).scans == assets.scans,
{
}

} // verus!

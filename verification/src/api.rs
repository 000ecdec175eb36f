//! What the viewer's endpoints answer, apart from the transport: the layer
//! list, toggling a layer, loading an uploaded stream, and their errors.
use vstd::prelude::*;
use crate::cell::{LayerInfo, LayerView, Layout, LayoutView, has_layer};
use crate::parser::{GdsParser, Outcome, finished_layout, parse_outcome};
use crate::reader::GdsReader;
use crate::text::{decimal, push_decimal};

verus! {

pub const STATUS_BAD_REQUEST: u16 = 400;
pub const STATUS_NOT_FOUND: u16 = 404;
pub const STATUS_SERVICE_UNAVAILABLE: u16 = 503;

/// An error answer: an HTTP status and the text of its `error` field.
#[derive(Debug, Clone, PartialEq)]
pub struct ApiError {
    pub status: u16,
    pub message: String,
}

/// A layer as the client sees it.
#[derive(Debug, Clone, PartialEq)]
pub struct LayerDto {
    pub id: u16,
    pub name: String,
    pub color: String,
    pub visible: bool,
}

impl View for LayerDto {
    type V = LayerView;

    open spec fn view(&self) -> LayerView {
        LayerView { id: self.id, name: self.name@, color: self.color@, visible: self.visible }
    }
}

impl<'a> From<&'a LayerInfo> for LayerDto {
    fn from(info: &'a LayerInfo) -> (d: LayerDto) {
        LayerDto {
            id: info.id,
            name: info.name.clone(),
            color: info.color.clone(),
            visible: info.visible,
        }
    }
}

impl<'a> vstd::std_specs::convert::FromSpecImpl<&'a LayerInfo> for LayerDto {
    open spec fn obeys_from_spec() -> bool {
        true
    }

    open spec fn from_spec(info: &'a LayerInfo) -> LayerDto {
        LayerDto { id: info.id, name: info.name, color: info.color, visible: info.visible }
    }
}

/// The layers after flipping the visibility of layer `id`.
pub open spec fn toggled(layers: Seq<LayerView>, id: u16) -> Seq<LayerView> {
    layers.map_values(|l: LayerView| if l.id == id { LayerView { visible: !l.visible, ..l } } else { l })
}

pub open spec fn no_layout_message() -> Seq<char> {
    "No layout loaded"@
}

pub open spec fn no_file_message() -> Seq<char> {
    "no file in request"@
}

pub open spec fn missing_layer_message(id: u16) -> Seq<char> {
    "Layer "@ + decimal(id as nat) + " not found"@
}

/// The answer to a request that needs a layout, made before any was
/// loaded (the layer endpoints and the viewport query).
pub fn no_layout() -> (e: ApiError)
    ensures
        e.status == STATUS_SERVICE_UNAVAILABLE,
        e.message@ == no_layout_message(),
{
    ApiError { status: STATUS_SERVICE_UNAVAILABLE, message: String::from_str("No layout loaded") }
}

/// The layers of the loaded layout, by increasing id.
pub fn get_layers(layout: Option<&Layout>) -> (r: Result<Vec<LayerDto>, ApiError>)
    requires
        layout matches Some(l) ==> l.wf(),
    ensures
        match layout {
            None => r matches Err(e) && e.status == STATUS_SERVICE_UNAVAILABLE && e.message@
                == no_layout_message(),
            Some(l) => r matches Ok(v) && v@.map_values(|d: LayerDto| d@) == l@.layers,
        },
{
    match layout {
        None => Err(no_layout()),
        Some(l) => {
            let layers = l.layers();
            let mut out: Vec<LayerDto> = Vec::new();
            let mut i: usize = 0;
            while i < layers.len()
                invariant
                    i <= layers@.len(),
                    layers@.map_values(|x: LayerInfo| x@) == l@.layers,
                    out@.len() == i,
                    forall|j: int| 0 <= j < i ==> #[trigger] out@[j]@ == l@.layers[j],
                decreases layers@.len() - i,
            {
                let d = LayerDto::from(&layers[i]);
                assert(d@ == layers@[i as int]@);
                assert(l@.layers[i as int] == layers@[i as int]@);
                out.push(d);
                i = i + 1;
            }
            assert(out@.map_values(|d: LayerDto| d@) =~= l@.layers);
            Ok(out)
        },
    }
}

impl Layout {
    /// Flips the visibility of layer `id`; returns the layer as it is now,
    /// or `None` (and changes nothing) where there is no layer `id`.
    pub fn toggle_layer(&mut self, id: u16) -> (r: Option<LayerDto>)
        requires
            old(self).wf(),
        ensures
            final(self).wf(),
            match r {
                Some(d) => {
                    &&& has_layer(old(self)@.layers, id)
                    &&& final(self)@ == (LayoutView { layers: toggled(old(self)@.layers, id), ..old(self)@ })
                    &&& d.id == id
                    &&& exists|i: int| 0 <= i < final(self)@.layers.len() && final(self)@.layers[i] == d@
                },
                None => !has_layer(old(self)@.layers, id) && final(self)@ == old(self)@,
            },
    {
        let ghost before = self@;
        match self.layer_index(id) {
            None => None,
            Some(k) => {
                let info = self.layer_at(k);
                let flipped = LayerInfo {
                    id: info.id,
                    name: info.name.clone(),
                    color: info.color.clone(),
                    visible: !info.visible,
                };
                let d = LayerDto {
                    id: flipped.id,
                    name: flipped.name.clone(),
                    color: flipped.color.clone(),
                    visible: flipped.visible,
                };
                self.replace_layer(k, flipped);
                proof {
                    assert(self@.layers =~= toggled(before.layers, id)) by {
                        assert forall|j: int| 0 <= j < before.layers.len() && before.layers[j].id == id
                            implies j == k by {
                            if j != k && before.layers[j].id == id {
                                if j < k {
                                    assert(before.layers[j].id < before.layers[k as int].id);
                                } else {
                                    assert(before.layers[k as int].id < before.layers[j].id);
                                }
                            }
                        }
                    }
                    assert(self@.layers[k as int] == d@);
                }
                Some(d)
            },
        }
    }
}

/// Flips the visibility of layer `id` of the loaded layout, answering with
/// the layer as it is now; an error where no layout is loaded (503) or it
/// has no layer `id` (404), and then nothing changes.
pub fn toggle_layer(layout: &mut Option<Layout>, id: u16) -> (r: Result<LayerDto, ApiError>)
    requires
        *old(layout) matches Some(l) ==> l.wf(),
    ensures
        match *old(layout) {
            None => {
                &&& *final(layout) is None
                &&& r matches Err(e) && e.status == STATUS_SERVICE_UNAVAILABLE && e.message@
                    == no_layout_message()
            },
            Some(l) => {
                &&& *final(layout) matches Some(l2)
                &&& l2.wf()
                &&& if has_layer(l@.layers, id) {
                    &&& l2@ == (LayoutView { layers: toggled(l@.layers, id), ..l@ })
                    &&& r matches Ok(d) && d.id == id && exists|i: int|
                        0 <= i < l2@.layers.len() && l2@.layers[i] == d@
                } else {
                    &&& l2@ == l@
                    &&& r matches Err(e) && e.status == STATUS_NOT_FOUND && e.message@
                        == missing_layer_message(id)
                }
            },
        },
{
    match layout.as_mut() {
        None => Err(no_layout()),
        Some(l) => match l.toggle_layer(id) {
            Some(d) => Ok(d),
            None => {
                let mut message = String::from_str("Layer ");
                push_decimal(&mut message, id as u64);
                message.append(" not found");
                Err(ApiError { status: STATUS_NOT_FOUND, message })
            },
        },
    }
}

/// Reads an uploaded stream into a layout: an error (400) where no file
/// came or the stream does not parse, with the parser's message. `None`
/// where the parser halts on a field record too short for its value.
pub fn load_layout(upload: Option<Vec<u8>>) -> (r: Option<Result<Layout, ApiError>>)
    ensures
        match upload {
            None => r matches Some(Err(e)) && e.status == STATUS_BAD_REQUEST && e.message@
                == no_file_message(),
            Some(bytes) => match parse_outcome(bytes@, 0) {
                Outcome::Parsed(p) => r matches Some(Ok(l)) && l.wf() && l@ == finished_layout(p),
                Outcome::Failed(f) => r matches Some(Err(e)) && e.status == STATUS_BAD_REQUEST
                    && e.message@ == f.message_spec(),
                Outcome::Halted => r is None,
            },
        },
{
    match upload {
        None => Some(Err(ApiError { status: STATUS_BAD_REQUEST, message: String::from_str("no file in request") })),
        Some(bytes) => {
            let parser = GdsParser::new(GdsReader::new(bytes));
            match parser.parse_checked() {
                None => None,
                Some(Ok(l)) => Some(Ok(l)),
                Some(Err(e)) => Some(Err(ApiError { status: STATUS_BAD_REQUEST, message: e.message() })),
            }
        },
    }
}

} // verus!

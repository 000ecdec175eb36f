use gds_layout::api::{
    get_layers, load_layout, no_layout, toggle_layer, LayerDto, STATUS_BAD_REQUEST, STATUS_NOT_FOUND,
    STATUS_SERVICE_UNAVAILABLE,
};
use gds_layout::cell::{LayerInfo, Layout};

fn loaded() -> Option<Layout> {
    let mut layout = Layout::new("TEST");
    layout.register_layer(1);
    layout.register_layer(2);
    Some(layout)
}

#[test]
fn get_layers_returns_all_layers() {
    let state = loaded();
    let response = get_layers(state.as_ref()).unwrap();
    assert_eq!(response.len(), 2);
    assert_eq!(response[0].id, 1);
    assert_eq!(response[1].id, 2);
}

#[test]
fn toggle_layer_flips_visibility() {
    let mut state = loaded();
    assert!(state.as_ref().unwrap().layer(1).unwrap().visible);
    let response = toggle_layer(&mut state, 1).unwrap();
    assert!(!response.visible);
    assert!(!state.as_ref().unwrap().layer(1).unwrap().visible);
}

#[test]
fn toggle_layer_returns_404_if_not_found() {
    let mut state = loaded();
    let response = toggle_layer(&mut state, 99);
    assert!(response.is_err());
    let e = response.unwrap_err();
    assert_eq!(e.status, STATUS_NOT_FOUND);
    assert_eq!(e.message, "Layer 99 not found");
}

#[test]
fn endpoints_fail_if_no_layout() {
    let mut state: Option<Layout> = None;
    let res1 = get_layers(state.as_ref());
    assert_eq!(res1.unwrap_err().status, STATUS_SERVICE_UNAVAILABLE);
    let res2 = toggle_layer(&mut state, 1);
    let e = res2.unwrap_err();
    assert_eq!(e.status, STATUS_SERVICE_UNAVAILABLE);
    assert_eq!(e.message, "No layout loaded");
}

#[test]
fn toggling_twice_restores_visibility() {
    let mut state = loaded();
    toggle_layer(&mut state, 2).unwrap();
    let back = toggle_layer(&mut state, 2).unwrap();
    assert!(back.visible);
    assert_eq!(back, LayerDto::from(&LayerInfo::new(2)));
}

#[test]
fn query_before_load_answers_503() {
    let e = no_layout();
    assert_eq!(e.status, STATUS_SERVICE_UNAVAILABLE);
    assert_eq!(e.message, "No layout loaded");
}

#[test]
fn load_without_file_is_a_bad_request() {
    let e = load_layout(None).unwrap().unwrap_err();
    assert_eq!(e.status, STATUS_BAD_REQUEST);
    assert_eq!(e.message, "no file in request");
}

#[test]
fn load_of_a_broken_stream_reports_the_parse_error() {
    let e = load_layout(Some(vec![0x00, 0x02])).unwrap().unwrap_err();
    assert_eq!(e.status, STATUS_BAD_REQUEST);
    assert_eq!(e.message, "GDS parse failed: record length 2 < 4");
}

#[test]
fn load_of_an_empty_library_succeeds() {
    let bytes = vec![0x00, 0x04, 0x04, 0x00];
    let layout = load_layout(Some(bytes)).unwrap().unwrap();
    assert_eq!(layout.cells().len(), 0);
}

use osm_world::area_switch::AreaSwitchState;

#[test]
fn area_switch_state_trims_paths_and_ignores_empty_input() {
    let mut empty = AreaSwitchState {
        input_path: "   ".to_string(),
        srtm_dir: " /tmp/srtm ".to_string(),
        status: String::new(),
        request_load: true,
    };
    assert!(empty.take_request().is_none());
    assert!(!empty.request_load);

    let mut with_srtm = AreaSwitchState {
        input_path: " /tmp/city.osm ".to_string(),
        srtm_dir: " /tmp/srtm ".to_string(),
        status: String::new(),
        request_load: true,
    };
    let request = with_srtm.take_request().unwrap();
    assert_eq!(request.input_path, "/tmp/city.osm");
    assert_eq!(request.srtm_dir.as_deref(), Some("/tmp/srtm"));

    let mut without_srtm = AreaSwitchState {
        input_path: "/tmp/city.osm".to_string(),
        srtm_dir: "  ".to_string(),
        status: String::new(),
        request_load: true,
    };
    let request = without_srtm.take_request().unwrap();
    assert_eq!(request.srtm_dir, None);
}

#[test]
fn area_switch_without_request_changes_nothing() {
    let mut idle = AreaSwitchState {
        input_path: "/tmp/city.osm".to_string(),
        srtm_dir: String::new(),
        status: "ready".to_string(),
        request_load: false,
    };
    assert!(idle.take_request().is_none());
    assert_eq!(idle.status, "ready");
    assert_eq!(idle.input_path, "/tmp/city.osm");
}

#[test]
fn area_switch_empty_path_explains_itself_and_consumes_request() {
    let mut empty = AreaSwitchState {
        input_path: "\t \n".to_string(),
        srtm_dir: String::new(),
        status: String::new(),
        request_load: true,
    };
    assert!(empty.take_request().is_none());
    assert_eq!(empty.status, "Enter a prepared .osm path before loading.");
    assert!(!empty.request_load);
    // A second call has no request left to take.
    assert!(empty.take_request().is_none());
}

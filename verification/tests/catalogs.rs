use randr_info::catalog::{
    check_catalogs_closed, find_controller, find_mode_name, get_controllers, get_modes,
    get_outputs, Controller, Mode, Output, RawController, RawMode, RawOutput,
};

#[test]
fn output_sentinels_are_normalized() {
    let raws = vec![
        RawOutput {
            id: 1,
            name: "HDMI-1".to_string(),
            connection: 0,
            modes: vec![10, 11],
            crtc: 5,
        },
        RawOutput { id: 2, name: "VGA-1".to_string(), connection: 1, modes: vec![11], crtc: 0 },
        RawOutput { id: 3, name: "DP-1".to_string(), connection: 2, modes: vec![], crtc: 0 },
    ];
    let outputs = get_outputs(&raws);
    assert_eq!(outputs.len(), 3);
    assert_eq!(outputs[0].id, 1);
    assert_eq!(outputs[0].name.as_str(), "HDMI-1");
    assert!(outputs[0].connected);
    assert_eq!(outputs[0].modes, vec![10, 11]);
    assert_eq!(outputs[0].controller, Some(5));
    assert!(!outputs[1].connected);
    assert_eq!(outputs[1].controller, None);
    assert!(!outputs[2].connected);
    assert_eq!(outputs[2].modes, Vec::<u64>::new());
}

#[test]
fn controller_records_copy_raw_fields() {
    let raws = vec![
        RawController { id: 5, mode: 10, x: 0, y: 0 },
        RawController { id: 6, mode: 0, x: -100, y: 42 },
    ];
    let controllers = get_controllers(&raws);
    assert_eq!(controllers.len(), 2);
    assert_eq!(controllers[0].id, 5);
    assert_eq!(controllers[0].mode, 10);
    assert_eq!(controllers[0].pos, (0, 0));
    assert_eq!(controllers[1].mode, 0);
    assert_eq!(controllers[1].pos, (-100, 42));
}

#[test]
fn mode_records_copy_raw_fields() {
    let raws = vec![
        RawMode { id: 10, name: "1920x1080".to_string() },
        RawMode { id: 11, name: "1280x720".to_string() },
    ];
    let modes = get_modes(&raws);
    assert_eq!(modes.len(), 2);
    assert_eq!(modes[0].id, 10);
    assert_eq!(modes[0].name.as_str(), "1920x1080");
    assert_eq!(modes[1].id, 11);
    assert_eq!(modes[1].name.as_str(), "1280x720");
}

#[test]
fn lookups_find_first_match_by_id() {
    let modes = vec![
        Mode { id: 10, name: "1920x1080".to_string() },
        Mode { id: 11, name: "1280x720".to_string() },
    ];
    assert_eq!(find_mode_name(&modes, 11).unwrap().as_str(), "1280x720");
    assert!(find_mode_name(&modes, 12).is_none());
    let controllers = vec![Controller { id: 5, mode: 10, pos: (0, 0) }];
    let found = find_controller(&controllers, 5).unwrap();
    assert_eq!(found.mode, 10);
    assert!(find_controller(&controllers, 4).is_none());
}

#[test]
fn closure_check_accepts_consistent_catalogs() {
    let modes = vec![Mode { id: 10, name: "1920x1080".to_string() }];
    let controllers = vec![Controller { id: 5, mode: 10, pos: (0, 0) }];
    let outputs = vec![Output {
        id: 1,
        name: "HDMI-1".to_string(),
        connected: true,
        modes: vec![10],
        controller: Some(5),
    }];
    assert!(check_catalogs_closed(&outputs, &modes, &controllers));
    assert!(check_catalogs_closed(&Vec::new(), &Vec::new(), &Vec::new()));
}

#[test]
fn closure_check_rejects_unknown_output_mode() {
    let modes = vec![Mode { id: 10, name: "1920x1080".to_string() }];
    let outputs = vec![Output {
        id: 1,
        name: "HDMI-1".to_string(),
        connected: false,
        modes: vec![10, 99],
        controller: None,
    }];
    assert!(!check_catalogs_closed(&outputs, &modes, &Vec::new()));
}

#[test]
fn closure_check_rejects_unknown_controller_mode() {
    let modes = vec![Mode { id: 10, name: "1920x1080".to_string() }];
    let controllers = vec![Controller { id: 5, mode: 99, pos: (0, 0) }];
    assert!(!check_catalogs_closed(&Vec::new(), &modes, &controllers));
}

#[test]
fn closure_check_rejects_unknown_bound_controller() {
    let modes = vec![Mode { id: 10, name: "1920x1080".to_string() }];
    let outputs = vec![Output {
        id: 1,
        name: "HDMI-1".to_string(),
        connected: true,
        modes: vec![10],
        controller: Some(5),
    }];
    assert!(!check_catalogs_closed(&outputs, &modes, &Vec::new()));
}

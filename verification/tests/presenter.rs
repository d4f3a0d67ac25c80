use randr_info::catalog::{check_catalogs_closed, Controller, Mode, Output};
use randr_info::present::{check_present_safe, present};

fn mode(id: u64, name: &str) -> Mode {
    Mode { id, name: name.to_string() }
}

fn controller(id: u64, mode: u64, pos: (i32, i32)) -> Controller {
    Controller { id, mode, pos }
}

fn output(id: u64, name: &str, connected: bool, modes: Vec<u64>, controller: Option<u64>) -> Output {
    Output { id, name: name.to_string(), connected, modes, controller }
}

fn example_catalogs() -> (Vec<Output>, Vec<Mode>, Vec<Controller>) {
    let modes = vec![mode(10, "1920x1080"), mode(11, "1280x720")];
    let controllers = vec![controller(5, 10, (0, 0))];
    let outputs = vec![
        output(1, "HDMI-1", true, vec![10, 10, 11], Some(5)),
        output(2, "VGA-1", false, vec![11], None),
    ];
    (outputs, modes, controllers)
}

#[test]
fn example_scenario_exact_report() {
    let (outputs, modes, controllers) = example_catalogs();
    assert!(check_catalogs_closed(&outputs, &modes, &controllers));
    let r = present(&outputs, &modes, &controllers);
    assert_eq!(
        r.as_str(),
        "HDMI-1:\n  displaying: 1920x1080 (0, 0)\n  modes: 1920x1080 1280x720\n"
    );
}

#[test]
fn disconnected_output_emits_nothing() {
    let modes = vec![mode(7, "640x480")];
    let controllers = vec![controller(3, 7, (10, 20))];
    let outputs = vec![output(1, "DP-1", false, vec![7], Some(3))];
    let r = present(&outputs, &modes, &controllers);
    assert_eq!(r.as_str(), "");
}

#[test]
fn empty_catalogs_emit_nothing() {
    let r = present(&Vec::new(), &Vec::new(), &Vec::new());
    assert_eq!(r.as_str(), "");
}

#[test]
fn no_controller_displays_dash() {
    let modes = vec![mode(7, "640x480")];
    let outputs = vec![output(1, "DP-1", true, vec![7], None)];
    let r = present(&outputs, &modes, &Vec::new());
    assert_eq!(r.as_str(), "DP-1:\n  displaying: -\n  modes: 640x480\n");
}

#[test]
fn negative_position_rendered_as_signed_decimals() {
    let modes = vec![mode(7, "640x480")];
    let controllers = vec![controller(3, 7, (-1920, -45))];
    let outputs = vec![output(1, "DP-1", true, vec![7], Some(3))];
    let r = present(&outputs, &modes, &controllers);
    assert_eq!(r.as_str(), "DP-1:\n  displaying: 640x480 (-1920, -45)\n  modes: 640x480\n");
}

#[test]
fn duplicate_ids_contribute_one_name() {
    let modes = vec![mode(10, "1920x1080"), mode(11, "1280x720")];
    let outputs = vec![output(1, "HDMI-1", true, vec![10, 10, 11, 10], None)];
    let r = present(&outputs, &modes, &Vec::new());
    assert_eq!(r.as_str(), "HDMI-1:\n  displaying: -\n  modes: 1920x1080 1280x720\n");
}

#[test]
fn distinct_ids_with_equal_names_contribute_one_name() {
    let modes = vec![mode(1, "1024x768"), mode(2, "1024x768"), mode(3, "800x600")];
    let outputs = vec![output(1, "LVDS-1", true, vec![1, 2, 3, 2], None)];
    let r = present(&outputs, &modes, &Vec::new());
    assert_eq!(r.as_str(), "LVDS-1:\n  displaying: -\n  modes: 1024x768 800x600\n");
}

#[test]
fn names_keep_first_occurrence_order() {
    let modes = vec![mode(10, "1920x1080"), mode(11, "1280x720")];
    let outputs = vec![output(1, "HDMI-1", true, vec![11, 10, 11], None)];
    let r = present(&outputs, &modes, &Vec::new());
    assert_eq!(r.as_str(), "HDMI-1:\n  displaying: -\n  modes: 1280x720 1920x1080\n");
}

#[test]
fn blocks_concatenate_in_catalog_order() {
    let modes = vec![mode(10, "1920x1080"), mode(11, "1280x720")];
    let controllers = vec![controller(5, 10, (0, 0)), controller(6, 11, (1920, 0))];
    let outputs = vec![
        output(1, "HDMI-1", true, vec![10, 11], Some(5)),
        output(2, "VGA-1", false, vec![11], None),
        output(3, "DP-1", true, vec![11], Some(6)),
    ];
    let r = present(&outputs, &modes, &controllers);
    assert_eq!(
        r.as_str(),
        "HDMI-1:\n  displaying: 1920x1080 (0, 0)\n  modes: 1920x1080 1280x720\n\
         DP-1:\n  displaying: 1280x720 (1920, 0)\n  modes: 1280x720\n"
    );
}

#[test]
fn two_runs_give_identical_text() {
    let (outputs, modes, controllers) = example_catalogs();
    let first = present(&outputs, &modes, &controllers);
    let second = present(&outputs, &modes, &controllers);
    assert_eq!(first, second);
}

#[test]
fn render_safety_check_accepts_sentinel_mode_on_unbound_controller() {
    let modes = vec![mode(10, "1920x1080")];
    // An unbound controller keeping the server's "no mode" sentinel does
    // not disturb the render; the presenter never looks it up.
    let controllers = vec![controller(5, 10, (0, 0)), controller(6, 0, (0, 0))];
    let outputs = vec![output(1, "HDMI-1", true, vec![10], Some(5))];
    assert!(check_present_safe(&outputs, &modes, &controllers));
    assert!(!check_catalogs_closed(&outputs, &modes, &controllers));
}

#[test]
fn render_safety_check_rejects_missing_lookups() {
    let modes = vec![mode(10, "1920x1080")];
    let controllers = vec![controller(5, 99, (0, 0))];
    // A connected output whose controller drives an unknown mode.
    let outputs = vec![output(1, "HDMI-1", true, vec![10], Some(5))];
    assert!(!check_present_safe(&outputs, &modes, &controllers));
    // A connected output supporting an unknown mode id.
    let outputs = vec![output(1, "HDMI-1", true, vec![10, 99], None)];
    assert!(!check_present_safe(&outputs, &modes, &controllers));
    // A connected output bound to an unknown controller.
    let outputs = vec![output(1, "HDMI-1", true, vec![10], Some(4))];
    assert!(!check_present_safe(&outputs, &modes, &controllers));
    // The same problems on a disconnected output are no problems.
    let outputs = vec![output(1, "HDMI-1", false, vec![10, 99], Some(4))];
    assert!(check_present_safe(&outputs, &modes, &controllers));
}

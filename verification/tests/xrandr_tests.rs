use vd_display::xrandr::{position_step, PositionAction, PositionEvent, PositionState};
use vd_display::xrandr::{
    card_connector, dev_dri_card_id, drm_card_id, evdi_device_count, evdi_display_listed, evdi_output_visible, evdi_randr_monitors,
    mode_not_found, output_geometry, primary_output, randr_monitor_name, setmonitor_geometry, status_is_connected,
    OutputGeometry,
};

const QUERY: &str = "Screen 0: minimum 320 x 200, current 4960 x 1440, maximum 16384 x 16384\n\
eDP-1 connected primary 2560x1440+0+0 (normal left inverted right x axis y axis) 344mm x 194mm\n\
   2560x1440     60.00*+\n\
DVI-I-1 connected 2400x1080+2560+0 (normal left inverted right x axis y axis) 625mm x 289mm\n\
   2400x1080     60.00*+\n\
HDMI-1 disconnected (normal left inverted right x axis y axis)\n";

#[test]
fn card_ids_from_sysfs_names() {
    assert_eq!(drm_card_id("card0"), Some(0));
    assert_eq!(drm_card_id("card12"), Some(12));
    assert_eq!(drm_card_id("card0-DVI-I-1"), None);
    assert_eq!(drm_card_id("renderD128"), None);
    assert_eq!(drm_card_id("card"), Some(-1));
    assert_eq!(drm_card_id("card99999999999"), Some(-1));
}

#[test]
fn connectors_of_a_card() {
    assert_eq!(card_connector("card1-DVI-I-1", 1), Some("DVI-I-1".to_string()));
    assert_eq!(card_connector("card11-DVI-I-1", 1), None);
    assert_eq!(card_connector("card1", 1), None);
    assert_eq!(card_connector("card-1-X", -1), Some("X".to_string()));
}

#[test]
fn connector_status() {
    assert!(status_is_connected("connected\n"));
    assert!(!status_is_connected("disconnected\n"));
    assert!(!status_is_connected(""));
}

#[test]
fn primary_output_prefers_primary_then_other_connected() {
    assert_eq!(primary_output(QUERY, "DVI-I-1"), Some("eDP-1".to_string()));
    let no_primary = "DVI-I-1 connected 2400x1080+0+0\nHDMI-2 connected 1920x1080+2400+0\n";
    assert_eq!(primary_output(no_primary, "DVI-I-1"), Some("HDMI-2".to_string()));
    assert_eq!(primary_output("DVI-I-1 connected\n", "DVI-I-1"), None);
    assert_eq!(primary_output("", "DVI-I-1"), None);
}

#[test]
fn output_geometry_from_query() {
    assert_eq!(
        output_geometry(QUERY, "DVI-I-1"),
        Some(OutputGeometry { x: 2560, y: 0, width: 2400, height: 1080, width_mm: 625, height_mm: 289 })
    );
    assert_eq!(
        output_geometry(QUERY, "eDP-1"),
        Some(OutputGeometry { x: 0, y: 0, width: 2560, height: 1440, width_mm: 344, height_mm: 194 })
    );
    assert_eq!(output_geometry(QUERY, "HDMI-1"), None);
    // no physical size: 96 DPI default
    let q = "DVI-I-1 connected 1920x1080+10+-20 (normal)\n";
    assert_eq!(
        output_geometry(q, "DVI-I-1"),
        Some(OutputGeometry { x: 10, y: -20, width: 1920, height: 1080, width_mm: 508, height_mm: 285 })
    );
    // a number that does not parse ends the search
    assert_eq!(output_geometry("DVI-I-1 connected 99999999999x1080+0+0\n", "DVI-I-1"), None);
    // zero physical size is raised to 1
    assert_eq!(
        output_geometry("X connected 2x2+0+0 0mm x 0mm\n", "X"),
        Some(OutputGeometry { x: 0, y: 0, width: 2, height: 2, width_mm: 1, height_mm: 1 })
    );
}

#[test]
fn listmonitors_evdi_names() {
    let out = "Monitors: 2\n 0: +*eDP-1 2560/344x1440/194+0+0  eDP-1\n 1: +EVDI-DVI_I_1 2400/625x1080/289+2560+0  DVI-I-1\n";
    assert_eq!(evdi_randr_monitors(out), vec!["EVDI-DVI_I_1".to_string()]);
    assert!(evdi_randr_monitors("Monitors: 0\n").is_empty());
}

#[test]
fn randr_monitor_names() {
    assert_eq!(randr_monitor_name("DVI-I-1"), "EVDI-DVI_I_1");
    assert_eq!(randr_monitor_name(""), "EVDI-");
}

#[test]
fn evdi_visibility() {
    let names = vec!["eDP-1".to_string(), "DVI-I-1".to_string()];
    assert!(evdi_display_listed(&names, "DVI-I-1"));
    assert!(!evdi_display_listed(&vec!["eDP-1".to_string()], "DVI-I-1"));
    assert!(evdi_display_listed(&vec!["EVDI-X".to_string()], "DVI-I-2"));
    assert!(evdi_output_visible(&names));
    assert!(!evdi_output_visible(&vec!["HDMI-1".to_string()]));
    assert!(!evdi_output_visible(&vec![]));
    assert!(mode_not_found("xrandr: cannot find mode 2340x1080"));
    assert!(!mode_not_found(""));
}

#[test]
fn dev_dri_and_evdi_count() {
    assert_eq!(dev_dri_card_id("card0"), Some(0));
    assert_eq!(dev_dri_card_id("card-1"), Some(-1));
    assert_eq!(dev_dri_card_id("renderD128"), None);
    assert_eq!(dev_dri_card_id("card"), None);
    assert_eq!(evdi_device_count("2\n"), 2);
    assert_eq!(evdi_device_count("none"), 0);
    assert_eq!(evdi_device_count(""), 0);
}

#[test]
fn created_monitor_is_found_for_removal() {
    let name = randr_monitor_name("DVI-I-1");
    let listing = format!("Monitors: 1\n 0: +{} 2400/625x1080/289+2560+0  DVI-I-1\n", name);
    assert_eq!(evdi_randr_monitors(&listing), vec![name]);
}

#[test]
fn setmonitor_geometry_formats_output_or_auto() {
    let g = OutputGeometry { x: 1920, y: 0, width: 2340, height: 1080, width_mm: 619, height_mm: 286 };
    assert_eq!(setmonitor_geometry(&Some(g)), "2340/619x1080/286+1920+0");
    let n = OutputGeometry { x: -5, y: 12, width: 800, height: 600, width_mm: 1, height_mm: 1 };
    assert_eq!(setmonitor_geometry(&Some(n)), "800/1x600/1+-5+12");
    assert_eq!(setmonitor_geometry(&None), "auto");
}

#[test]
fn position_schedule_stops_when_output_already_visible() {
    let (s, a) = position_step(&PositionState::Start, PositionEvent::Begin);
    assert_eq!((s, a), (PositionState::Checking(0), PositionAction::CheckVisible { wait_ms: 3000 }));
    let (s, a) = position_step(&s, PositionEvent::Checked { visible: false });
    assert_eq!((s, a), (PositionState::Checking(1), PositionAction::CheckVisible { wait_ms: 500 }));
    let (s, a) = position_step(&s, PositionEvent::Checked { visible: true });
    assert_eq!((s, a), (PositionState::Done, PositionAction::Stop));
}

#[test]
fn position_schedule_falls_back_to_xrandr() {
    let mut s = PositionState::Checking(0);
    let mut checks = 1;
    loop {
        let (t, a) = position_step(&s, PositionEvent::Checked { visible: false });
        s = t;
        if a == (PositionAction::LookForOutput { wait_ms: 200 }) {
            break;
        }
        checks += 1;
    }
    assert_eq!(checks, 5);
    assert_eq!(s, PositionState::Searching(0));
    let (s, a) = position_step(&s, PositionEvent::Looked { found: true });
    assert_eq!((s, a), (PositionState::SettingMode, PositionAction::SetMode));
    let (s2, a2) = position_step(&s, PositionEvent::ModeSet { ok: false, mode_not_found: true });
    assert_eq!((s2, a2), (PositionState::SettingAuto, PositionAction::SetAuto));
    assert_eq!(position_step(&s2, PositionEvent::AutoSet { ok: true }), (PositionState::Done, PositionAction::CreateMonitor { wait_ms: 3000 }));
    assert_eq!(position_step(&s2, PositionEvent::AutoSet { ok: false }), (PositionState::Done, PositionAction::Stop));
    assert_eq!(position_step(&s, PositionEvent::ModeSet { ok: true, mode_not_found: false }), (PositionState::Done, PositionAction::CreateMonitor { wait_ms: 3000 }));
    assert_eq!(position_step(&s, PositionEvent::ModeSet { ok: false, mode_not_found: false }), (PositionState::Done, PositionAction::Stop));
}

#[test]
fn position_schedule_gives_up_after_thirty_attempts() {
    let mut s = PositionState::Searching(0);
    let mut attempts = 1;
    loop {
        let (t, a) = position_step(&s, PositionEvent::Looked { found: false });
        s = t;
        if a == PositionAction::Stop {
            break;
        }
        attempts += 1;
    }
    assert_eq!(attempts, 30);
    assert_eq!(s, PositionState::Done);
    assert_eq!(position_step(&PositionState::Done, PositionEvent::Begin), (PositionState::Done, PositionAction::Stop));
}

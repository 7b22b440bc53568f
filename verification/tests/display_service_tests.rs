use vd_display::display_service::{
    build_display_infos, check_display_changed, check_displays_changed, get_original_resolution,
    get_primary, get_primary_2, next_no_change_count, no_displays, poll_interval_ms,
    restore_resolutions, set_last_changed_resolution, try_get_displays,
    try_get_displays_, try_get_displays_add_amyuni_headless, CapturedDisplay,
    ChangedResolutions, DisplayInfo, HeadlessEnv, SyncDisplaysInfo,
};
use vd_display::display_service::{display_info_eq, f64_bits_equal, unix_plug_in_headless, unix_reread_after_plug_in, UnixPlatform};

fn display(x: i32, y: i32, width: i32, height: i32) -> DisplayInfo {
    DisplayInfo {
        x,
        y,
        width,
        height,
        name: String::new(),
        online: false,
        cursor_embedded: false,
        original_resolution: None,
        scale_bits: 0,
    }
}

fn same(a: &DisplayInfo, b: &DisplayInfo) -> bool {
    a.x == b.x
        && a.y == b.y
        && a.width == b.width
        && a.height == b.height
        && a.name == b.name
        && a.online == b.online
        && a.cursor_embedded == b.cursor_embedded
        && a.original_resolution == b.original_resolution
        && a.scale_bits == b.scale_bits
}

fn captured(name: &str, width: usize, height: usize, own: bool) -> CapturedDisplay {
    CapturedDisplay {
        x: 10,
        y: -20,
        width,
        height,
        name: name.to_string(),
        online: true,
        logical_width: width / 2,
        logical_height: height / 2,
        scale_bits: 2.0f64.to_bits(),
        is_own_virtual_display: own,
    }
}

#[test]
fn sync_displays_info_detects_count_change() {
    let mut sdi = SyncDisplaysInfo::new();
    sdi.is_synced = true;

    let d1 = display(0, 0, 1920, 1080);
    sdi.displays = vec![display(0, 0, 1920, 1080)];
    sdi.is_synced = true;

    sdi.check_changed(vec![d1, display(0, 0, 1920, 1080)], false);
    assert!(!sdi.is_synced, "display count change should un-sync");
}

#[test]
fn sync_displays_info_detects_content_change() {
    let mut sdi = SyncDisplaysInfo::new();
    sdi.displays = vec![display(0, 0, 1920, 1080)];
    sdi.is_synced = true;

    let d2 = display(0, 0, 2560, 1440);
    sdi.check_changed(vec![d2], false);
    assert!(!sdi.is_synced, "resolution change should un-sync");
}

#[test]
fn sync_displays_info_no_change_stays_synced() {
    let mut sdi = SyncDisplaysInfo::new();
    sdi.displays = vec![display(0, 0, 1920, 1080)];
    sdi.is_synced = true;

    sdi.check_changed(vec![display(0, 0, 1920, 1080)], false);
    assert!(sdi.is_synced, "same content should stay synced");
}

#[test]
fn display_service_has_adaptive_polling() {
    let mut no_change_count: u32 = 0;
    assert_eq!(poll_interval_ms(no_change_count), 300);
    for _ in 0..10 {
        no_change_count = next_no_change_count(no_change_count, false);
        assert_eq!(poll_interval_ms(no_change_count), 300);
    }
    no_change_count = next_no_change_count(no_change_count, false);
    assert_eq!(no_change_count, 11);
    assert_eq!(poll_interval_ms(no_change_count), 1000, "display service must implement adaptive polling interval");
    no_change_count = next_no_change_count(no_change_count, true);
    assert_eq!(no_change_count, 0);
    assert_eq!(poll_interval_ms(no_change_count), 300);
    assert_eq!(next_no_change_count(u32::MAX, false), u32::MAX);
}

#[test]
fn check_changed_loads_temp_ignore_once() {
    // The ignore flag is read once by the caller and handed in: a change seen
    // while changes are ignored is stored but leaves the sync flag alone.
    let mut sdi = SyncDisplaysInfo::new();
    sdi.displays = vec![display(0, 0, 1920, 1080)];
    sdi.is_synced = true;
    sdi.check_changed(vec![display(0, 0, 2560, 1440)], true);
    assert!(sdi.is_synced);
    assert_eq!(sdi.displays.len(), 1);
    assert_eq!(sdi.displays[0].width, 2560);
    sdi.check_changed(vec![display(0, 0, 1280, 720)], false);
    assert!(!sdi.is_synced);
}

#[test]
fn build_display_infos_exists() {
    let mut store = ChangedResolutions::new();
    set_last_changed_resolution(&mut store, "HDMI-1", (3840, 2160), (1920, 1080));
    let all = vec![
        captured("HDMI-1", 1920, 1080, false),
        captured("DP-2", 2560, 1440, false),
        captured("EVDI-1", 2340, 1080, true),
    ];
    let infos = build_display_infos(&all, &store);
    assert_eq!(infos.len(), 3, "build_display_infos helper must exist for lock merging");
    assert_eq!((infos[0].x, infos[0].y, infos[0].width, infos[0].height), (10, -20, 1920, 1080));
    assert_eq!(infos[0].name, "HDMI-1");
    assert!(infos[0].online);
    assert!(!infos[0].cursor_embedded);
    assert_eq!(infos[0].original_resolution, Some((3840, 2160)));
    assert_eq!(infos[1].original_resolution, Some((1280, 720)));
    assert_eq!(infos[2].original_resolution, Some((0, 0)));
    assert_eq!(infos[2].scale_bits, 2.0f64.to_bits());
}

#[test]
fn get_update_sync_displays_hands_list_once() {
    let mut sdi = SyncDisplaysInfo::new();
    sdi.check_changed(vec![display(1, 2, 3, 4)], false);
    let first = sdi.get_update_sync_displays().expect("unsynced list must be handed out");
    assert_eq!(first.len(), 1);
    assert!(same(&first[0], &display(1, 2, 3, 4)));
    assert!(sdi.get_update_sync_displays().is_none());
    check_displays_changed(&mut sdi, vec![display(1, 2, 3, 4)], false);
    assert!(sdi.get_update_sync_displays().is_none());
    check_displays_changed(&mut sdi, vec![display(1, 2, 3, 5)], false);
    assert!(sdi.get_update_sync_displays().is_some());
}

#[test]
fn check_display_changed_cases() {
    let synced = vec![display(0, 0, 1920, 1080), display(1920, 0, 1280, 720)];
    assert!(check_display_changed(&synced, 2, 5, (0, 0, 1920, 1080)).is_none());
    assert!(check_display_changed(&synced, 2, 0, (0, 0, 1920, 1080)).is_none());
    let d = check_display_changed(&synced, 2, 1, (1920, 0, 1024, 768)).unwrap();
    assert_eq!(d.width, 1280);
    let d = check_display_changed(&synced, 3, 0, (0, 0, 1920, 1080)).unwrap();
    assert_eq!(d.width, 1920);
}

#[test]
fn changed_resolutions_keep_first_original() {
    let mut store = ChangedResolutions::new();
    set_last_changed_resolution(&mut store, "A", (1920, 1080), (1280, 720));
    set_last_changed_resolution(&mut store, "B", (800, 600), (640, 480));
    set_last_changed_resolution(&mut store, "A", (1280, 720), (1024, 768));
    assert_eq!(get_original_resolution(&store, false, "A", 1, 1), (1920, 1080));
    assert_eq!(get_original_resolution(&store, false, "C", 5, 6), (5, 6));
    assert_eq!(get_original_resolution(&store, true, "A", 5, 6), (0, 0));
    let restored = restore_resolutions(&mut store);
    assert_eq!(
        restored,
        vec![("A".to_string(), 1920, 1080), ("B".to_string(), 800, 600)]
    );
    assert!(restore_resolutions(&mut store).is_empty());
    assert_eq!(get_original_resolution(&store, false, "A", 7, 8), (7, 8));
}

#[test]
fn primary_display_index() {
    assert_eq!(get_primary_2(&vec![false, true, true]), 1);
    assert_eq!(get_primary_2(&vec![false, false]), 0);
    assert_eq!(get_primary_2(&vec![]), 0);
    assert_eq!(get_primary(None), 0);
    assert_eq!(get_primary(Some(&vec![false, false, true])), 2);
}

#[test]
fn no_displays_cases() {
    assert!(no_displays(&vec![], &vec![]));
    assert!(no_displays(&vec![(800, 600)], &vec![(800, 600), (1024, 768)]));
    assert!(!no_displays(&vec![(800, 600)], &vec![(1920, 1080)]));
    assert!(!no_displays(&vec![(1920, 1080)], &vec![]));
    assert!(!no_displays(&vec![(800, 600), (800, 600)], &vec![]));
}

#[test]
fn headless_decision() {
    let env = HeadlessEnv { is_installed: true, virtual_display_supported: true, is_amyuni_idd: true, no_displays: true };
    assert!(!try_get_displays(&env));
    assert!(try_get_displays_add_amyuni_headless(&env));
    let env = HeadlessEnv { is_amyuni_idd: false, ..env };
    assert!(try_get_displays(&env));
    let env = HeadlessEnv { no_displays: false, ..env };
    assert!(!try_get_displays_(true, &env));
    let env = HeadlessEnv { is_installed: false, virtual_display_supported: true, is_amyuni_idd: false, no_displays: true };
    assert!(!try_get_displays_(true, &env));
}

#[test]
fn scale_compared_as_f64_values() {
    assert!(f64_bits_equal(0.0f64.to_bits(), (-0.0f64).to_bits()));
    assert!(f64_bits_equal(1.5f64.to_bits(), 1.5f64.to_bits()));
    assert!(!f64_bits_equal(1.0f64.to_bits(), 2.0f64.to_bits()));
    assert!(!f64_bits_equal(f64::NAN.to_bits(), f64::NAN.to_bits()));
    let mut a = display(0, 0, 1920, 1080);
    let mut b = display(0, 0, 1920, 1080);
    a.scale_bits = 0.0f64.to_bits();
    b.scale_bits = (-0.0f64).to_bits();
    assert!(display_info_eq(&a, &b));
    a.scale_bits = f64::NAN.to_bits();
    assert!(!display_info_eq(&a, &a));
}

#[test]
fn signed_zero_scale_is_no_change_but_nan_always_is() {
    let mut sdi = SyncDisplaysInfo::new();
    let mut d = display(0, 0, 1920, 1080);
    d.scale_bits = 0.0f64.to_bits();
    sdi.displays = vec![d];
    sdi.is_synced = true;
    let mut e = display(0, 0, 1920, 1080);
    e.scale_bits = (-0.0f64).to_bits();
    sdi.check_changed(vec![e], false);
    assert!(sdi.is_synced);
    assert_eq!(sdi.displays[0].scale_bits, 0.0f64.to_bits());
    let mut n = display(0, 0, 1920, 1080);
    n.scale_bits = f64::NAN.to_bits();
    sdi.displays = vec![display(0, 0, 1920, 1080)];
    sdi.displays[0].scale_bits = f64::NAN.to_bits();
    sdi.check_changed(vec![n], false);
    assert!(!sdi.is_synced);
}

#[test]
fn unix_headless_decision() {
    assert!(unix_plug_in_headless(UnixPlatform::Linux, 0, true, true));
    assert!(!unix_plug_in_headless(UnixPlatform::Linux, 0, false, true));
    assert!(unix_plug_in_headless(UnixPlatform::MacOs, 0, false, true));
    assert!(!unix_plug_in_headless(UnixPlatform::MacOs, 0, true, false));
    assert!(!unix_plug_in_headless(UnixPlatform::Linux, 1, true, true));
    assert_eq!(unix_reread_after_plug_in(true), Some(1000));
    assert_eq!(unix_reread_after_plug_in(false), None);
}

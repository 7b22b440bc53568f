use vd_display::edid::EDID_DTD_MAX_RESOLUTION;
use vd_display::virtual_display::{
    check_plug_in, clear_custom_resolution, evdi_platform_additions, idd_modes_or_default,
    idd_peer_index, idd_plug_out_indices, is_virtual_display, macos_mode_resolution,
    next_peer_index, orphan_cleanup_plan, plug_out_indices_targets, plug_out_targets,
    resolve_mode, set_custom_resolution, take_custom_resolution, teardown_plan,
    uevent_is_evdi, CustomResolution, DrmStep, MonitorMode, PlugInCheck,
    DRM_HOTPLUG_SETTLE_MS, MAX_SUPPORTED_RESOLUTION, MAX_VIRTUAL_DISPLAYS,
};

fn mode(width: u32, height: u32, sync: u32) -> MonitorMode {
    MonitorMode { width, height, sync }
}

/// The disconnect/close calls of a plan, with the settle time that passed
/// before each one.
fn calls_with_delay(steps: &[DrmStep]) -> Vec<(&'static str, usize, u64)> {
    let mut out = Vec::new();
    let mut waited = 0u64;
    for s in steps {
        match s {
            DrmStep::Settle(ms) => waited += ms,
            DrmStep::Disconnect(i) => {
                out.push(("disconnect", *i, waited));
                waited = 0;
            }
            DrmStep::Close(i) => {
                out.push(("close", *i, waited));
                waited = 0;
            }
        }
    }
    out
}

#[test]
fn hotplug_settle_delay_minimum_safe_value() {
    // KScreen (KDE) and Mutter (GNOME) both need at least 2000ms to
    // process a DRM hotplug event before the next topology change.
    // Empirically, crashes occur at ~100ms between events.
    assert!(
        DRM_HOTPLUG_SETTLE_MS >= 2000,
        "DRM_HOTPLUG_SETTLE_MS ({}) must be >= 2000ms to prevent \
         KScreen/Mutter segfaults from overlapping hotplug events",
        DRM_HOTPLUG_SETTLE_MS
    );
}

#[test]
fn hotplug_settle_delay_not_excessive() {
    // Delay should not exceed 10s — would make device creation unacceptably slow.
    // A single plug_in with 2 events (add+connect) would take 20s.
    assert!(
        DRM_HOTPLUG_SETTLE_MS <= 10_000,
        "DRM_HOTPLUG_SETTLE_MS ({}) should be <= 10000ms to avoid \
         excessive latency during virtual display creation",
        DRM_HOTPLUG_SETTLE_MS
    );
}

#[test]
fn consumer_buffer_stride_no_overflow_at_max_resolution() {
    // Consumer thread computes: stride = width * 4 (as c_int).
    // If stride overflows i32 (> 536_870_911 * 4 = 2_147_483_644),
    // the buffer allocation panics or produces a negative/huge value.
    // MAX_SUPPORTED_RESOLUTION must prevent this.
    let max_stride = MAX_SUPPORTED_RESOLUTION as i64 * 4;
    assert!(
        max_stride <= i32::MAX as i64,
        "MAX_SUPPORTED_RESOLUTION ({}) * 4 = {} overflows c_int (i32::MAX = {})",
        MAX_SUPPORTED_RESOLUTION, max_stride, i32::MAX
    );
}

#[test]
fn consumer_buffer_size_reasonable_at_max_resolution() {
    // Buffer = width * height * 4 bytes.
    // At MAX_SUPPORTED_RESOLUTION² this must be < 512 MB to avoid OOM
    // on typical desktop systems (4-16 GB RAM).
    let max_buf = MAX_SUPPORTED_RESOLUTION as u64
        * MAX_SUPPORTED_RESOLUTION as u64 * 4;
    let max_mb = max_buf / (1024 * 1024);
    assert!(
        max_mb <= 512,
        "Consumer buffer at max resolution: {}MB exceeds 512MB safety limit",
        max_mb
    );
}

#[test]
fn max_supported_resolution_covers_8k() {
    // Must support at least 8K (7680x4320) to not reject valid displays.
    assert!(
        MAX_SUPPORTED_RESOLUTION >= 7680,
        "MAX_SUPPORTED_RESOLUTION ({}) must be >= 7680 for 8K support",
        MAX_SUPPORTED_RESOLUTION
    );
}

#[test]
fn max_supported_resolution_coherent_with_edid_limit() {
    // EDID DTD limit (4095) must be <= MAX_SUPPORTED_RESOLUTION.
    // Otherwise generate_edid would try to encode values above what
    // the consumer thread accepts.
    assert!(
        EDID_DTD_MAX_RESOLUTION <= MAX_SUPPORTED_RESOLUTION,
        "EDID DTD limit ({}) must be <= MAX_SUPPORTED_RESOLUTION ({})",
        EDID_DTD_MAX_RESOLUTION, MAX_SUPPORTED_RESOLUTION
    );
}

#[test]
fn area_limit_no_overflow_at_max_resolution() {
    // area_limit = width.saturating_mul(height).
    // At MAX_SUPPORTED_RESOLUTION², this must fit u32.
    let area = (MAX_SUPPORTED_RESOLUTION as u64)
        * (MAX_SUPPORTED_RESOLUTION as u64);
    assert!(
        area <= u32::MAX as u64,
        "MAX_SUPPORTED_RESOLUTION² ({}) overflows u32 (max {})",
        area, u32::MAX
    );
}

#[test]
fn max_virtual_displays_sane_limit() {
    // Each EVDI device creates a DRM card + connector + CRTC.
    // Too many devices exhaust kernel DRM resources and can cause
    // Xorg to fail when enumerating outputs.
    assert!(
        MAX_VIRTUAL_DISPLAYS >= 1 && MAX_VIRTUAL_DISPLAYS <= 16,
        "MAX_VIRTUAL_DISPLAYS ({}) should be between 1 and 16",
        MAX_VIRTUAL_DISPLAYS
    );
}

#[test]
fn custom_resolution_behavior() {
    let mut slot = CustomResolution::new();
    // Start clean
    clear_custom_resolution(&mut slot);
    assert_eq!(take_custom_resolution(&slot), None);

    // set + take returns value, take clones (keeps value)
    set_custom_resolution(&mut slot, 2560, 1440);
    assert_eq!(take_custom_resolution(&slot), Some((2560, 1440)));
    assert_eq!(take_custom_resolution(&slot), Some((2560, 1440)));

    // last set wins
    set_custom_resolution(&mut slot, 1920, 1080);
    set_custom_resolution(&mut slot, 3840, 2160);
    assert_eq!(take_custom_resolution(&slot), Some((3840, 2160)));

    // clear removes it
    clear_custom_resolution(&mut slot);
    assert_eq!(take_custom_resolution(&slot), None);
}

#[test]
fn disconnect_and_close_has_settle_delay() {
    let steps = teardown_plan(1);
    let calls = calls_with_delay(&steps);
    assert_eq!(calls.len(), 2, "disconnect_and_close must make exactly 2 calls");
    assert_eq!(calls[0].0, "disconnect", "First call must be disconnect");
    assert_eq!(calls[1].0, "close", "Second call must be close");
    let min_gap = DRM_HOTPLUG_SETTLE_MS.saturating_sub(100);
    assert!(calls[1].2 >= min_gap);
}

#[test]
fn teardown_multiple_devices_has_inter_device_delay() {
    let steps = teardown_plan(3);
    let calls = calls_with_delay(&steps);
    assert_eq!(calls.len(), 6, "3 devices × (disconnect + close) = 6 calls, got {}", calls.len());
    for i in 0..3 {
        assert_eq!(calls[i * 2].0, "disconnect", "Call {} must be disconnect", i * 2);
        assert_eq!(calls[i * 2].1, i);
        assert_eq!(calls[i * 2 + 1].0, "close", "Call {} must be close", i * 2 + 1);
        assert_eq!(calls[i * 2 + 1].1, i);
    }
    let min_gap = DRM_HOTPLUG_SETTLE_MS.saturating_sub(100);
    for i in 0..3 {
        assert!(calls[i * 2 + 1].2 >= min_gap, "Device {}: gap between disconnect and close < {}ms", i, min_gap);
    }
    for i in 0..2 {
        assert!(calls[(i + 1) * 2].2 >= min_gap, "Gap between device {} close and device {} disconnect < {}ms", i, i + 1, min_gap);
    }
}

#[test]
fn teardown_single_device_no_trailing_delay() {
    let steps = teardown_plan(1);
    let calls = calls_with_delay(&steps);
    assert_eq!(calls.len(), 2, "Single device: 2 calls (disconnect + close)");
    let work_time: u64 = steps
        .iter()
        .map(|s| match s {
            DrmStep::Settle(ms) => *ms,
            _ => 0,
        })
        .sum();
    let max_expected = DRM_HOTPLUG_SETTLE_MS + 500;
    assert!(work_time < max_expected, "Single device actual work time {}ms, expected < {}ms (no trailing delay)", work_time, max_expected);
    assert_eq!(steps.last(), Some(&DrmStep::Close(0)));
}

#[test]
fn teardown_empty_list_is_noop() {
    let steps = teardown_plan(0);
    assert!(steps.is_empty(), "Empty teardown must make zero calls");
}

#[test]
fn orphan_cleanup_skips_disconnect() {
    let steps = orphan_cleanup_plan(3);
    assert!(!steps.iter().any(|s| matches!(s, DrmStep::Disconnect(_))), "orphan cleanup must NOT call disconnect on orphaned devices");
    assert_eq!(
        steps,
        vec![
            DrmStep::Close(0),
            DrmStep::Settle(DRM_HOTPLUG_SETTLE_MS),
            DrmStep::Close(1),
            DrmStep::Settle(DRM_HOTPLUG_SETTLE_MS),
            DrmStep::Close(2),
        ]
    );
    assert!(orphan_cleanup_plan(0).is_empty());
}

#[test]
fn teardown_plan_exact_steps_for_two_devices() {
    assert_eq!(
        teardown_plan(2),
        vec![
            DrmStep::Disconnect(0),
            DrmStep::Settle(3000),
            DrmStep::Close(0),
            DrmStep::Settle(3000),
            DrmStep::Disconnect(1),
            DrmStep::Settle(3000),
            DrmStep::Close(1),
        ]
    );
}

#[test]
fn resolve_mode_defaults_and_clamps() {
    assert_eq!(resolve_mode(&vec![]), (1920, 1080, 60));
    assert_eq!(resolve_mode(&vec![mode(2340, 1080, 60), mode(800, 600, 30)]), (2340, 1080, 60));
    assert_eq!(resolve_mode(&vec![mode(10000, 0, 0)]), (MAX_SUPPORTED_RESOLUTION, 1, 1));
    assert_eq!(resolve_mode(&vec![mode(8192, 8193, 144)]), (8192, 8192, 144));
}

#[test]
fn check_plug_in_outcomes() {
    assert_eq!(check_plug_in(MAX_VIRTUAL_DISPLAYS, false), PlugInCheck::LimitReached);
    assert_eq!(check_plug_in(MAX_VIRTUAL_DISPLAYS + 1, true), PlugInCheck::LimitReached);
    assert_eq!(check_plug_in(1, true), PlugInCheck::AlreadyPresent);
    assert_eq!(check_plug_in(0, false), PlugInCheck::Create);
    assert_eq!(check_plug_in(MAX_VIRTUAL_DISPLAYS - 1, false), PlugInCheck::Create);
}

#[test]
fn next_peer_index_skips_used() {
    assert_eq!(next_peer_index(0, &vec![]), 0);
    assert_eq!(next_peer_index(0, &vec![0, 1, 3]), 2);
    assert_eq!(next_peer_index(2, &vec![2, 3, 0]), 4);
    assert_eq!(next_peer_index(5, &vec![0, 1]), 5);
}

#[test]
fn plug_out_targets_by_index() {
    let peers = vec![0u32, 2, 5];
    assert_eq!(plug_out_targets(-1, &peers, true), (vec![0, 2, 5], true));
    assert_eq!(plug_out_targets(-1, &peers, false), (vec![0, 2, 5], false));
    assert_eq!(plug_out_targets(2, &peers, true), (vec![2], false));
    assert_eq!(plug_out_targets(0, &peers, true), (vec![0], false));
    assert_eq!(plug_out_targets(1, &peers, true), (vec![], false));
}

#[test]
fn plug_out_indices_targets_dedups_and_filters() {
    let peers = vec![0u32, 1, 3];
    assert_eq!(plug_out_indices_targets(&vec![3, 2, 3, 0], &peers), vec![3, 0]);
    assert_eq!(plug_out_indices_targets(&vec![], &peers), Vec::<u32>::new());
    assert_eq!(plug_out_indices_targets(&vec![7], &peers), Vec::<u32>::new());
}

#[test]
fn is_virtual_display_matches_any_case() {
    assert!(is_virtual_display("EVDI-1"));
    assert!(is_virtual_display("Virtual-1"));
    assert!(is_virtual_display("my VIRTUAL screen"));
    assert!(!is_virtual_display("eDP-1"));
    assert!(!is_virtual_display("DVI-I-1"));
    assert!(!is_virtual_display(""));
}

#[test]
fn uevent_driver_detection() {
    assert!(uevent_is_evdi("MAJOR=226\nMINOR=1\nDRIVER=evdi\n"));
    assert!(!uevent_is_evdi("DRIVER=i915\n"));
    assert!(!uevent_is_evdi(""));
}

#[test]
fn evdi_platform_additions_values() {
    assert!(evdi_platform_additions(false, 3, true).is_none());
    let a = evdi_platform_additions(true, 0, false).unwrap();
    assert_eq!(a.virtual_displays, None);
    assert!(!a.headless);
    let a = evdi_platform_additions(true, 2, true).unwrap();
    assert_eq!(a.virtual_displays, Some(2));
    assert!(a.headless);
}

#[test]
fn macos_mode_resolution_choices() {
    assert_eq!(macos_mode_resolution(Some((2560, 1440)), &vec![mode(800, 600, 60)]), (2560, 1440));
    assert_eq!(macos_mode_resolution(None, &vec![mode(800, 600, 60), mode(1, 1, 1)]), (800, 600));
    assert_eq!(macos_mode_resolution(None, &vec![]), (1920, 1080));
}

#[test]
fn idd_index_selection() {
    assert_eq!(idd_peer_index(&vec![]), Some(1));
    assert_eq!(idd_peer_index(&vec![1, 2]), Some(3));
    assert_eq!(idd_peer_index(&vec![1, 2, 3, 4]), None);
    assert_eq!(idd_peer_index(&vec![0, 2]), Some(1));
    assert_eq!(idd_plug_out_indices(-1, &vec![1, 3]), vec![1, 3]);
    assert_eq!(idd_plug_out_indices(2, &vec![1, 3]), vec![2]);
}

#[test]
fn idd_modes_default_when_empty() {
    let m = idd_modes_or_default(vec![]);
    assert_eq!(m.len(), 1);
    assert_eq!((m[0].width, m[0].height, m[0].sync), (1920, 1080, 60));
    let m = idd_modes_or_default(vec![mode(1280, 720, 30)]);
    assert_eq!(m.len(), 1);
    assert_eq!((m[0].width, m[0].height, m[0].sync), (1280, 720, 30));
}

#[test]
fn edid_limit_below_peer_limit() {
    assert!(EDID_DTD_MAX_RESOLUTION < MAX_SUPPORTED_RESOLUTION);
}

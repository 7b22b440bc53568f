use vd_display::vd_controller::{VdController, VdDecision, VD_DEFER_TIMEOUT_SECS};

/// Helper: collect Create decisions from a Vec<VdDecision>.
fn created(decisions: &[VdDecision]) -> Vec<(i32, u32, u32)> {
    decisions
        .iter()
        .filter_map(|d| match d {
            VdDecision::Create { display, width, height } => Some((*display, *width, *height)),
            _ => None,
        })
        .collect()
}

/// Known real-world delays (measured from production logs):
/// - Samsung 2340x1080: #vd_res arrives ~16s after connection
/// - Worst case observed: ~20s on slow WiFi
const KNOWN_REAL_DELAYS_SECS: &[u64] = &[10, 12, 14, 16, 18, 20];

#[test]
fn emulate_mobile_client_samsung_2340x1080() {
    let mut ctl = VdController::new();

    // Step 1: Rust io_loop auto-restore (fires on connection setup)
    let d = ctl.toggle(0, true);
    assert!(
        matches!(d, VdDecision::Deferred { display: 0 }),
        "must defer (no resolution yet), got {:?}", d
    );
    assert!(ctl.active_indices().is_empty());

    // Step 2: Flutter sends #vd_res 2340x1080 (on first frame arrival)
    let decisions = ctl.handle_resolution(2340, 1080);
    assert_eq!(decisions.len(), 1);
    assert_eq!(
        created(&decisions),
        vec![(0, 2340, 1080)],
        "deferred toggle must create at phone resolution"
    );
    assert_eq!(ctl.active_indices(), &[0]);

    // Step 3: Flutter auto-add sends ToggleVirtualDisplay(0)
    let d = ctl.toggle(0, true);
    assert!(
        matches!(d, VdDecision::Skipped { display: 0, reason: "already active" }),
        "duplicate must be skipped, got {:?}", d
    );

    // Final: still exactly 1 active display
    assert_eq!(ctl.active_indices(), &[0]);
}

#[test]
fn emulate_old_mobile_client_stale_0000() {
    let mut ctl = VdController::new();

    // 4 duplicate toggles from stale "0,0,0,0" saved state
    let d0 = ctl.toggle(0, true);
    assert!(matches!(d0, VdDecision::Deferred { .. }));
    for _ in 1..4 {
        let d = ctl.toggle(0, true);
        assert!(
            matches!(d, VdDecision::Skipped { reason: "already pending", .. }),
            "duplicate pending must be skipped, got {:?}", d
        );
    }
    assert!(ctl.active_indices().is_empty());

    // Flutter sends resolution → 1 deferred processed
    let decisions = ctl.handle_resolution(2340, 1080);
    assert_eq!(created(&decisions), vec![(0, 2340, 1080)]);

    // Flutter auto-add → skipped
    let d = ctl.toggle(0, true);
    assert!(matches!(d, VdDecision::Skipped { reason: "already active", .. }));
}

#[test]
fn emulate_desktop_client_no_vd_res_timeout() {
    let mut ctl = VdController::new();

    let d = ctl.toggle(0, true);
    assert!(matches!(d, VdDecision::Deferred { .. }));

    // Before timeout: nothing happens
    let decisions = ctl.check_timeout();
    assert!(decisions.is_empty(), "deadline not yet reached");

    // Force deadline to past
    ctl.set_pending_deadline(
        std::time::Instant::now() - std::time::Duration::from_secs(1),
    );
    let decisions = ctl.check_timeout();
    assert_eq!(
        created(&decisions),
        vec![(0, 1920, 1080)],
        "desktop default resolution after timeout"
    );
    assert_eq!(ctl.active_indices(), &[0]);
}

#[test]
fn emulate_desktop_manual_toggle_after_timeout() {
    let mut ctl = VdController::new();

    ctl.toggle(0, true);
    ctl.set_pending_deadline(
        std::time::Instant::now() - std::time::Duration::from_secs(1),
    );
    ctl.check_timeout();
    assert_eq!(ctl.active_indices(), &[0]);

    // User manually adds display 1 → created immediately
    let d = ctl.toggle(1, true);
    assert!(matches!(d, VdDecision::Create { display: 1, width: 1920, height: 1080 }));
    assert_eq!(ctl.active_indices(), &[0, 1]);
}

#[test]
fn emulate_mobile_direct_toggle_with_resolution() {
    let mut ctl = VdController::new();

    let decisions = ctl.handle_resolution(2340, 1080);
    assert!(decisions.is_empty());
    assert!(!ctl.has_pending());

    let d = ctl.toggle(0, true);
    assert!(matches!(d, VdDecision::Create { display: 0, width: 2340, height: 1080 }));
}

#[test]
fn emulate_toggle_off_then_on() {
    let mut ctl = VdController::new();

    ctl.handle_resolution(2340, 1080);
    ctl.toggle(0, true);
    assert_eq!(ctl.active_indices(), &[0]);

    let d = ctl.toggle(0, false);
    assert!(matches!(d, VdDecision::Remove { display: 0 }));
    assert!(ctl.active_indices().is_empty());

    let d = ctl.toggle(0, true);
    assert!(matches!(d, VdDecision::Create { display: 0, width: 2340, height: 1080 }));
    assert_eq!(ctl.active_indices(), &[0]);
}

#[test]
fn emulate_mobile_multiple_displays() {
    let mut ctl = VdController::new();
    ctl.handle_resolution(2340, 1080);

    for i in 0..3 {
        let d = ctl.toggle(i, true);
        assert!(
            matches!(d, VdDecision::Create { width: 2340, height: 1080, .. }),
            "display {} must be created, got {:?}", i, d
        );
    }
    assert_eq!(ctl.active_indices(), &[0, 1, 2]);
}

#[test]
fn emulate_connection_close_cleanup() {
    let mut ctl = VdController::new();
    ctl.handle_resolution(2340, 1080);
    ctl.toggle(0, true);
    ctl.toggle(1, true);

    let indices = ctl.close();
    assert_eq!(indices, vec![0, 1]);
    assert!(ctl.active_indices().is_empty());
}

#[test]
fn emulate_connection_close_with_pending() {
    let mut ctl = VdController::new();
    ctl.toggle(0, true); // deferred
    assert!(ctl.has_pending());

    let indices = ctl.close();
    assert!(indices.is_empty(), "no active displays to clean up");
    assert!(!ctl.has_pending());
}

#[test]
fn emulate_old_client_four_different_displays() {
    let mut ctl = VdController::new();
    for i in 0..4 {
        ctl.toggle(i, true);
    }
    assert!(ctl.active_indices().is_empty());

    let decisions = ctl.handle_resolution(2340, 1080);
    assert_eq!(
        created(&decisions),
        vec![
            (0, 2340, 1080),
            (1, 2340, 1080),
            (2, 2340, 1080),
            (3, 2340, 1080),
        ]
    );
    assert_eq!(ctl.active_indices(), &[0, 1, 2, 3]);
}

#[test]
fn timeout_exceeds_all_known_real_world_delays() {
    let timeout = VD_DEFER_TIMEOUT_SECS;
    for &delay in KNOWN_REAL_DELAYS_SECS {
        assert!(
            timeout > delay,
            "VD_DEFER_TIMEOUT_SECS ({timeout}s) must exceed known real delay ({delay}s). \
             Mobile clients need {delay}s for #vd_res to arrive after first frame."
        );
    }
    // Must also have at least 5s margin above worst known delay.
    let worst = KNOWN_REAL_DELAYS_SECS.iter().max().unwrap();
    assert!(
        timeout >= worst + 5,
        "VD_DEFER_TIMEOUT_SECS ({timeout}s) must have >= 5s margin above worst \
         known delay ({worst}s). Current margin: {}s.",
        timeout - worst
    );
}

#[test]
fn timing_mobile_16s_delay_resolution_arrives_before_timeout() {
    let mut ctl = VdController::new();

    // t=0: Rust auto-restore fires toggle
    let d = ctl.toggle(0, true);
    assert!(matches!(d, VdDecision::Deferred { display: 0 }));

    // t=16s: #vd_res arrives. Timeout was 30s, so still pending.
    // Simulate by checking that deadline is still in the future.
    assert!(ctl.has_pending(), "toggle must still be pending at 16s");
    let timeout_decisions = ctl.check_timeout();
    assert!(
        timeout_decisions.is_empty(),
        "timeout must NOT have fired yet (we're at ~16s, deadline is 30s)"
    );

    // #vd_res arrives → creates at correct resolution
    let decisions = ctl.handle_resolution(2340, 1080);
    assert_eq!(created(&decisions), vec![(0, 2340, 1080)]);
    assert!(!ctl.has_pending());
}

#[test]
fn regression_5s_timeout_causes_wrong_resolution() {
    let mut ctl = VdController::new();

    // t=0: toggle deferred
    ctl.toggle(0, true);

    // t=5s: timeout fires (simulate by setting deadline to past)
    ctl.set_pending_deadline(
        std::time::Instant::now() - std::time::Duration::from_secs(1),
    );
    let decisions = ctl.check_timeout();
    // BUG: created at 1920x1080 (wrong!)
    assert_eq!(
        created(&decisions),
        vec![(0, 1920, 1080)],
        "5s timeout creates at DEFAULT resolution (the bug)"
    );

    // t=16s: #vd_res 2340x1080 arrives too late
    let decisions = ctl.handle_resolution(2340, 1080);
    assert!(
        decisions.is_empty() || created(&decisions).is_empty(),
        "display 0 is already active, #vd_res can't fix it"
    );

    // Verify we're stuck at 1920x1080 — the bug this test catches
    assert_eq!(ctl.active_indices(), &[0]);
    assert_eq!(
        ctl.resolution(),
        Some((2340, 1080)),
        "resolution is stored but display was already created at wrong size"
    );
}

#[test]
fn timing_all_known_delays_produce_correct_resolution() {
    for &delay_secs in KNOWN_REAL_DELAYS_SECS {
        let mut ctl = VdController::new();

        // t=0: toggle deferred
        let d = ctl.toggle(0, true);
        assert!(matches!(d, VdDecision::Deferred { .. }));

        // At delay_secs < VD_DEFER_TIMEOUT_SECS:
        // Timeout must NOT have fired yet.
        // (We can't actually wait, but we verify the deadline arithmetic.)
        assert!(
            VD_DEFER_TIMEOUT_SECS > delay_secs,
            "precondition: timeout must exceed delay {delay_secs}s"
        );

        // Timeout check should return empty (deadline still in future)
        let timeout_decisions = ctl.check_timeout();
        assert!(
            timeout_decisions.is_empty(),
            "delay {delay_secs}s: timeout must not fire before VD_DEFER_TIMEOUT_SECS"
        );

        // #vd_res arrives at delay_secs → correct resolution
        let decisions = ctl.handle_resolution(2340, 1080);
        assert_eq!(
            created(&decisions),
            vec![(0, 2340, 1080)],
            "delay {delay_secs}s: must create at phone resolution, not default"
        );

        // Subsequent toggle must be skipped (dedup)
        let d = ctl.toggle(0, true);
        assert!(
            matches!(d, VdDecision::Skipped { reason: "already active", .. }),
            "delay {delay_secs}s: duplicate toggle must be skipped"
        );
    }
}

#[test]
fn timing_resolution_arrives_1s_before_timeout() {
    let mut ctl = VdController::new();

    ctl.toggle(0, true);

    // Simulate: deadline is 1 second from now (resolution barely arrives in time)
    ctl.set_pending_deadline(
        std::time::Instant::now() + std::time::Duration::from_secs(1),
    );

    // Timeout check: deadline still 1s in the future → no timeout
    let decisions = ctl.check_timeout();
    assert!(decisions.is_empty(), "1s before deadline: must not timeout");

    // #vd_res arrives just in time
    let decisions = ctl.handle_resolution(2340, 1080);
    assert_eq!(created(&decisions), vec![(0, 2340, 1080)]);
}

#[test]
fn timing_resolution_arrives_1s_after_timeout() {
    let mut ctl = VdController::new();

    ctl.toggle(0, true);

    // Simulate: deadline was 1 second ago (timeout already expired)
    ctl.set_pending_deadline(
        std::time::Instant::now() - std::time::Duration::from_secs(1),
    );

    // Timeout fires → default resolution
    let decisions = ctl.check_timeout();
    assert_eq!(
        created(&decisions),
        vec![(0, 1920, 1080)],
        "timeout creates at default resolution"
    );

    // #vd_res arrives too late — display already active
    let decisions = ctl.handle_resolution(2340, 1080);
    assert!(
        created(&decisions).is_empty(),
        "display 0 already active, #vd_res arrives too late"
    );
}

#[test]
fn index_multiple_displays_individual_removal() {
    let mut ctl = VdController::new();
    ctl.handle_resolution(2340, 1080);

    // Create displays 0, 1, 2
    for i in 0..3 {
        let d = ctl.toggle(i, true);
        assert!(
            matches!(d, VdDecision::Create { width: 2340, height: 1080, .. }),
            "display {} must create, got {:?}", i, d
        );
    }
    assert_eq!(ctl.active_indices(), &[0, 1, 2]);

    // Remove only display 1
    let d = ctl.toggle(1, false);
    assert!(matches!(d, VdDecision::Remove { display: 1 }));

    // Verify: 0 and 2 remain, 1 is gone
    let active = ctl.active_indices();
    assert_eq!(active, &[0, 2], "displays 0 and 2 must remain after removing 1");

    // Re-create display 1
    let d = ctl.toggle(1, true);
    assert!(matches!(d, VdDecision::Create { display: 1, width: 2340, height: 1080 }));
    assert_eq!(ctl.active_indices(), &[0, 2, 1]);
}

#[test]
fn index_close_returns_all_active_indices() {
    let mut ctl = VdController::new();
    ctl.handle_resolution(1920, 1080);
    ctl.toggle(0, true);
    ctl.toggle(1, true);
    ctl.toggle(2, true);

    let indices = ctl.close();
    assert_eq!(indices.len(), 3);
    assert!(indices.contains(&0));
    assert!(indices.contains(&1));
    assert!(indices.contains(&2));
}

#[test]
fn rollback_create_allows_retry() {
    let mut ctl = VdController::new();
    ctl.handle_resolution(2340, 1080);

    // Create display 0 (VdController marks it as active)
    let d = ctl.toggle(0, true);
    assert!(matches!(d, VdDecision::Create { display: 0, .. }));
    assert_eq!(ctl.active_indices(), &[0]);

    // Simulate plug_in_monitor failure → rollback
    ctl.rollback_create(0);
    assert!(ctl.active_indices().is_empty(), "rollback must remove from active");

    // Retry: toggle(0, true) must NOT be skipped
    let d = ctl.toggle(0, true);
    assert!(
        matches!(d, VdDecision::Create { display: 0, width: 2340, height: 1080 }),
        "after rollback, toggle must produce Create, got {:?}", d
    );
}

#[test]
fn rollback_create_only_affects_target_display() {
    let mut ctl = VdController::new();
    ctl.handle_resolution(1920, 1080);
    ctl.toggle(0, true);
    ctl.toggle(1, true);
    ctl.toggle(2, true);
    assert_eq!(ctl.active_indices(), &[0, 1, 2]);

    // Rollback display 1 only
    ctl.rollback_create(1);
    assert_eq!(ctl.active_indices(), &[0, 2], "only display 1 should be removed");
}

#[test]
fn log_regression_validate_vd_log_patterns() {
    // Simulate a CORRECT log sequence (30s timeout, #vd_res at 16s)
    let good_log = vec![
        "2025-01-01 00:00:00 VD: deferring display 0 (waiting for client resolution, timeout 30s)",
        "2025-01-01 00:00:16 VD: received chat '#vd_res 2340x1080'",
        "2025-01-01 00:00:16 VD: creating display 0 at 2340x1080",
    ];
    let result = validate_vd_log_sequence(&good_log, 2340, 1080);
    assert!(result.is_ok(), "good log should pass: {:?}", result);

    // Simulate a BAD log sequence (5s timeout → wrong resolution)
    let bad_log = vec![
        "2025-01-01 00:00:00 VD: deferring display 0 (waiting for client resolution, timeout 30s)",
        "2025-01-01 00:00:05 VD: creating display 0 at 1920x1080",
        "2025-01-01 00:00:16 VD: received chat '#vd_res 2340x1080'",
        "2025-01-01 00:00:16 VD: display 0 skipped (already active)",
    ];
    let result = validate_vd_log_sequence(&bad_log, 2340, 1080);
    assert!(result.is_err(), "bad log should fail");
    let err = result.unwrap_err();
    assert!(
        err.contains("1920x1080") || err.contains("wrong resolution") || err.contains("before"),
        "error should mention wrong resolution: {}", err
    );
}

fn validate_vd_log_sequence(
    lines: &[&str],
    expected_w: u32,
    expected_h: u32,
) -> Result<(), String> {
    let mut deferred = false;
    let mut resolution_received = false;
    let mut created_resolution: Option<(u32, u32)> = None;
    let mut created_before_resolution = false;

    for line in lines {
        if line.contains("VD: deferring display") {
            deferred = true;
        }
        if line.contains("VD: received chat '#vd_res") {
            resolution_received = true;
        }
        if line.contains("VD: creating display") {
            // Parse resolution from "creating display N at WxH"
            if let Some(at_pos) = line.find(" at ") {
                let rest = &line[at_pos + 4..];
                let parts: Vec<&str> = rest.trim().split('x').collect();
                if parts.len() == 2 {
                    if let (Ok(w), Ok(h)) = (parts[0].parse::<u32>(), parts[1].parse::<u32>()) {
                        created_resolution = Some((w, h));
                        if !resolution_received {
                            created_before_resolution = true;
                        }
                    }
                }
            }
        }
    }

    if !deferred {
        return Err("no 'VD: deferring' line found — toggle was not deferred".into());
    }

    if let Some((w, h)) = created_resolution {
        if created_before_resolution {
            return Err(format!(
                "display created at {w}x{h} BEFORE #vd_res was received — \
                 timeout fired too early"
            ));
        }
        if w != expected_w || h != expected_h {
            return Err(format!(
                "wrong resolution: created at {w}x{h}, expected {expected_w}x{expected_h}"
            ));
        }
        Ok(())
    } else {
        Err("no 'VD: creating display' line found".into())
    }
}

#[test]
fn index_roundtrip_plug_in_0_plug_out_0() {
    let mut ctl = VdController::new();
    ctl.handle_resolution(2340, 1080);

    let d = ctl.toggle(0, true);
    assert!(matches!(d, VdDecision::Create { display: 0, .. }));
    assert_eq!(ctl.active_indices(), &[0]);

    let d = ctl.toggle(0, false);
    assert!(matches!(d, VdDecision::Remove { display: 0 }));
    assert!(ctl.active_indices().is_empty());
}

#[test]
fn toggle_off_unknown_display_still_removes() {
    let mut ctl = VdController::new();
    ctl.handle_resolution(1920, 1080);
    let d = ctl.toggle(5, false);
    assert_eq!(d, VdDecision::Remove { display: 5 });
    assert!(ctl.active_indices().is_empty());
}

#[test]
fn toggle_off_leaves_pending_toggles() {
    let mut ctl = VdController::new();
    assert!(matches!(ctl.toggle(0, true), VdDecision::Deferred { display: 0 }));
    assert!(matches!(ctl.toggle(1, true), VdDecision::Deferred { display: 1 }));
    assert_eq!(ctl.toggle(0, false), VdDecision::Remove { display: 0 });
    assert!(ctl.has_pending());
    let decisions = ctl.handle_resolution(800, 600);
    assert_eq!(created(&decisions), vec![(0, 800, 600), (1, 800, 600)]);
}

#[test]
fn check_timeout_with_reached_deadline_uses_default() {
    let mut ctl = VdController::new();
    ctl.toggle(3, true);
    assert!(ctl.check_timeout_with(false).is_empty());
    let decisions = ctl.check_timeout_with(true);
    assert_eq!(created(&decisions), vec![(3, 1920, 1080)]);
    assert_eq!(ctl.resolution(), Some((1920, 1080)));
    assert!(!ctl.has_pending());
    assert!(ctl.check_timeout_with(true).is_empty());
}

#[test]
fn close_keeps_resolution() {
    let mut ctl = VdController::new();
    ctl.handle_resolution(2340, 1080);
    ctl.toggle(0, true);
    assert_eq!(ctl.close(), vec![0]);
    assert_eq!(ctl.resolution(), Some((2340, 1080)));
    assert!(matches!(ctl.toggle(0, true), VdDecision::Create { display: 0, width: 2340, height: 1080 }));
}

#[test]
fn rollback_of_inactive_display_changes_nothing() {
    let mut ctl = VdController::new();
    ctl.handle_resolution(1920, 1080);
    ctl.toggle(0, true);
    ctl.rollback_create(7);
    assert_eq!(ctl.active_indices(), &[0]);
}

#[test]
fn bookkeeping_invariant_kept_by_every_operation() {
    fn check(c: &VdController) {
        let a = c.active_indices();
        for i in 0..a.len() {
            for j in 0..a.len() {
                assert!(i == j || a[i] != a[j], "active list holds a display twice");
            }
        }
        assert!(!c.has_pending() || c.resolution().is_none());
    }
    let mut c = VdController::new();
    check(&c);
    c.toggle(1, true);
    c.toggle(1, true);
    c.toggle(2, true);
    check(&c);
    assert!(c.has_pending());
    c.handle_resolution(1280, 720);
    check(&c);
    c.toggle(2, true);
    c.toggle(3, true);
    check(&c);
    assert_eq!(c.active_indices(), &[1, 2, 3]);
    c.rollback_create(2);
    c.toggle(1, false);
    check(&c);
    assert_eq!(c.active_indices(), &[3]);
    let closed = c.close();
    assert_eq!(closed, vec![3]);
    check(&c);
    assert!(c.active_indices().is_empty());
    assert!(c.check_timeout().is_empty());
}

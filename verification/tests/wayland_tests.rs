use vd_display::wayland::{capture_init_step, finish_capture_init, CaptureInitError, CaptureInitStep};
use vd_display::wayland::{
    common_get_error, decrement_active_display_count, increment_active_display_count,
    classify_scrap_error, is_inited, is_inited_msg, map_err_scrap, mouse_bounds, try_log, ScrapErrorKind,
};

#[test]
fn active_display_count_never_negative() {
    let mut count = 0usize;
    assert_eq!(increment_active_display_count(&mut count), 1);
    assert_eq!(increment_active_display_count(&mut count), 2);
    assert_eq!(decrement_active_display_count(&mut count), 1);
    assert_eq!(decrement_active_display_count(&mut count), 0);
    assert_eq!(decrement_active_display_count(&mut count), 0);
    assert_eq!(count, 0);
}

#[test]
fn try_log_throttles() {
    let mut n = 0u32;
    assert!(try_log(&mut n));
    assert_eq!(n, 1);
    let mut logged = 0;
    for _ in 1..20000 {
        if try_log(&mut n) {
            logged += 1;
        }
    }
    assert_eq!(logged, 1);
    assert_eq!(n, 20000);
    let mut n = 1_000_000u32;
    assert!(!try_log(&mut n));
    assert_eq!(n, 1_000_000);
    let mut n = 990_000u32;
    assert!(try_log(&mut n));
}

#[test]
fn scrap_error_classification() {
    assert_eq!(map_err_scrap("Did not receive a reply from x", "Fedora", "40"), (ScrapErrorKind::Fatal, false));
    assert_eq!(map_err_scrap("boom", "ubuntu", "20.04"), (ScrapErrorKind::UbuntuHigherRequired, false));
    assert_eq!(map_err_scrap("boom", "Ubuntu", "22.04"), (ScrapErrorKind::Unchanged, true));
    assert_eq!(map_err_scrap("no org.freedesktop.portal here", "Arch", "1"), (ScrapErrorKind::OtherVersionOrX11Required, true));
    assert_eq!(map_err_scrap("pipewire died", "Arch", "1"), (ScrapErrorKind::OtherVersionOrX11Required, true));
    assert_eq!(map_err_scrap("dbus", "Arch", "1"), (ScrapErrorKind::OtherVersionOrX11Required, true));
    assert_eq!(map_err_scrap("other", "Arch", "1"), (ScrapErrorKind::X11Required, true));
    assert_eq!(common_get_error(), "");
}

#[test]
fn wayland_prompt() {
    let m = is_inited(false, true, false).expect("prompt expected");
    assert_eq!(m.msgtype, "nook-nocancel-hasclose");
    assert_eq!(m.title, "Wayland");
    assert_eq!(m.text, "Please Select the screen to be shared(Operate on the peer side).");
    assert_eq!(m.link, "");
    assert!(is_inited(true, true, false).is_none());
    assert!(is_inited(false, false, false).is_none());
    assert!(is_inited(false, true, true).is_none());
    assert!(is_inited_msg(true, true, false).is_none());
    assert!(is_inited_msg(false, true, false).is_some());
}

#[test]
fn mouse_bounds_cover_all_rects() {
    let rects = vec![((0, 0), 1920usize, 1080usize), ((1920, -100), 1280, 720)];
    assert_eq!(mouse_bounds(&rects), Some((0, 3200, -100, 1080)));
    assert_eq!(mouse_bounds(&vec![]), None);
    assert_eq!(mouse_bounds(&vec![((5, 5), 0, 10)]), None);
}

#[test]
fn classify_scrap_error_on_upper_case_names() {
    assert_eq!(classify_scrap_error("some error", "UBUNTU", "UBUNTU", "20.04"), (ScrapErrorKind::UbuntuHigherRequired, false));
    assert_eq!(classify_scrap_error("some error", "UBUNTU", "UBUNTU", "22.04"), (ScrapErrorKind::Unchanged, true));
    assert_eq!(classify_scrap_error("pipewire gone", "FEDORA", "UBUNTU", "39"), (ScrapErrorKind::OtherVersionOrX11Required, true));
    assert_eq!(classify_scrap_error("other", "FEDORA", "UBUNTU", "39"), (ScrapErrorKind::X11Required, true));
    assert_eq!(classify_scrap_error("Did not receive a reply x", "UBUNTU", "UBUNTU", "20.04"), (ScrapErrorKind::Fatal, false));
    assert_eq!(map_err_scrap("some error", "ubuntu", "20.04"), (ScrapErrorKind::UbuntuHigherRequired, false));
}

#[test]
fn capture_init_decision() {
    assert_eq!(capture_init_step(true, true, false), CaptureInitStep::Nothing);
    assert_eq!(capture_init_step(false, false, false), CaptureInitStep::Nothing);
    assert_eq!(capture_init_step(false, true, true), CaptureInitStep::AlreadyInitialized);
    assert_eq!(capture_init_step(false, true, false), CaptureInitStep::Initialize);
}

#[test]
fn capture_init_keeps_displays_with_a_capturer() {
    let mut pw = false;
    assert_eq!(finish_capture_init(&vec![false, true, false, true], &mut pw), Ok(vec![1, 3]));
    assert!(pw);
    let mut pw = false;
    assert_eq!(finish_capture_init(&vec![false, false], &mut pw), Err(CaptureInitError::NoCapturer));
    assert!(!pw, "PipeWire is marked initialised only after a capturer exists");
    let mut pw = false;
    assert_eq!(finish_capture_init(&vec![], &mut pw), Err(CaptureInitError::NoCapturer));
    assert!(!pw);
}

use vd_display::uinput::{
    map_btn, mouse_resolution_usable, raw_key_code, scroll_wheel_event, scroll_x_steps,
    scroll_y_steps, stop_service_control, stop_service_keyboard, stop_service_mouse,
    xkb_sym_to_char, MouseButton, ScrollDirection, BTN_BACK, BTN_EXTRA, BTN_FORWARD, BTN_LEFT,
    BTN_MIDDLE, BTN_RIGHT, BTN_SIDE, BTN_TASK, REL_HWHEEL, REL_WHEEL,
};

#[test]
fn mouse_button_codes() {
    assert_eq!(map_btn(&MouseButton::Left), BTN_LEFT);
    assert_eq!(map_btn(&MouseButton::Right), BTN_RIGHT);
    assert_eq!(map_btn(&MouseButton::Middle), BTN_MIDDLE);
    assert_eq!(map_btn(&MouseButton::Side), BTN_SIDE);
    assert_eq!(map_btn(&MouseButton::Extra), BTN_EXTRA);
    assert_eq!(map_btn(&MouseButton::Forward), BTN_FORWARD);
    assert_eq!(map_btn(&MouseButton::Back), BTN_BACK);
    assert_eq!(map_btn(&MouseButton::Task), BTN_TASK);
    assert_eq!(BTN_LEFT, 0x110);
    assert_eq!(BTN_TASK, 0x117);
}

#[test]
fn wheel_events() {
    assert_eq!(scroll_wheel_event(&ScrollDirection::Up), (REL_WHEEL, 1));
    assert_eq!(scroll_wheel_event(&ScrollDirection::Down), (REL_WHEEL, -1));
    assert_eq!(scroll_wheel_event(&ScrollDirection::Left), (REL_HWHEEL, -1));
    assert_eq!(scroll_wheel_event(&ScrollDirection::Right), (REL_HWHEEL, 1));
}

#[test]
fn scroll_steps_direction_and_count() {
    assert!(matches!(scroll_y_steps(-3), (ScrollDirection::Up, 3)));
    assert!(matches!(scroll_y_steps(2), (ScrollDirection::Down, 2)));
    assert!(matches!(scroll_y_steps(0), (ScrollDirection::Down, 0)));
    assert!(matches!(scroll_x_steps(-1), (ScrollDirection::Left, 1)));
    assert!(matches!(scroll_x_steps(i32::MAX), (ScrollDirection::Right, 2147483647)));
}

#[test]
fn raw_codes_offset_by_eight() {
    assert_eq!(raw_key_code(8), 0);
    assert_eq!(raw_key_code(38), 30);
}

#[test]
fn mouse_resolution_checks_both_axes() {
    assert!(mouse_resolution_usable(((0, 1920), (0, 1080))));
    assert!(!mouse_resolution_usable(((0, 0), (0, 1080))));
    assert!(!mouse_resolution_usable(((0, 1920), (5, 5))));
}

#[test]
fn keysym_names() {
    assert_eq!(xkb_sym_to_char("a"), Some('a'));
    assert_eq!(xkb_sym_to_char("Z"), Some('Z'));
    assert_eq!(xkb_sym_to_char("space"), Some(' '));
    assert_eq!(xkb_sym_to_char("exclam"), Some('!'));
    assert_eq!(xkb_sym_to_char("question"), Some('?'));
    assert_eq!(xkb_sym_to_char("quotedbl"), Some('"'));
    assert_eq!(xkb_sym_to_char("backslash"), Some('\\'));
    assert_eq!(xkb_sym_to_char("é"), None);
    assert_eq!(xkb_sym_to_char("dead_acute"), None);
    assert_eq!(xkb_sym_to_char(""), None);
}

#[test]
fn service_stops_return() {
    stop_service_keyboard();
    stop_service_mouse();
    stop_service_control();
}

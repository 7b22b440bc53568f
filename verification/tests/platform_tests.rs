use vd_display::virtual_display::{evdi_addition_entries, AdditionValue};
use vd_display::virtual_display::{EvdiPeers, PlugInCheck};
use vd_display::keymap::{map_key, InputKey, NamedKey};
use vd_display::keymap::{
    dynamic_layout_map, layout_key, us_layout_key, uses_us_layout, x11_layout, xkb_layout_map,
};
use vd_display::mutter::{physical_connectors, LogicalMonitor, MutterMonitor};
use vd_display::uinput::{key_events, modifier_down, KeyAction, Modifier, KEY_LEFTSHIFT};
use vd_display::virtual_display::{
    amyuni_can_plug_in, amyuni_plug_out_count, amyuni_resolution_value, amyuni_slot,
    headless_too_frequent, new_device_name, peer_consumer_resolution, peer_positioning_resolution,
    settle_after_device, AmyuniPlugOutError, AmyuniSlot, MonitorMode, NewDeviceName,
};
use vd_display::virtual_display::{
    area_limit, consumer_buffer_layout, discovery_step, new_card_ids, CgIndexNotFound, CgRegistry,
};
use vd_display::virtual_display::{
    amyuni_count_after, amyuni_retry_plug, device_string_matches, is_device_name,
};
use vd_display::wayland::{cached_display_count, restore_token_outdated};
use vd_display::virtual_display::{is_virtual_display, is_virtual_display_lower};

const XKB: &str = "xkb_symbols \"pc+fr\" {\n\
    key <AE01> {\n        type= \"FOUR_LEVEL\",\n        symbols[Group1]= [       ampersand,               1,     onesuperior,      exclamdown ]\n    };\n\
    key <AD01> {\n        symbols[Group1]= [ a, A ]\n    };\n\
    key <AC01> {\n        symbols[Group1]= [ q, Q ]\n    };\n\
    key <AB01> {\n        symbols[Group1]= [ w, W ]\n    };\n\
    key <AD02> {\n        symbols[Group1]= [ z, Z ]\n    };\n\
};\n";

#[test]
fn xkb_keymap_is_read_in_key_order() {
    let m = xkb_layout_map(XKB);
    assert_eq!(
        m,
        vec![
            ('&', 2, false),
            ('1', 2, true),
            ('a', 16, false),
            ('A', 16, true),
            ('z', 17, false),
            ('Z', 17, true),
            ('q', 30, false),
            ('Q', 30, true),
            ('w', 44, false),
            ('W', 44, true),
        ]
    );
    assert!(dynamic_layout_map("").is_none());
    assert!(dynamic_layout_map("nothing here").is_none());
    assert_eq!(dynamic_layout_map(XKB).map(|m| m.len()), Some(10));
}

#[test]
fn layout_from_localectl() {
    let out = "   System Locale: LANG=fr_FR.UTF-8\n       VC Keymap: fr\n      X11 Layout: fr\n       X11 Model: pc105\n";
    assert_eq!(x11_layout(out), "fr");
    assert_eq!(x11_layout("nothing"), "");
    assert!(uses_us_layout(""));
    assert!(uses_us_layout("us"));
    assert!(!uses_us_layout("fr"));
}

#[test]
fn layout_keys_dynamic_then_us() {
    let m = vec![('a', 16u16, false), ('q', 30, false)];
    assert_eq!(layout_key(Some(&m), 'a'), Some((16, false)));
    assert_eq!(layout_key(Some(&m), 'b'), Some((48, false)));
    assert_eq!(layout_key(None, 'a'), Some((30, false)));
    assert_eq!(us_layout_key('A'), Some((30, true)));
    assert_eq!(us_layout_key('"'), Some((40, true)));
    assert_eq!(us_layout_key('é'), None);
}

#[test]
fn keyboard_events() {
    assert_eq!(key_events(KeyAction::Down, (30, true)), vec![(KEY_LEFTSHIFT, 1), (30, 1)]);
    assert_eq!(key_events(KeyAction::Down, (30, false)), vec![(30, 1)]);
    assert_eq!(key_events(KeyAction::Up, (30, true)), vec![(30, 0)]);
    assert_eq!(key_events(KeyAction::Click, (2, false)), vec![(2, 1), (2, 0)]);
    assert!(modifier_down(Modifier::Shift, &vec![30, 54]));
    assert!(modifier_down(Modifier::Control, &vec![29]));
    assert!(!modifier_down(Modifier::Alt, &vec![29, 42]));
    assert!(modifier_down(Modifier::Meta, &vec![126]));
}

#[test]
fn mutter_physical_connectors() {
    let monitors = vec![
        MutterMonitor { connector: "eDP-1".to_string(), modes: vec![(0, 0), (2560, 1440)] },
        MutterMonitor { connector: "Meta-0".to_string(), modes: vec![(1920, 1080)] },
        MutterMonitor { connector: "HDMI-1".to_string(), modes: vec![] },
    ];
    let logical = vec![
        LogicalMonitor { x: 0, y: 0, scale_bits: 1.0f64.to_bits(), is_primary: true, connectors: vec!["eDP-1".to_string()] },
        LogicalMonitor { x: 2560, y: 0, scale_bits: 1.0f64.to_bits(), is_primary: false, connectors: vec!["Meta-0".to_string(), "HDMI-1".to_string(), "DP-9".to_string()] },
    ];
    let found = physical_connectors(&monitors, &logical).expect("one physical display");
    assert_eq!(found.len(), 1);
    assert_eq!(found[0].name, "eDP-1");
    assert_eq!((found[0].x, found[0].y, found[0].width, found[0].height), (0, 0, 2560, 1440));
    assert!(found[0].is_primary);
    let only_virtual = vec![LogicalMonitor {
        x: 2560,
        y: 0,
        scale_bits: 1.0f64.to_bits(),
        is_primary: false,
        connectors: vec!["Meta-0".to_string(), "HDMI-1".to_string(), "DP-9".to_string()],
    }];
    assert!(physical_connectors(&monitors, &only_virtual).is_none());
}

#[test]
fn amyuni_plug_out_counts() {
    assert_eq!(amyuni_plug_out_count(false, 0, 2, 3, false, false), Err(AmyuniPlugOutError::ManagedByOtherProcesses));
    assert_eq!(amyuni_plug_out_count(false, 0, 2, 3, false, true), Ok(1));
    assert_eq!(amyuni_plug_out_count(true, 0, 0, 0, false, false), Ok(0));
    assert_eq!(amyuni_plug_out_count(true, 0, 0, 1, true, false), Err(AmyuniPlugOutError::NoVirtualDisplays));
    assert_eq!(amyuni_plug_out_count(true, 1, 1, 1, false, false), Err(AmyuniPlugOutError::OnlyDisplay));
    assert_eq!(amyuni_plug_out_count(true, 1, 1, 1, true, false), Ok(1));
    assert_eq!(amyuni_plug_out_count(true, 3, 3, 3, false, false), Ok(2));
    assert_eq!(amyuni_plug_out_count(true, 3, 3, 3, true, false), Ok(3));
    assert_eq!(amyuni_plug_out_count(true, 2, 2, 3, false, false), Ok(2));
    assert_eq!(amyuni_plug_out_count(false, 2, 2, 3, false, false), Ok(1));
    assert!(amyuni_can_plug_in(3));
    assert!(!amyuni_can_plug_in(4));
    assert!(headless_too_frequent(Some(2999)));
    assert!(!headless_too_frequent(Some(3000)));
    assert!(!headless_too_frequent(None));
}

#[test]
fn amyuni_registry_slots() {
    assert_eq!(amyuni_resolution_value(1920, 1080), "1920,1080");
    let existing: Vec<String> = vec!["1920,1080".into(), "2560,1440".into()];
    assert_eq!(amyuni_slot(&existing, "2560,1440"), AmyuniSlot::Present(1));
    assert_eq!(amyuni_slot(&existing, "800,600"), AmyuniSlot::Add(2));
    let full: Vec<String> = (0..10).map(|i| format!("{},1", i)).collect();
    assert_eq!(amyuni_slot(&full, "800,600"), AmyuniSlot::Overwrite(9));
    assert_eq!(amyuni_slot(&full, "3,1"), AmyuniSlot::Present(3));
}

#[test]
fn new_device_names() {
    let before = vec!["\\\\.\\DISPLAY1".to_string()];
    let after = vec!["\\\\.\\DISPLAY1".to_string(), "\\\\.\\DISPLAY2".to_string()];
    assert_eq!(new_device_name(&before, &after), NewDeviceName::One("\\\\.\\DISPLAY2".to_string()));
    assert_eq!(new_device_name(&before, &before), NewDeviceName::NotYet);
    let after2 = vec!["A".to_string(), "B".to_string(), "A".to_string()];
    assert_eq!(new_device_name(&before, &after2), NewDeviceName::Several);
    let after3 = vec!["A".to_string(), "A".to_string()];
    assert_eq!(new_device_name(&before, &after3), NewDeviceName::One("A".to_string()));
}

#[test]
fn peer_request_helpers() {
    let m = |w, h| MonitorMode { width: w, height: h, sync: 60 };
    let modes = vec![vec![m(2340, 1080)], vec![], vec![m(9000, 0)]];
    assert_eq!(peer_positioning_resolution(&modes), (9000, 0));
    assert_eq!(peer_positioning_resolution(&vec![vec![m(1, 2)], vec![]]), (1920, 1080));
    assert_eq!(peer_consumer_resolution(&modes, 0), (2340, 1080));
    assert_eq!(peer_consumer_resolution(&modes, 1), (1920, 1080));
    assert_eq!(peer_consumer_resolution(&modes, 2), (8192, 1));
    assert_eq!(peer_consumer_resolution(&modes, 7), (1920, 1080));
    assert!(settle_after_device(true, 0, 2));
    assert!(!settle_after_device(true, 1, 2));
    assert!(!settle_after_device(false, 0, 2));
}

#[test]
fn restore_token_decisions() {
    assert_eq!(cached_display_count("2"), 2);
    assert_eq!(cached_display_count(""), 0);
    assert_eq!(cached_display_count("x"), 0);
    assert!(restore_token_outdated(2, 3));
    assert!(!restore_token_outdated(0, 3));
    assert!(!restore_token_outdated(2, 2));
}

#[test]
fn evdi_device_helpers() {
    assert_eq!(consumer_buffer_layout(1920, 1080), (1920, 1080, 7680, 7680 * 1080));
    assert_eq!(consumer_buffer_layout(10000, 9000), (8192, 8192, 32768, 32768 * 8192));
    assert_eq!(consumer_buffer_layout(0, 0), (0, 0, 0, 0));
    assert_eq!(area_limit(1920, 1080), 1920 * 1080);
    assert_eq!(area_limit(u32::MAX, 2), u32::MAX);
    assert_eq!(new_card_ids(&vec![0, 1], &vec![1, 2, 0, 3]), vec![2, 3]);
    assert_eq!(new_card_ids(&vec![], &vec![4]), vec![4]);
    assert_eq!(discovery_step(0, false), (true, false));
    assert_eq!(discovery_step(1500, false), (true, true));
    assert_eq!(discovery_step(1500, true), (true, false));
    assert_eq!(discovery_step(5000, false), (false, false));
}

#[test]
fn cg_registry_indices() {
    let mut reg = CgRegistry::new();
    assert_eq!(reg.plug_in(false), 0);
    assert_eq!(reg.plug_in(true), 1);
    assert_eq!(reg.plug_in(false), 2);
    assert_eq!(reg.count(), 3);
    assert!(reg.has_headless());
    assert_eq!(reg.plug_out(1), Ok(vec![1]));
    assert!(!reg.has_headless());
    assert_eq!(reg.plug_out(1), Err(CgIndexNotFound { index: 1 }));
    assert_eq!(reg.plug_out_indices(&vec![2, 7]), vec![2]);
    assert_eq!(reg.count(), 1);
    assert_eq!(reg.plug_in(false), 3);
    assert_eq!(reg.plug_out(-1), Ok(vec![0, 3]));
    assert_eq!(reg.count(), 0);
    assert_eq!(reg.plug_in(true), 4);
    assert_eq!(reg.reset_all(), vec![4]);
    assert_eq!(reg.plug_in(false), 0);
}

#[test]
fn setxkbmap_arguments() {
    let out = "      X11 Layout: de\n     X11 Variant: nodeadkeys\n";
    assert_eq!(
        vd_display::keymap::setxkbmap_args(out),
        Some(vec!["-layout".to_string(), "de".to_string(), "-variant".to_string(), "nodeadkeys".to_string()])
    );
    assert_eq!(
        vd_display::keymap::setxkbmap_args("X11 Layout: fr\n"),
        Some(vec!["-layout".to_string(), "fr".to_string()])
    );
    assert_eq!(vd_display::keymap::setxkbmap_args("VC Keymap: us\n"), None);
    assert_eq!(vd_display::keymap::localectl_setting("  X11 Model: pc105\n", "X11 Model:"), "pc105");
}

#[test]
fn amyuni_counters() {
    assert_eq!(amyuni_count_after(0, true), 1);
    assert_eq!(amyuni_count_after(4, true), 4);
    assert_eq!(amyuni_count_after(0, false), 0);
    assert_eq!(amyuni_count_after(3, false), 2);
    assert!(amyuni_retry_plug(true, true, 2999));
    assert!(!amyuni_retry_plug(true, true, 3000));
    assert!(!amyuni_retry_plug(false, true, 0));
    assert!(!amyuni_retry_plug(true, false, 0));
}

#[test]
fn windows_device_names() {
    assert!(is_device_name("\\\\.\\DISPLAY1", "\\\\.\\DISPLAY1"));
    assert!(is_device_name("\\\\.\\DISPLAY1\0\0", "\\\\.\\DISPLAY1"));
    assert!(!is_device_name("\\\\.\\DISPLAY12", "\\\\.\\DISPLAY1"));
    assert!(!is_device_name("\\\\.\\DISPLAY1", "\\\\.\\DISPLAY10"));
    assert!(!is_device_name("\\\\.\\DISPLAY2", "\\\\.\\DISPLAY1"));
    assert!(device_string_matches("USB Mobile Monitor Virtual Display", "USB Mobile Monitor Virtual Display"));
    assert!(device_string_matches("RustDesk IDD driver", "RustDesk"));
    assert!(!device_string_matches("Rust", "RustDesk"));
    assert!(!device_string_matches("Generic PnP", "RustDesk"));
}

#[test]
fn keymap_keeps_first_key_for_a_character() {
    let text = "key <AE01> {\n symbols[Group1]= [ a, b ]\n};\nkey <AD01> {\n symbols[Group1]= [ a, B ]\n};\n";
    let m = xkb_layout_map(text);
    assert_eq!(m, vec![('a', 2, false), ('b', 2, true), ('B', 16, true)]);
}

#[test]
fn virtual_display_names_from_lower_case() {
    assert!(is_virtual_display_lower("evdi-1"));
    assert!(is_virtual_display_lower("my virtual screen"));
    assert!(!is_virtual_display_lower("EVDI-1"));
    assert!(!is_virtual_display_lower("hdmi-1"));
    assert!(is_virtual_display("EVDI-1"));
    assert!(is_virtual_display("Virtual-2"));
}

#[test]
fn key_map_named_layout_and_unmapped() {
    assert_eq!(map_key(&InputKey::Named(NamedKey::Return), None), Some((28, false)));
    assert_eq!(map_key(&InputKey::Named(NamedKey::Apps), None), Some((127, false)));
    assert_eq!(map_key(&InputKey::Named(NamedKey::Decimal), None), Some((121, false)));
    assert_eq!(map_key(&InputKey::Named(NamedKey::Option), None), Some((0x165, false)));
    assert_eq!(map_key(&InputKey::Layout('a'), None), Some((30, false)));
    let azerty = vec![('a', 16u16, false)];
    assert_eq!(map_key(&InputKey::Layout('a'), Some(&azerty)), Some((16, false)));
    assert_eq!(map_key(&InputKey::Layout('b'), Some(&azerty)), Some((48, false)));
    assert_eq!(map_key(&InputKey::Unmapped, None), None);
}

#[test]
fn evdi_peer_bookkeeping() {
    let mut p = EvdiPeers::new();
    assert_eq!(p.free_peer_index(), 0);
    assert!(p.register_peer(0));
    assert_eq!(p.free_peer_index(), 1);
    assert!(p.register_monitor(5));
    assert!(!p.register_monitor(5), "a taken index is a duplicate");
    assert_eq!(p.free_peer_index(), 6);
    assert!(p.register_peer(6));
    assert_eq!(p.count(), 3);
    assert_eq!(p.plug_in_check(1), PlugInCheck::Create);
    assert_eq!(p.plug_in_check(5), PlugInCheck::AlreadyPresent);
    assert!(p.register_monitor(1));
    assert_eq!(p.plug_in_check(2), PlugInCheck::LimitReached);
    assert_eq!(p.free_peer_index(), 7);
    let (gone, headless) = p.plug_out(5);
    assert_eq!(gone, vec![5]);
    assert!(!headless);
    assert_eq!(p.plug_out(5).0, Vec::<u32>::new());
    assert_eq!(p.plug_out_indices(&vec![9, 6, 6, 0]), vec![6, 0]);
    assert!(p.register_headless());
    assert!(!p.register_headless());
    let (mut rest, headless) = p.plug_out(-1);
    rest.sort();
    assert_eq!(rest, vec![1]);
    assert!(headless);
    assert_eq!(p.count(), 0);
    assert!(!p.has_headless());
    assert!(p.peer_indices().is_empty());
}

#[test]
fn evdi_peer_request_skips_failed_devices() {
    let mut p = EvdiPeers::new();
    assert!(p.register_monitor(1));
    assert_eq!(p.apply_peer_request(&vec![true, false, true]), vec![2, 3]);
    assert_eq!(p.free_peer_index(), 4);
    let mut all = p.peer_indices();
    all.sort();
    assert_eq!(all, vec![1, 2, 3]);
    assert_eq!(p.apply_peer_request(&vec![false, false]), Vec::<u32>::new());
    assert_eq!(p.count(), 3);
}

#[test]
fn evdi_addition_entries_keys_and_values() {
    assert!(evdi_addition_entries(false, 2, true).is_empty());
    let e = evdi_addition_entries(true, 0, false);
    assert_eq!(e.len(), 1);
    assert_eq!(e[0].0, "idd_impl");
    assert!(matches!(&e[0].1, AdditionValue::Text(s) if s == "evdi"));
    let e = evdi_addition_entries(true, 2, true);
    let keys: Vec<&str> = e.iter().map(|(k, _)| k.as_str()).collect();
    assert_eq!(keys, vec!["idd_impl", "evdi_virtual_displays", "evdi_headless"]);
    assert!(matches!(e[1].1, AdditionValue::Count(2)));
    assert!(matches!(e[2].1, AdditionValue::Flag(true)));
}

# vd_display

Verified decision logic for the virtual displays and input services of a
remote-desktop server, written in Verus.

## Layout

- `src/` — the library; every function carries a contract that Verus proves,
  except six small wrappers around std (`Instant::now`, `Duration::from_secs`,
  `Instant::checked_add`, comparing instants, `str::to_lowercase` and
  `str::to_uppercase`), whose contracts are taken on trust and state only
  what std documents.
  - `vd_controller.rs` — the toggle state machine that defers virtual display
    creation until the client's resolution arrives (or a timeout passes).
  - `edid.rs` — EDID blocks for virtual monitors, with the checksum and the
    timing descriptor proved against a byte-level specification.
  - `virtual_display.rs` — custom resolution, display indices, DRM teardown
    plans, Amyuni and IDD bookkeeping, the EVDI peer registry, the CoreGraphics
    display registry.
  - `display_service.rs` — display list synchronisation, changed resolutions,
    primary display, headless decisions, adaptive polling.
  - `xrandr.rs` — sysfs card and connector names, `xrandr` output parsing,
    the steps of placing a new EVDI output.
  - `keymap.rs` — the key map, layout tables from `localectl` and the XKB
    keymap.
  - `mutter.rs` — physical displays from Mutter's display configuration.
  - `uinput.rs`, `wayland.rs` — input event codes, capture bookkeeping.
  - `tokens.rs`, `decimal.rs`, `text.rs` — lines, words, trimming, searching
    and integer parsing, each specified over the characters of the text.
- `tests/` — tests run against the compiled library.
- `app/` — the platform side: global state, sysfs and `xrandr` access,
  sleeping and polling loops around the library's decisions.

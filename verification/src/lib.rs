//! Display management logic for a remote-desktop server: the virtual display
//! toggle state machine, EDID generation for virtual monitors, display
//! synchronisation bookkeeping and the pure parts of the input services.
mod seq_util;
pub mod text;

pub mod vd_controller;
pub mod edid;
pub mod display_service;
pub mod uinput;
pub mod wayland;
pub mod virtual_display;
pub mod tokens;
pub mod decimal;
pub mod xrandr;
pub mod mutter;
pub mod keymap;

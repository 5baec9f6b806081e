//! Per-application keyboard layout memory for a desktop panel applet.
//!
//! The library keeps, for each window, the keyboard layout that was active
//! when the window lost focus, and decides when to switch the layout back.
//! It also rewrites the comma-separated XKB `layout` / `variant` strings so
//! that a chosen layout becomes the active (first) one.

pub mod text;
pub mod xkb;
pub mod text_map;
pub mod focus;
pub mod applet;
pub mod panel;

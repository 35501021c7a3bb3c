//! The windows of the Kova terminal: their tabs and panes, what keys, clicks
//! and clients do to them, and what each frame shows.
//!
//! Nothing here touches the system. A window ([`view::KovaView`]) takes what
//! was read for it as plain values, and lists what it wants done as effects.
pub mod actions;
pub mod attention;
pub mod feather;
pub mod ipc;
pub mod jump;
pub mod keys;
pub mod memory;
pub mod mouse;
pub mod nav;
pub mod overlays;
pub mod pane;
pub mod paths;
pub mod reap;
pub mod recent;
pub mod render;
pub mod resize;
pub mod restore;
pub mod search;
pub mod sidebar;
pub mod sidebar_actions;
pub mod sidebar_model;
pub mod sidebar_ui;
pub mod switcher;
pub mod tabs;
pub mod text;
pub mod tick;
pub mod view;

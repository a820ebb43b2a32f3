//! Verified core of a desktop shell for the Niri compositor: the
//! notification history and popup placement, system notices and the
//! observers' reactions, fuzzy search and the launcher's order, the
//! application catalog, Wi-Fi network bookkeeping, device, battery and
//! panel readings, the menu, and the rules of the background-application
//! manager. Reading files, running commands and talking to the buses are
//! left to the caller, which hands the results over as plain values.

pub mod apps;
pub mod background;
pub mod config;
pub mod fuzzy;
pub mod launcher;
pub mod menu;
pub mod modules;
pub mod niri;
pub mod network;
pub mod notifications;
pub mod notification_center;
pub mod order;
pub mod panel;
pub mod popup_layout;
pub mod process;
pub mod services;
pub mod text;

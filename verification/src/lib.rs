//! Input-side decisions of a game client: the touch arbiter, the soft-keyboard driver, the
//! camera-view verbs and their request queue, and how an on/off tunable is read.
pub mod camera_view;
pub mod config;
pub mod keyboard;
pub mod touch;

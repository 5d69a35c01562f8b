//! Core logic of the Audiover voice changer and soundboard: hotkey
//! bindings, device and stream-configuration choices, the setup of the
//! virtual devices, playback cursors, the sound library, preset
//! bookkeeping and the in-memory log ring, each with its contract.
use vstd::prelude::*;

pub mod config;
pub mod devices;
pub mod hotkeys;
pub mod keymap;
pub mod library;
pub mod log_buffer;
pub mod pactl;
pub mod playback;
pub mod presets;
pub mod router;
pub mod settings;
pub mod soundboard;
pub mod table;
pub mod text;

verus! {

} // verus!

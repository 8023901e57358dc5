pub mod text;
pub mod order;
pub mod labels;
pub mod config;
pub mod presets;
pub mod settings;
pub mod listing;
pub mod media;
pub mod playback;
pub mod multiview;
pub mod keys;
pub mod overlay;
pub mod layout;
pub mod updater;

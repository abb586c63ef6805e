//! Verified core of the Illium desktop shell: pure models, framing and
//! bookkeeping that the platform layer drives.
pub mod apps;
pub mod audio;
pub mod cache;
pub mod bar;
pub mod battery;
pub mod browser;
pub mod dictate;
pub mod disk_cache;
pub mod focus;
pub mod escape;
pub mod geometry;
pub mod hook;
pub mod keybindings;
pub mod launcher;
pub mod manager;
pub mod pixels;
pub mod protocol;
pub mod provider;
pub mod queue;
pub mod request;
pub mod text;
pub mod screensaver;
pub mod session;
pub mod space_picker;
pub mod state;
pub mod status;
pub mod terminal;
pub mod theme_loader;
pub mod theme_picker;
pub mod theme_render;
pub mod traffic;
pub mod wallpaper;
pub mod wallpaper_loader;

pub mod clipboard;
pub mod codec;
pub mod collections;
pub mod database;
pub mod exclusions;
pub mod hotkey;
pub mod hotkey_poll;
pub mod input_monitor;
pub mod paste_helper;
pub mod platform;
pub mod qrcode;
pub mod settings;
pub mod text;
pub mod tray;
pub mod window;

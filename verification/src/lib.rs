//! Verified core of the Software Center backends: AppImage update logic,
//! AppStream catalog handling, the store's package and Flatpak views,
//! Flatpak / DNF / RPM command construction, the text formats these tools
//! exchange, and the tray checker's state, notification and badge.

pub mod text;
pub mod num;
pub mod date;
pub mod appimage;
pub mod stream;
pub mod appstream;
pub mod flatpak;
pub mod packages;
pub mod updates;
pub mod daemon;
pub mod home;
pub mod overrides;
pub mod order;
pub mod badge;
pub mod store;
pub mod replace;
pub mod update;

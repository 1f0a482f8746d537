//! The logic of a Wayland wallpaper client: it shows a downloaded picture, or a
//! plain colour, on the background layer of the desktop.
//!
//! The library decides, its caller acts. Each event of the compositor is handed to
//! a method of [`client::Client`], which updates the client and returns the requests
//! to perform, in order. [`fetch::Fetch`] does the same for the search for a picture,
//! and [`run::Step`] for the program as a whole.

pub mod cache;
pub mod client;
pub mod decoder;
pub mod event;
pub mod fetch;
pub mod frame;
pub mod globals;
pub mod header;
pub mod laws;
pub mod ledger;
pub mod picture;
pub mod pixmap;
pub mod request;
pub mod run;
pub mod window;

//! Discovery of Android devices, wireless pairing by QR code and the
//! bookkeeping of screen-mirroring sessions, as a verified library.
//!
//! The library decides and computes; it runs no tool and opens no socket.
//! Where outside work alternates with decisions, a function of the library
//! says what is to be done next and another takes what came of it.

pub mod decimal;
pub mod devices;
pub mod network;
pub mod pairing;
pub mod qr;
pub mod session;
pub mod svg;
pub mod text;
pub mod tool;

pub use devices::Device;
pub use network::NetworkDevice;

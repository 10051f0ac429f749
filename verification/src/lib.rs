//! The rules of a worker that relays live video from a server to browsers.
//!
//! The worker keeps one link to the server, over which framed packets come, and one WebSocket
//! link to each browser. Video from the server goes to every browser; an instruction to drop a
//! viewer goes to every browser's link, and the one at that address closes itself.
//!
//! - `packer`: the packets and their wire format
//! - `relay`: what the links hand to each other, and the length field that both read
//! - `server`: the link to the server
//! - `browser`: the link to one browser
//! - `ws_handshake`: the handshake with a browser, driven by events
//! - `http`: the head of a browser's request
//! - `digest`: the value that accepts an upgrade
//! - `websocket`: messages to a browser
//! - `addr`, `be`, `buffers`: addresses, big-endian numbers, byte buffers
//! - `laws`: what holds across these
//!
//! Reading from and writing to connections is left to the program around the library.

pub mod addr;
pub mod be;
pub mod browser;
pub mod buffers;
pub mod digest;
pub mod http;
pub mod laws;
pub mod packer;
pub mod relay;
pub mod server;
pub mod websocket;
pub mod ws_handshake;

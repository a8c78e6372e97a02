//! Guest-side protocol core for Tarmac WASM modules: a JSON envelope codec
//! for the request/response records exchanged with the host, a handler table
//! keyed by route name, a dispatcher, and a bridge for host capability calls.
pub mod bridge;
pub mod codec;
pub mod dispatch;
pub mod handlers;
pub mod interop;
pub mod table;


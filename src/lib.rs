//! Market-data quote streaming: command grammar, subscription registry and
//! per-client transmitter decisions of a quote server and its client.
pub mod client_cli;
pub mod errors;
pub mod generator;
pub mod pinger;
pub mod protocol;
pub mod registry;
pub mod server_cli;
pub mod text;
pub mod transmitter;
pub mod utils;

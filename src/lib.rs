//! Limit order books driven by a NASDAQ TotalView-ITCH 5.0 feed: a decoder
//! for the framed binary messages, a buffered message stream, and books that
//! aggregate resting orders by price level over a shared level pool.

pub mod price;
pub mod quantity;
pub mod utils;
pub mod level;
pub mod pool;
pub mod order;
pub mod orderbook;
pub mod model;
pub mod orderbook_manager;
pub mod manager_steps;
pub mod laws;
pub mod wire;
pub mod message;
pub mod itch_price;
pub mod message_stream;

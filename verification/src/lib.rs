//! A small dad-joke service library.
//!
//! The heart of the library is [`pool::JokePool`], an in-memory dispenser
//! that hands out jokes from a fixed universe without repeating any until
//! the whole universe has been exhausted, then refills and starts over.
//! Around it stand the pure decision rules of the service: choosing the
//! fallback joke when external generation fails, assembling the response
//! for a client, selecting the most recent stored jokes, and resolving
//! configuration. All I/O (HTTP, database, the external completion API)
//! lives outside this crate and hands these functions plain values.

pub mod config;
pub mod pool;
pub mod service;
pub mod store;

pub use config::Settings;
pub use pool::JokePool;
pub use service::JokeResponse;
pub use store::StoredJoke;

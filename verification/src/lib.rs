//! The verified core of a client that follows a pool through event
//! subscriptions: one snapshot seeds the model, and every later change comes
//! from pushed headers and logs.
//!
//! [`EventSynchronizer`] turns an ordered stream of headers and logs into
//! finalized models. [`Handshake`], [`SeedSearch`] and [`EventDrivenSdk`] are the
//! decisions of the client around it: subscribing, finding the block to take the
//! snapshot at, and following the stream. Sockets, timers and the decoding of
//! payloads belong to the program that drives them.
pub mod ancestry;
pub mod client;
pub mod error;
pub mod handshake;
pub mod json;
pub mod laws;
pub mod message_laws;
pub mod pending;
pub mod reducer_laws;
pub mod replay;
pub mod runs;
pub mod seed;
pub mod session;
pub mod startup_laws;
pub mod stream;
pub mod synchronizer;
pub mod types;
pub mod view_laws;
pub mod wire;

pub use client::{Action, Event, EventDrivenSdk};
pub use error::Error;
pub use handshake::Handshake;
pub use seed::{SeedAction, SeedSearch};
pub use synchronizer::EventSynchronizer;
pub use types::{Address, Block, BlockHeader, CommitState, Config, PoolModel, RpcLog, Update, B256};
pub use wire::{SocketAction, SocketEvent, Subscription, Subscriptions};

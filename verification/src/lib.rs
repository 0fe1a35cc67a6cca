//! A hand-built multi-producer, single-consumer channel and the small
//! servers that live around it.
//!
//! The heart of the crate is [`channel`]: a blocking message channel made
//! from one lock, in an unbounded and a bounded (backpressured) variant,
//! with a receiver-side buffer that drains the shared queue in one swap.
//! Every step a handle takes under the lock has an exact contract, and the
//! cross-step laws -- first-in first-out delivery, loss-free fan-in,
//! irreversible closure, the capacity bound -- are proved over
//! [`channel::ChannelModel`], the serialized transition model that those
//! steps realize.
//!
//! Around the channel stand the data and decision layers of the servers
//! that consume it: the key-value store ([`db`]) and its wire protocol
//! ([`redis_parser`]), HTTP request parsing ([`request`]) and reply
//! rendering ([`response`]), routing and retry decisions ([`connection`]),
//! the error values ([`errors`]), and the verified text toolbox they share
//! ([`strutil`]).  Socket handling, file reading and the event loops are
//! left to the thin unverified shells that call in here.

pub mod channel;
pub mod connection;
pub mod db;
pub mod errors;
pub mod redis_parser;
pub mod request;
pub mod response;
pub mod strutil;

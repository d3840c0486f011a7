//! A relay between a publish/subscribe broker and a point-to-point socket peer.
//!
//! The crate holds the decisions of the relay: the wire codec of the socket
//! envelope, the topic router, the hysteresis filter on one telemetry stream and
//! the handlers that turn one incoming event into the commands to carry out.
//! It performs no I/O; the program around it owns the two transports.
//!
//! - [`envelope`], [`codec`], [`grammar`]: the envelope, its encoder and
//!   decoder, and the grammar of its wire form; [`json`] and [`quoted`] are
//!   the tokens underneath.
//! - [`sample`], [`threshold`]: telemetry readings and the alerting rule.
//! - [`config`], [`router`]: the routing and alias tables, and the routes in
//!   both directions.
//! - [`subscriptions`], [`heartbeat`], [`bridge`]: the relay's state and its
//!   reaction to each event.
//! - [`ident`], [`text`]: the client name, and helpers on texts.

pub mod json;
pub mod quoted;
pub mod envelope;
pub mod codec;
pub mod grammar;
pub mod sample;
pub mod threshold;
pub mod text;
pub mod config;
pub mod router;
pub mod subscriptions;
pub mod heartbeat;
pub mod bridge;
pub mod ident;


//! Watches a fleet of self-hosted GitHub runners. Every poll gives a
//! snapshot of the fleet; two snapshots in a row are compared, and each
//! change that is worth an alert goes to a webhook: a runner that is new, a
//! runner that is gone, and a runner that has gone online or offline and
//! stayed so for longer than the grace period.
//!
//! - `structs`: a runner, a change, the settings.
//! - `runner_map`: a snapshot, the runners of one poll under their keys.
//! - `grace`: the rule of the grace period for one runner, and what
//!   follows from it.
//! - `alert`: the comparison of two snapshots, and what follows from it.
//! - `outbox`: the alert handler and the record of what it was given and
//!   of what it answered.
//! - `client`: how the HTTP clients are to be set up.
//! - `github`: what GitHub answers, and how a runner gets its key.
//! - `config`: the configuration file and the settings made from it.
//! - `inbound`: the words of an alert and the event for the webhook.

pub mod alert;
pub mod client;
pub mod config;
pub mod github;
pub mod grace;
pub mod inbound;
pub mod outbox;
pub mod runner_map;
pub mod structs;

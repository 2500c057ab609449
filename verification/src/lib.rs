//! Movement detection and prediction batching for real-time transit feeds.
//!
//! A vehicle-position feed is read against the positions that the feed
//! before it left behind ([`vehicle_positions`]); each change of status that
//! is an arrival or a departure ([`movement`]) becomes a movement event. A
//! trip-update feed becomes a batch of prediction rows under one stamp
//! ([`predictions`]), which is written out as load text ([`copy_text`]) and
//! ranked stop by stop ([`ranking`]). What the events and batches do to the
//! two tables that keep them is laid down by an in-memory store ([`store`]).

pub mod copy_text;
pub mod gtfs_realtime;
pub mod helpers;
pub mod movement;
pub mod predictions;
pub mod ranking;
pub mod store;
pub mod text;
pub mod time;
pub mod vehicle_positions;

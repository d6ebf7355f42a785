//! A verified core for a train-delay monitoring bot: ticket extraction from
//! uploaded documents, the scraped delay-feed parser, the concurrent-use
//! ticket store's logic, the per-user notification window tracker, and the
//! poll cycle that ties them together.

pub mod chars;
pub mod datetime;
pub mod delayed_trains;
pub mod digits;
pub mod html;
pub mod monitor;
pub mod notify;
pub mod store;
pub mod ticket;
pub mod tracker;

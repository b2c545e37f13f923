//! A tracker of recurring events: recurrence rules, the life cycle of each
//! event, the computation of the next due time, a keyed store of events and
//! reversible commands over that store.

pub mod calendar;
pub mod command;
pub mod error;
pub mod event;
pub mod event_store;
pub mod input;
pub mod interval;
pub mod listing;
pub mod resolve;
pub mod schedule;
pub mod status;
pub mod text;
pub mod time;
pub mod tracked_event;
pub mod tracker;
pub mod view;

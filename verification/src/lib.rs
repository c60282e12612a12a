//! Reminder scheduling engine: decides, from declarative time-based reminder
//! rules and a wall clock read once per tick, which notifications must fire,
//! exactly once, across process restarts and irregular polling.

pub mod calendar;
pub mod timetext;
pub mod model;
pub mod sentlog;
pub mod notify;
pub mod evaluate;
pub mod clock;
pub mod scheduler;
pub mod laws;
pub mod widget;
pub mod pdf;

pub use calendar::Date;

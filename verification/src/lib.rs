//! Visitor engagement tracking and ranking for a webring directory.
//!
//! Member sites embed a badge whose fill level shows how much traffic and
//! referral activity the member has today, relative to the network's
//! average of the day before. This library is the engine behind the
//! badge: it keeps the counters, decides which visits count, turns counts
//! into levels, plans what to persist and when to roll over to a new day,
//! and ranks the members over windows of days. It serves no request and
//! touches no database: its callers hand it plain values and act on what
//! it returns.
//!
//! * [`engagement`]: the level of a member, from its counts and the
//!   baseline.
//! * [`counter_store`]: today's counters of all members.
//! * [`dedup`]: the cache that remembers which visitor was counted.
//! * [`visitor`]: kinds of visits and the key of a visit.
//! * [`membership_model`]: members and the directory that finds them.
//! * [`statistics_model`]: persisted rows and the baseline of a day.
//! * [`ranking`]: the ranking of members over a window of days.
//! * [`app_model`]: the engine that owns all of these.
//! * [`scheduler`]: what to persist at a tick, and when a day ends.
//! * [`redact`]: what live subscribers hear of a visit.
//! * [`referrer`]: the referring site of a request.
//! * [`app_router`]: what the pages and the badge show.
//! * [`boring_face`], [`text`]: the drawing of the badge.
//! * [`clock`]: timestamps and days.
//! * [`app_error`]: errors that are answered with a status.

pub mod app_error;
pub mod app_model;
pub mod app_router;
pub mod boring_face;
pub mod clock;
pub mod counter_store;
pub mod dedup;
pub mod engagement;
pub mod membership_model;
pub mod ranking;
pub mod redact;
pub mod referrer;
pub mod scheduler;
pub mod statistics_model;
pub mod text;
pub mod visitor;

pub use crate::clock::now_shanghai;

//! The hunt tracker's rules: which weapon a chat-log line came from, what a
//! shot costs, how loot settles into kills, and what a session adds up to.
//!
//! Amounts of money and damage are integers in units of 10^-12; instants and
//! durations are integers in nanoseconds. All rules are exact in them.

pub mod activities;
pub mod aggregate;
pub mod attribution;
pub mod booking_laws;
pub mod combat;
pub mod commands;
pub mod decision;
pub mod declaring_laws;
pub mod dose_laws;
pub mod dose_plan_laws;
pub mod doses;
pub mod effects;
pub mod enhancers;
pub mod evidence;
pub mod evidence_laws;
pub mod expected;
pub mod expected_laws;
pub mod harvest;
pub mod healing;
pub mod ids;
pub mod interval_laws;
pub mod intervals;
pub mod lifecycle;
pub mod lists;
pub mod loot;
pub mod loot_laws;
pub mod moving_laws;
pub mod naming_laws;
pub mod net_curve;
pub mod phases;
pub mod providers;
pub mod reading_laws;
pub mod readout;
pub mod records;
pub mod regime;
pub mod regime_laws;
pub mod session;
pub mod session_laws;
pub mod snapshot;
pub mod standing_laws;
pub mod steps;
pub mod telling_laws;
pub mod text;
pub mod units;

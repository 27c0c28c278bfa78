//! A small fuel-consumption calculator: it reads free-form command text such
//! as `/refuel 500km 30l 2000rub`, extracts the tagged numeric measurements,
//! and renders derived metrics (fuel per distance, distance per fuel, cost per
//! distance) as a formatted reply.
//!
//! Numbers are handled as exact unsigned decimals (an integer mantissa and a
//! power-of-ten scale), and every derived metric is an exactly rounded
//! quotient, so the whole pipeline from text to reply is verified.
#![verifier::loop_isolation(false)]

pub mod fmt;
pub mod laws;
pub mod lex;
pub mod metrics;
pub mod num;
pub mod reply;

pub use reply::dispatch_reply;
pub use reply::refuel_reply;

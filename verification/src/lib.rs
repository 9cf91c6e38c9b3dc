//! # rustopus
//!
//! HTTP request orchestration for API wrapper crates: per-API rate limiting,
//! bounded concurrency, and retry/backoff driven by a pluggable [`Policy`].
//!
//! This crate makes every decision and does no waiting: [`Arm::send`] yields a
//! [`Flight`], which turns each [`Event`] into the next [`Action`]. Whoever
//! drives it acquires the slots, reads the clock, sleeps and talks to the
//! network.
//!
//! ## Anatomy
//!
//! | Octopus       | In the code                                                       |
//! |---------------|-------------------------------------------------------------------|
//! | **Arm**       | [`Arm`]: one per API.                                             |
//! | **Suckers**   | The concurrency slots of an arm ([`ArmBuilder::suckers`]).        |
//! | **Brain**     | [`Brain`]: the lane-wide pause that all requests of an arm share. |
//! | **Tentacles** | [`Flight`]: one request on its way.                               |
//! | **Policies**  | [`Policy`]: what a response means for *this* API.                 |
//!
//! Times in contracts are whole nanoseconds ([`duration::nanos`]). What holds
//! of the library as a whole is proved in [`backoff_laws`], [`delay_laws`],
//! [`policy_laws`] and [`flight_laws`].

pub mod accuracy;
pub mod arm;
pub mod backoff;
pub mod backoff_laws;
pub mod brain;
pub mod delay_laws;
pub mod double;
pub mod duration;
pub mod error;
pub mod flight;
pub mod flight_laws;
pub mod natural;
pub mod outcome;
pub mod policy;
pub mod policy_laws;
pub mod span;
pub mod status;
pub mod text;
pub mod transport;

pub use arm::{Arm, ArmBuilder};
pub use backoff::{Backoff, Factor};
pub use brain::{Brain, Turn};
pub use error::{Error, Source, TransportError, TransportErrorKind};
pub use flight::{Action, Event, Flight, Phase};
pub use outcome::Outcome;
pub use policy::{Decision, HttpStatusError, Policy, StatusPolicy};
pub use span::SpanFields;
pub use status::{InvalidStatusCode, StatusCode};
pub use transport::ReqwestTransport;

/// Re-exported so wrapper crates use the exact same versions.
pub use governor::Quota;
pub use reqwest;

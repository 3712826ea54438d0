//! A market for automated research: competitions, referees, rewards, privacy
//! tiers, disputes and the operator compute that runs researcher methods.
//!
//! Money is integer wei and lift is integer micro-units wherever a payout is
//! decided. Scores arrive as IEEE-754 doubles; the library holds them by their
//! bit patterns ([`binary64::Binary64`]) and only ever compares them.
pub mod amounts;
pub mod attestation;
pub mod binary64;
pub mod collaborative;
pub mod config;
pub mod continuous;
pub mod dispute;
pub mod encoding;
pub mod fnv;
pub mod jobs;
pub mod json;
pub mod keyed;
pub mod marketplace;
pub mod operator;
pub mod orchestrator;
pub mod order;
pub mod privacy;
pub mod private;
pub mod registration;
pub mod reward;
pub mod sandbox;
pub mod sandbox_engine;
pub mod sandbox_local;
pub mod sandbox_runtime;
pub mod slash;
pub mod stake;
pub mod store;
pub mod supervisor;
pub mod text;
pub mod training;
pub mod traits;
pub mod types;

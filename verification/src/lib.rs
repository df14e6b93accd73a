//! The core of a spaced-repetition review service: an FSRS-style adaptive
//! scheduling engine over fixed-point integers, the session state machine
//! that drives interactive review, the provider-failover layer that answers
//! are evaluated through, and the text processing that feeds card generation.
//! Everything here is verified; transport, storage, and the outside network
//! calls live in the embedding application.

pub mod api;
pub mod card;
pub mod config;
pub mod error;
pub mod external;
pub mod fixed;
pub mod html;
pub mod ingest;
pub mod manager;
pub mod provider;
pub mod review;
pub mod scheduler;
pub mod session;
pub mod source;
pub mod strutil;
pub mod text;

//! Confidential range checks on account balances held by a financial data
//! provider.
//!
//! The library builds the provider's request messages, parses its responses,
//! decides whether a balance lies in a caller's range, and sequences the
//! calls to an attested proof service. It performs no I/O itself: a caller
//! sends each message the library hands out and feeds the reply back in.
//!
//! - `connector` routes an operation to its flow, step by step.
//! - `operation` is the dispatch table, and `settings` what a deployment
//!   fixes.
//! - `request` reads the caller's parameters and builds the provider's
//!   requests; `wire` renders requests and parses responses.
//! - `range` decides membership; `attest` asks the proof service; `envelope`
//!   shapes the result.
//! - `secret` holds the key pair and decrypts secrets; `json` holds the
//!   documents and their codec; `error` the ways a request can fail.

pub mod attest;
pub mod connector;
pub mod envelope;
pub mod error;
pub mod json;
pub mod operation;
pub mod range;
pub mod request;
pub mod secret;
pub mod settings;
pub mod wire;

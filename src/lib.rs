//! Caching and orchestration of short-lived authentication tokens.
//!
//! - `token`: the token value and its expiry rule.
//! - `keyed`: a table keyed by ordered scope lists, compared structurally.
//! - `cache`: the single-flight, expiry-aware token cache, as a state machine.
//! - `chained_token_credential`: ordered fallback over several sources, with
//!   optional pinning of the first source that succeeds, and the aggregate error.
//! - `azureauth_cli_credentials`: configuration, arguments and output of the
//!   azureauth CLI.
//! - `refresh_token`: refresh-token exchange requests and the endpoint's answers.
//! - `devicecode_credentials`: refresh-token storage and expiry arithmetic of the
//!   device-code flow.
//! - `error`: the failures this library reports.
pub mod azureauth_cli_credentials;
pub mod cache;
pub mod chained_token_credential;
pub mod devicecode_credentials;
pub mod error;
pub mod keyed;
pub mod refresh_token;
pub mod token;

//! A two-tier admission-control gate for an HTTP service.
//!
//! Every inbound request is checked once, before routing: a fast,
//! approximate pre-filter sheds high-volume abuse at O(1) space, and a
//! precise per-client fixed-window limiter enforces the exact quota for
//! whatever the pre-filter let through. The two are composed with
//! short-circuiting AND by the [`gate::Gate`].
//!
//! All limiter state is in memory and time is handed in by the caller as
//! plain seconds, so every decision here is a total, verified function of
//! limiter state, the client key and the clock reading.

pub mod clock;
pub mod config;
pub mod conventional;
pub mod gate;
pub mod key;
pub mod laws;
pub mod opts;
pub mod pre_filter;

//! Configuration model for a status display built from small text blocks.
//!
//! A configuration text is split into a global section and a sequence of
//! per-block sections of `key: value` lines.  Each block owns a content
//! variant (fixed text, interval-polled command, or persistent subscription)
//! together with a per-monitor buffer of the most recently observed text,
//! and offers a drain-on-read protocol that lets a renderer skip blocks
//! whose text has not changed.

pub mod block;
pub mod scan;
pub mod text;

//! A minimal node for a message-passing distributed-systems harness.
//!
//! Messages travel as single lines of flattened JSON: an envelope with a
//! source, a destination and a payload whose variant fields sit beside the
//! `msg_id`/`in_reply_to` correlation fields.  The crate models that wire
//! grammar, proves the codec round-trips, and implements an echo node whose
//! replies are proved to swap addresses, correlate ids and preserve content.

pub mod codec;
pub mod node;
pub mod protocol;
pub mod wire;

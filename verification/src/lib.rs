//! Diagnostics delivery, edit planning and backend coordination for a bridge
//! between an agent host and its language servers.
//!
//! Every item is verified. Text is modelled by its characters, tables by maps,
//! instants by nanoseconds since an arbitrary origin.

pub mod actions;
pub mod attribution;
pub mod build_laws;
pub mod clock;
pub mod config;
pub mod control;
pub mod delivery;
pub mod delivery_laws;
pub mod diagnostics;
pub mod disk_laws;
pub mod edit_requests;
pub mod edits;
pub mod encoding;
pub mod endpoint;
pub mod error;
pub mod floors;
pub mod flush_laws;
pub mod frontend;
pub mod handshake;
pub mod hash_laws;
pub mod identity;
pub mod inbound;
pub mod journal;
pub mod ledger;
pub mod lifecycle;
pub mod message_laws;
pub mod offsets;
pub mod order;
pub mod outline_laws;
pub mod plan;
pub mod plan_laws;
pub mod position_laws;
pub mod reading_laws;
pub mod record_laws;
pub mod record_lifetime;
pub mod reply;
pub mod report_laws;
pub mod resources;
pub mod respawn;
pub mod resync;
pub mod search;
pub mod server_laws;
pub mod settle;
pub mod settle_laws;
pub mod shown_edits;
pub mod shown_laws;
pub mod soundness;
pub mod spawn;
pub mod stub;
pub mod symbols;
pub mod sync_laws;
pub mod table;
pub mod telling_laws;
pub mod text;
pub mod uris;
pub mod user_control;

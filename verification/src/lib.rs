//! Local Send Online: direct peer-to-peer file transfer between devices on
//! different networks, with no data ever passing through a relay.
//!
//! * control plane: `node` (connection requests, relay reservations, DHT
//!   announcements, NAT diagnosis), `rendezvous`, `ticket`, `addr`;
//! * data plane: `protocol`, `sender`, `receiver`, `names`, confined to
//!   direct connections by `direct_only`.
use vstd::prelude::*;

pub mod text;
pub mod digest;
pub mod rendezvous;
pub mod addr;
pub mod direct_only;
pub mod names;
pub mod protocol;
pub mod sender;
pub mod receiver;
pub mod json;
pub mod ticket;
pub mod node;
pub mod identity;
pub mod config;
pub mod frontend;

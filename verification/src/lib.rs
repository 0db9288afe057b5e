//! Verified core of a UDP relay for Minecraft Bedrock Edition: RakNet discovery
//! packets, MTU capping, the relay's session bookkeeping, the reconnect policy and
//! the profile list operations.

pub mod bytes;
pub mod text;
pub mod discovery;
pub mod profile;
pub mod session_table;
pub mod proxy;
pub mod reconnect;

pub use profile::Profile;
pub use proxy::{ProxyState, TrafficStats, MTU_CAP};

//! Verified core logic of the unhosted local-inference daemon and its
//! agent runtime.

use vstd::prelude::*;

pub mod agent;
pub mod agent_fs;
pub mod audit;
pub mod chats;
pub mod cli;
pub mod auth;
pub mod clock;
pub mod connectors;
pub mod critique;
pub mod discovery;
pub mod dlp;
pub mod identity;
pub mod memory;
pub mod metrics;
pub mod model_manager;
pub mod node;
pub mod pairing;
pub mod paths;
pub mod persona;
pub mod public_mode;
pub mod relay_client;
pub mod router;
pub mod stream;
pub mod swarm;
pub mod text;
pub mod transport;
pub mod tunnel;
pub mod update_check;
pub mod upstream;
pub mod voice;
pub mod vram_pool;

verus! {

} // verus!

//! eDepot, a host defense library: connection events are routed by source
//! address to workers whose rule engines count them over sliding windows
//! and ban the sources that pass a rule's threshold.

pub mod net;
pub mod text;
pub mod clock;
pub mod channel;
pub mod config;
pub mod cli;
pub mod event;
pub mod collector;
pub mod xdp;
pub mod rules;
pub mod dispatcher;
pub mod worker;
pub mod nft;
pub mod storage;
pub mod env_check;

//! Run configuration for a listener built on this crate.
//!
//! The values are plain data; reading them from command-line arguments or
//! the environment, and connecting to the named endpoints, belongs to the
//! program around the library.
use vstd::prelude::*;

verus! {

/// How a listener run is set up: the websocket and HTTP endpoints of the
/// chain-data provider, where in history to start, and whether to keep
/// watching new blocks. At most one of `since_block` and `prev_blocks` is
/// meant to be set; both `None` means the current head only.
pub struct UniListenConfig {
    pub ws_url: String,
    pub http_url: String,
    pub since_block: Option<u64>,
    pub prev_blocks: Option<u32>,
    pub watch_blocks: bool,
}

} // verus!

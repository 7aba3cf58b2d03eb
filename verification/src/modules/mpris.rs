//! The media-player module.
use vstd::prelude::*;

verus! {

/// Runtime configuration for the mpris module.
#[derive(Debug, Clone)]
pub struct MprisConfig {
    /// Maximum number of Unicode scalar values to display before appending "…"; zero means
    /// no limit.
    pub max_length: usize,
    /// Optional exec command (`sh -c <exec>`) whose stdout drives this module.
    pub command: Option<String>,
}

impl Default for MprisConfig {
    fn default() -> (r: MprisConfig)
        ensures
            r.max_length == 0,
            r.command is None,
    {
        MprisConfig { max_length: 0, command: None }
    }
}

} // verus!

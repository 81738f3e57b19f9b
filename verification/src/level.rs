//! A level: what its server tells about it, and its chart.

use crate::server::Server;
use crate::sonolus::{LevelData, LevelInfo};
use vstd::prelude::*;

verus! {

/// A level, with the server it came from.
#[derive(Debug)]
pub struct Level {
    pub server: Server,
    pub info: LevelInfo,
    pub data: LevelData,
}

impl Level {
    /// Puts a level together from its parts.
    pub fn new(server: Server, info: LevelInfo, data: LevelData) -> (level: Level)
        ensures
            level.server == server,
            level.info == info,
            level.data == data,
    {
        Level { server, info, data }
    }
}

} // verus!

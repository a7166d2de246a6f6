//! The recognized options of a node, as plain values.

use vstd::prelude::*;
use vstd::string::*;

verus! {

/// Which storage engine a node runs.
#[derive(Debug, Clone, Copy, PartialEq, Eq, Structural)]
pub enum BackendType {
    InMemory,
    Stub,
    Pearl,
}

/// The layout of the time-partitioned engine on disk.
#[derive(Debug)]
pub struct BackendSettings {
    /// The directory, under a disk's path, that holds the node's own data.
    pub root_dir_name: String,
    /// The directory, under the alien disk's path, that holds alien data.
    pub alien_root_dir_name: String,
    /// The length of a time partition's window, in seconds. It is positive.
    pub timestamp_period: i64,
}

/// The options of the time-partitioned engine.
#[derive(Debug)]
pub struct PearlConfig {
    /// The name of the disk reserved for alien data.
    pub alien_disk: String,
    /// How long a group waits before it repeats a failed stage of its start, in milliseconds.
    pub fail_retry_timeout: u64,
    pub settings: BackendSettings,
}

/// The options of one node.
#[derive(Debug)]
pub struct NodeConfig {
    pub name: String,
    pub backend_type: BackendType,
    pub pearl: Option<PearlConfig>,
    /// How often the connections to the peers are checked, in milliseconds.
    pub check_interval: u64,
}

impl NodeConfig {
    pub fn name(&self) -> (r: &str)
        ensures
            r@ == self.name@,
    {
        self.name.as_str()
    }

    pub fn backend_type(&self) -> (r: BackendType)
        ensures
            r == self.backend_type,
    {
        self.backend_type
    }
}

} // verus!

//! Payload types that PackRat's services carry over the multiplexer.
use vstd::prelude::*;

verus! {

/// Parameters of one replay pack.
#[derive(Clone, Debug)]
pub struct ReplayPack {
    pub name: String,
    pub path: String,
    pub project: String,
    pub ip_config: String,
    pub ip_version_manifest: String,
    pub ps_key: String,
    pub ps_tag: String,
    pub generate_training_files: bool,
    pub zip_training_tiffs: bool,
    pub skip_required_run_check: bool,
    /// Inserted as-is into the XML
    pub custom_keys: String,
}

/// A job: a named group of replay packs.
#[derive(Clone, Debug)]
pub struct Job {
    pub name: String,
    pub description: String,
    pub is_archived: bool,
    pub replays: Vec<ReplayPack>,
}

/// A worker's status as the front end sees it.
#[derive(Clone, Debug)]
pub enum FrontendWorkerStatusUpdate {
    Disconnected {
        /// When this worker was last online
        last_seen: String,
    },
    Online(BackendWorkerStatus),
}

/// A worker's address and status.
#[derive(Clone, Debug)]
pub struct WorkerSummary {
    pub address: String,
    pub data: FrontendWorkerStatusUpdate,
}

/// A worker's status as it reports it.
#[derive(Clone, Debug, PartialEq)]
pub enum BackendWorkerStatus {
    Replaying { current_board_index: usize, total_boards: usize },
    Error { mins_to_timeout: u32, summary: String },
}

/// Progress of a replay process.
pub enum ReplayStatus {
    Setup { message: String },
    Running { current_board_index: usize, total_boards: usize },
}

/// Client state kept between runs.
pub struct AppData {
    data: u32,
}

impl AppData {
    pub closed spec fn spec_data(&self) -> u32 {
        self.data
    }

    /// The stored value.
    pub fn data(&self) -> (r: u32)
        ensures
            r == self.spec_data(),
    {
        self.data
    }
}

impl Default for AppData {
    fn default() -> (r: Self)
        ensures
            r.spec_data() == 0,
    {
        AppData { data: 0 }
    }
}

} // verus!

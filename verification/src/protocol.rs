//! Messages exchanged between the main thread and the networking worker.

use vstd::prelude::*;

verus! {

/// One pending cell change: `(chunk_id, cell_offset, r, g, b, checked)`.
pub type PendingUpdate = (i64, u32, u8, u8, u8, bool);

/// Messages sent from the main thread to the worker.
#[derive(Debug, Clone, PartialEq)]
pub enum MainToWorker {
    /// Open the SpacetimeDB connection.
    Connect { uri: String, database: String },
    /// Subscribe to the given chunks.
    Subscribe { chunk_ids: Vec<i64> },
    /// One checkbox changed.
    UpdateCheckbox { chunk_id: i64, cell_offset: u32, r: u8, g: u8, b: u8, checked: bool },
    /// Several checkbox changes at once (drag-to-fill, Doom frames).
    BatchUpdate { updates: Vec<PendingUpdate> },
    /// Disconnect and clean up.
    Disconnect,
}

/// Messages sent from the worker to the main thread.
#[derive(Debug, Clone, PartialEq)]
pub enum WorkerToMain {
    /// A chunk arrived from the server.
    ChunkInserted { chunk_id: i64, state: Vec<u8>, version: u64 },
    /// Another client changed a chunk.
    ChunkUpdated { chunk_id: i64, state: Vec<u8>, version: u64 },
    /// The connection is up.
    Connected,
    /// The connection was lost for good.
    FatalError { message: String },
}

/// A worker message as plain values.
pub enum WorkerToMainView {
    ChunkInserted { chunk_id: i64, state: Seq<u8>, version: u64 },
    ChunkUpdated { chunk_id: i64, state: Seq<u8>, version: u64 },
    Connected,
    FatalError { message: Seq<char> },
}

impl View for WorkerToMain {
    type V = WorkerToMainView;

    open spec fn view(&self) -> WorkerToMainView {
        match self {
            WorkerToMain::ChunkInserted { chunk_id, state, version } => {
                WorkerToMainView::ChunkInserted { chunk_id: *chunk_id, state: state@, version: *version }
            },
            WorkerToMain::ChunkUpdated { chunk_id, state, version } => {
                WorkerToMainView::ChunkUpdated { chunk_id: *chunk_id, state: state@, version: *version }
            },
            WorkerToMain::Connected => WorkerToMainView::Connected,
            WorkerToMain::FatalError { message } => WorkerToMainView::FatalError { message: message@ },
        }
    }
}

} // verus!

//! Connection states shown to the user and tracked by the client.

use vstd::prelude::*;
use crate::protocol::{MainToWorker, WorkerToMain};

verus! {

/// The connection status shown in the header.
#[derive(Clone, Copy, Debug, PartialEq, Eq)]
pub enum ConnectionStatus {
    Connecting,
    Connected,
    Error,
}

impl ConnectionStatus {
    /// The CSS classes of the status badge.
    pub fn as_class(&self) -> (r: &'static str)
        ensures
            r@ == match self {
                ConnectionStatus::Connecting => "status connecting"@,
                ConnectionStatus::Connected => "status connected"@,
                ConnectionStatus::Error => "status error"@,
            },
    {
        match self {
            ConnectionStatus::Connecting => "status connecting",
            ConnectionStatus::Connected => "status connected",
            ConnectionStatus::Error => "status error",
        }
    }
}

/// The state of a websocket connection to the server.
#[derive(Clone, Copy, Debug, PartialEq, Eq)]
pub enum ConnectionState {
    Connecting,
    Connected,
    Disconnected,
    Error,
}

/// What the page shows and sends after a message from the worker.
#[derive(Debug, Clone)]
pub struct StatusUpdate {
    /// The connection status to show.
    pub status: ConnectionStatus,
    /// The status text to show.
    pub message: String,
    /// The message to send back to the worker, if any.
    pub reply: Option<MainToWorker>,
}

/// The page's reaction to a worker message: on `Connected` the status turns
/// connected and the page subscribes again (every connection, reconnections
/// included, starts a fresh session); on `FatalError` the status turns to
/// error with the worker's text; chunk messages change neither.
pub fn on_worker_message(msg: WorkerToMain) -> (r: Option<StatusUpdate>)
    ensures
        msg is Connected ==> {
            &&& r matches Some(u)
            &&& u.status == ConnectionStatus::Connected
            &&& u.message@ == "Connected"@
            &&& u.reply matches Some(MainToWorker::Subscribe { chunk_ids })
            &&& chunk_ids@.len() == 0
        },
        msg matches WorkerToMain::FatalError { message } ==> {
            &&& r matches Some(u)
            &&& u.status == ConnectionStatus::Error
            &&& u.message@ == message@
            &&& u.reply is None
        },
        msg is ChunkInserted || msg is ChunkUpdated ==> r is None,
{
    match msg {
        WorkerToMain::Connected => Some(
            StatusUpdate {
                status: ConnectionStatus::Connected,
                message: "Connected".to_owned(),
                reply: Some(MainToWorker::Subscribe { chunk_ids: Vec::new() }),
            },
        ),
        WorkerToMain::FatalError { message } => Some(
            StatusUpdate { status: ConnectionStatus::Error, message, reply: None },
        ),
        _ => None,
    }
}

} // verus!

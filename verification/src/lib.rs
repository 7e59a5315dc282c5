//! Verified core of the collaborative checkbox grid and its Doom broadcast:
//! chunk coordinates, chunk (de)compression, checkbox cell storage, frame
//! deltas and snapshots, the worker/main-thread wire framing, and the
//! decisions of the SpacetimeDB client session.

pub mod bookmark;
pub mod cells;
pub mod color;
pub mod compression;
pub mod doom;
pub mod endpoint;
pub mod frames;
pub mod grid;
pub mod le;
pub mod line;
pub mod protocol;
pub mod session;
pub mod status;
pub mod wire;

//! The networking worker's SpacetimeDB session: request ids, subscription
//! and reducer requests, reconnection with back-off, and what the worker
//! does with each message the server sends.
//!
//! Server messages reach this module already decoded into [`ServerEvent`],
//! which holds as plain values what the session reads of them.

use vstd::prelude::*;
use spacetimedb_client_api_messages::websocket::v2 as ws;
use spacetimedb_client_api_messages::websocket::v2::{BsatnRowList, ReducerResult, ServerMessage};
use spacetimedb_client_api_messages::websocket::v2::TableUpdateRows::{EventTable, PersistentTable};
use spacetimedb_client_api_messages::websocket::v2::ReducerOutcome as WsOutcome;
use spacetimedb_client_api_messages::websocket::common::RowSizeHint::{FixedSize, RowOffsets};
use spacetimedb_lib::bsatn::from_slice;
use crate::protocol::{WorkerToMain, WorkerToMainView};
use crate::le::u32_le_bytes;
use crate::wire::RowList::{Fixed, Offsets};
use self::RowBatch::{Event, Persistent};
use crate::wire::{
    list_rows, rows_of, rows_view, RowList,
    decompress_message, message_body, parse_snapshot, parse_frame, row_byte_list, TAG_FRAME_DELTA,
    TAG_SNAPSHOT,
};

verus! {

/// Most reconnection attempts before the worker gives up.
pub const MAX_RETRIES: u32 = 5;

/// A request from the client to the server.
#[derive(Debug, Clone, PartialEq)]
pub enum ClientRequest {
    /// Subscribe query set `query_set_id` to the given SQL queries.
    Subscribe { request_id: u32, query_set_id: u32, queries: Vec<String> },
    /// End the subscription of query set `query_set_id`.
    Unsubscribe { request_id: u32, query_set_id: u32 },
    /// Run reducer `reducer` with BSATN-encoded `args`.
    CallReducer { request_id: u32, reducer: String, args: Vec<u8> },
}

/// A client request as plain values.
pub enum ClientRequestView {
    Subscribe { request_id: u32, query_set_id: u32, queries: Seq<Seq<char>> },
    Unsubscribe { request_id: u32, query_set_id: u32 },
    CallReducer { request_id: u32, reducer: Seq<char>, args: Seq<u8> },
}

impl View for ClientRequest {
    type V = ClientRequestView;

    open spec fn view(&self) -> ClientRequestView {
        match self {
            ClientRequest::Subscribe { request_id, query_set_id, queries } => {
                ClientRequestView::Subscribe {
                    request_id: *request_id,
                    query_set_id: *query_set_id,
                    queries: queries@.map_values(|q: String| q@),
                }
            },
            ClientRequest::Unsubscribe { request_id, query_set_id } => {
                ClientRequestView::Unsubscribe {
                    request_id: *request_id,
                    query_set_id: *query_set_id,
                }
            },
            ClientRequest::CallReducer { request_id, reducer, args } => {
                ClientRequestView::CallReducer {
                    request_id: *request_id,
                    reducer: reducer@,
                    args: args@,
                }
            },
        }
    }
}

/// The BSATN form of a string: the length of its UTF-8 bytes as a
/// little-endian `u32`, then those bytes.
pub open spec fn bsatn_str(s: Seq<char>) -> Seq<u8> {
    u32_le_bytes(vstd::utf8::encode_utf8(s).len() as u32) + vstd::utf8::encode_utf8(s)
}

/// The BSATN forms of the strings, one after another.
pub open spec fn bsatn_strs(qs: Seq<Seq<char>>) -> Seq<u8>
    decreases qs.len(),
{
    if qs.len() == 0 {
        Seq::empty()
    } else {
        bsatn_strs(qs.drop_last()) + bsatn_str(qs.last())
    }
}

/// Whether every length in the request fits the `u32` prefix that BSATN writes before it.
pub open spec fn client_message_fits(req: ClientRequestView) -> bool {
    match req {
        ClientRequestView::Subscribe { queries, .. } => queries.len() <= u32::MAX && forall|i: int|
            0 <= i < queries.len() ==> #[trigger] vstd::utf8::encode_utf8(queries[i]).len() <= u32::MAX,
        ClientRequestView::Unsubscribe { .. } => true,
        ClientRequestView::CallReducer { reducer, args, .. } => vstd::utf8::encode_utf8(reducer).len()
            <= u32::MAX && args.len() <= u32::MAX,
    }
}

/// The BSATN bytes of the `v2::ClientMessage` for a request: the variant's
/// index (`Subscribe` 0, `Unsubscribe` 1, `CallReducer` 3), then its fields
/// in order, `u32`s little-endian; a query set id is its `u32`, the flags
/// are the byte `0`, a list of strings is its length then each string, and
/// the reducer arguments are their length then their bytes.
pub open spec fn client_message_bytes(req: ClientRequestView) -> Seq<u8> {
    match req {
        ClientRequestView::Subscribe { request_id, query_set_id, queries } => seq![0u8]
            + u32_le_bytes(request_id) + u32_le_bytes(query_set_id) + u32_le_bytes(
            queries.len() as u32,
        ) + bsatn_strs(queries),
        ClientRequestView::Unsubscribe { request_id, query_set_id } => seq![1u8] + u32_le_bytes(
            request_id,
        ) + u32_le_bytes(query_set_id) + seq![0u8],
        ClientRequestView::CallReducer { request_id, reducer, args } => seq![3u8] + u32_le_bytes(
            request_id,
        ) + seq![0u8] + bsatn_str(reducer) + u32_le_bytes(args.len() as u32) + args,
    }
}

/// Builds the `v2::ClientMessage` for a request (query set ids through
/// `QuerySetId::new`, unsubscribe and reducer flags at their defaults, reducer
/// arguments copied into `bytes::Bytes`) and encodes it with
/// `spacetimedb_lib::bsatn::to_vec`.  Trusted: BSATN writes the variant index
/// as a byte, the fields in order, integers little-endian, and strings, byte
/// strings and lists after a `u32` length; `to_vec` fails only when such a
/// length does not fit in a `u32`.
#[verifier::external_body]
fn bsatn_to_vec(req: &ClientRequest) -> (r: Option<Vec<u8>>)
    ensures
        r is Some <==> client_message_fits(req@),
        r matches Some(v) ==> v@ == client_message_bytes(req@),
{
    let msg = match req {
        ClientRequest::Subscribe { request_id, query_set_id, queries } => ws::ClientMessage::Subscribe(ws::Subscribe { request_id: *request_id, query_set_id: ws::QuerySetId::new(*query_set_id), query_strings: queries.iter().map(|q| q.as_str().into()).collect() }),
        ClientRequest::Unsubscribe { request_id, query_set_id } => ws::ClientMessage::Unsubscribe(ws::Unsubscribe { request_id: *request_id, query_set_id: ws::QuerySetId::new(*query_set_id), flags: ws::UnsubscribeFlags::Default }),
        ClientRequest::CallReducer { request_id, reducer, args } => ws::ClientMessage::CallReducer(ws::CallReducer { request_id: *request_id, flags: ws::CallReducerFlags::Default, reducer: reducer.as_str().into(), args: bytes::Bytes::copy_from_slice(args) }),
    };
    spacetimedb_lib::bsatn::to_vec(&msg).ok()
}

/// The bytes to put on the websocket for a request; `None` when it cannot be encoded.
pub fn encode_client_message(req: &ClientRequest) -> (r: Option<Vec<u8>>)
    ensures
        r is Some <==> client_message_fits(req@),
        r matches Some(v) ==> v@ == client_message_bytes(req@),
{
    bsatn_to_vec(req)
}

/// The rows of one table in the initial result of a subscription.
#[derive(Debug, Clone)]
pub struct TableRows {
    pub table: String,
    pub rows: RowList,
}

/// One batch of changed rows of a table.
#[derive(Debug, Clone)]
pub enum RowBatch {
    /// Rows of a persistent table: the inserted rows, then the deleted rows.
    Persistent(RowList, RowList),
    /// Rows of an event table; the session reads nothing of them.
    Event,
}

/// The changes to one table in a transaction.
#[derive(Debug, Clone)]
pub struct TableChange {
    pub table: String,
    pub rows: Vec<RowBatch>,
}

/// How a reducer call ended.
#[derive(Debug, Clone)]
pub enum ReducerOutcome {
    /// It committed; these are the changes to the subscribed tables.
    Committed { tables: Vec<TableChange> },
    /// It committed with no return value and no changes.
    CommittedEmpty,
    /// It returned an error value (BSATN bytes) and did not commit.
    Failed(Vec<u8>),
    /// It failed inside the server.
    InternalError(String),
}

/// A message from the server, as plain values.
#[derive(Debug, Clone)]
pub enum ServerEvent {
    /// The connection is established: the client's identity (its 32 bytes)
    /// and the token the server issued.
    InitialConnection { identity: Vec<u8>, token: String },
    /// A subscription was applied; these are its initial rows.
    SubscribeApplied { query_set_id: u32, tables: Vec<TableRows> },
    /// A subscription was removed.
    UnsubscribeApplied,
    /// A subscription failed.
    SubscriptionError { error: String },
    /// A transaction changed subscribed tables; the changes of all query sets, in order.
    TransactionUpdate { tables: Vec<TableChange> },
    /// The answer to a one-off query.
    OneOffQueryResult,
    /// How a reducer call ended.
    ReducerResult { request_id: u32, outcome: ReducerOutcome },
    /// The answer to a procedure call.
    ProcedureResult,
}

/// The server message that the BSATN bytes `body` hold, as plain values, or
/// `None` when they are not a valid `v2::ServerMessage`.
pub uninterp spec fn server_event_of(body: Seq<u8>) -> Option<ServerEvent>;

/// The variant index of a server message, in the order of `v2::ServerMessage`.
pub open spec fn event_kind(ev: ServerEvent) -> u8 {
    match ev {
        ServerEvent::InitialConnection { .. } => 0,
        ServerEvent::SubscribeApplied { .. } => 1,
        ServerEvent::UnsubscribeApplied => 2,
        ServerEvent::SubscriptionError { .. } => 3,
        ServerEvent::TransactionUpdate { .. } => 4,
        ServerEvent::OneOffQueryResult => 5,
        ServerEvent::ReducerResult { .. } => 6,
        ServerEvent::ProcedureResult => 7,
    }
}

// Each of the wrappers below decodes the bytes with
// `spacetimedb_lib::bsatn::from_slice::<v2::ServerMessage>` and copies out
// one part of the message; together they give the whole of
// `server_event_of`.  Row lists are copied out as their size hint and bytes
// (`BsatnRowList::into_inner`), without being cut into rows.  Trusted:
// decoding depends on the bytes alone.

/// Which variant the decoded `v2::ServerMessage` is; `None` on a decoding error.
#[verifier::external_body]
fn bsatn_message_kind(body: &[u8]) -> (r: Option<u8>)
    ensures
        r == match server_event_of(body@) {
            Some(ev) => Some(event_kind(ev)),
            None => None,
        },
{
    from_slice::<ServerMessage>(body).ok().map(|m| match m {
        ServerMessage::InitialConnection(_) => 0, ServerMessage::SubscribeApplied(_) => 1,
        ServerMessage::UnsubscribeApplied(_) => 2, ServerMessage::SubscriptionError(_) => 3,
        ServerMessage::TransactionUpdate(_) => 4, ServerMessage::OneOffQueryResult(_) => 5,
        ServerMessage::ReducerResult(_) => 6, ServerMessage::ProcedureResult(_) => 7,
    })
}

/// The identity (its 32 bytes) and token of a decoded `InitialConnection`.
#[verifier::external_body]
fn bsatn_connection(body: &[u8]) -> (r: Option<(Vec<u8>, String)>)
    ensures
        r == match server_event_of(body@) {
            Some(ServerEvent::InitialConnection { identity, token }) => Some((identity, token)),
            _ => None,
        },
{
    match from_slice::<ServerMessage>(body) {
        Ok(ServerMessage::InitialConnection(i)) => Some((i.identity.to_byte_array().to_vec(), i.token.to_string())),
        _ => None,
    }
}

/// The query set id and the rows, table by table, of a decoded `SubscribeApplied`.
#[verifier::external_body]
fn bsatn_subscribe_applied(body: &[u8]) -> (r: Option<(u32, Vec<TableRows>)>)
    ensures
        r == match server_event_of(body@) {
            Some(ServerEvent::SubscribeApplied { query_set_id, tables }) => Some((query_set_id, tables)),
            _ => None,
        },
{
    let list = |l: &BsatnRowList| match l.clone().into_inner() { (FixedSize(s), d) => Fixed(s, d.into()), (RowOffsets(o), d) => Offsets(o.to_vec(), d.into()) };
    match from_slice::<ServerMessage>(body) {
        Ok(ServerMessage::SubscribeApplied(a)) => Some((a.query_set_id.id, a.rows.tables.iter().map(|t| TableRows { table: t.table.to_string(), rows: list(&t.rows) }).collect())),
        _ => None,
    }
}

/// The error text of a decoded `SubscriptionError`.
#[verifier::external_body]
fn bsatn_subscription_error(body: &[u8]) -> (r: Option<String>)
    ensures
        r == match server_event_of(body@) {
            Some(ServerEvent::SubscriptionError { error }) => Some(error),
            _ => None,
        },
{
    match from_slice::<ServerMessage>(body) {
        Ok(ServerMessage::SubscriptionError(e)) => Some(e.error.to_string()),
        _ => None,
    }
}

/// The request id and outcome of a decoded `ReducerResult`; a committed
/// outcome is given as `None`, its changes being read by [`bsatn_table_changes`].
#[verifier::external_body]
fn bsatn_reducer_result(body: &[u8]) -> (r: Option<(u32, Option<ReducerOutcome>)>)
    ensures
        r == match server_event_of(body@) {
            Some(ServerEvent::ReducerResult { request_id, outcome }) => Some((request_id, match outcome {
                ReducerOutcome::Committed { .. } => None,
                o => Some(o),
            })),
            _ => None,
        },
{
    match from_slice::<ServerMessage>(body) {
        Ok(ServerMessage::ReducerResult(r)) => Some((r.request_id, match r.result {
            WsOutcome::Ok(_) => None, WsOutcome::OkEmpty => Some(ReducerOutcome::CommittedEmpty),
            WsOutcome::Err(b) => Some(ReducerOutcome::Failed(b.to_vec())),
            WsOutcome::InternalError(m) => Some(ReducerOutcome::InternalError(m.to_string())),
        })),
        _ => None,
    }
}

/// The table changes of a decoded `TransactionUpdate`: every table update of
/// every query set, in order, each row list as its hint and bytes.
#[verifier::external_body]
fn bsatn_transaction_changes(body: &[u8]) -> (r: Option<Vec<TableChange>>)
    ensures
        r == match server_event_of(body@) {
            Some(ServerEvent::TransactionUpdate { tables }) => Some(tables),
            _ => None,
        },
{
    let Ok(ServerMessage::TransactionUpdate(tx)) = from_slice(body) else { return None };
    let list = |l: &BsatnRowList| match l.clone().into_inner() { (FixedSize(s), d) => Fixed(s, d.into()), (RowOffsets(o), d) => Offsets(o.to_vec(), d.into()) };
    Some(tx.query_sets.iter().flat_map(|q| &*q.tables).map(|t| TableChange { table: t.table_name.to_string(), rows: t.rows.iter().map(|b| match b {
        PersistentTable(p) => Persistent(list(&p.inserts), list(&p.deletes)),
        EventTable(_) => Event
    }).collect() }).collect())
}

/// The table changes of the transaction of a decoded `ReducerResult` whose
/// reducer committed, as for [`bsatn_transaction_changes`].
#[verifier::external_body]
fn bsatn_reducer_changes(body: &[u8]) -> (r: Option<Vec<TableChange>>)
    ensures
        r == match server_event_of(body@) {
            Some(ServerEvent::ReducerResult { outcome: ReducerOutcome::Committed { tables }, .. }) => Some(tables),
            _ => None,
        },
{
    let Ok(ServerMessage::ReducerResult(ReducerResult { result: WsOutcome::Ok(ok), .. })) = from_slice(body) else { return None };
    let list = |l: &BsatnRowList| match l.clone().into_inner() { (FixedSize(s), d) => Fixed(s, d.into()), (RowOffsets(o), d) => Offsets(o.to_vec(), d.into()) };
    Some(ok.transaction_update.query_sets.iter().flat_map(|q| &*q.tables).map(|t| TableChange { table: t.table_name.to_string(), rows: t.rows.iter().map(|b| match b {
        PersistentTable(p) => Persistent(list(&p.inserts), list(&p.deletes)),
        EventTable(_) => Event
    }).collect() }).collect())
}

/// Decodes the BSATN bytes of a server message.
fn bsatn_server_event(body: &[u8]) -> (r: Option<ServerEvent>)
    ensures
        r == server_event_of(body@),
{
    let kind = match bsatn_message_kind(body) {
        Some(k) => k,
        None => return None,
    };
    if kind == 0 {
        match bsatn_connection(body) {
            Some((identity, token)) => Some(ServerEvent::InitialConnection { identity, token }),
            None => None,
        }
    } else if kind == 1 {
        match bsatn_subscribe_applied(body) {
            Some((query_set_id, tables)) => Some(ServerEvent::SubscribeApplied { query_set_id, tables }),
            None => None,
        }
    } else if kind == 2 {
        Some(ServerEvent::UnsubscribeApplied)
    } else if kind == 3 {
        match bsatn_subscription_error(body) {
            Some(error) => Some(ServerEvent::SubscriptionError { error }),
            None => None,
        }
    } else if kind == 4 {
        match bsatn_transaction_changes(body) {
            Some(tables) => Some(ServerEvent::TransactionUpdate { tables }),
            None => None,
        }
    } else if kind == 5 {
        Some(ServerEvent::OneOffQueryResult)
    } else if kind == 6 {
        match bsatn_reducer_result(body) {
            Some((request_id, Some(outcome))) => Some(ServerEvent::ReducerResult { request_id, outcome }),
            Some((request_id, None)) => match bsatn_reducer_changes(body) {
                Some(tables) => Some(ServerEvent::ReducerResult {
                    request_id,
                    outcome: ReducerOutcome::Committed { tables },
                }),
                None => None,
            },
            None => None,
        }
    } else {
        Some(ServerEvent::ProcedureResult)
    }
}

/// The message that a websocket frame from the server carries: its body
/// after the compression tag, decompressed, then decoded; `None` when either
/// step fails.
pub open spec fn server_message(bytes: Seq<u8>) -> Option<ServerEvent> {
    match message_body(bytes) {
        Some(body) => server_event_of(body),
        None => None,
    }
}

/// Reads a websocket frame from the server: strips the compression tag,
/// decompresses the body and decodes the message in it.  Row lists are
/// handed on as sent (hint and bytes); they are cut into rows, and a list
/// whose hint does not fit its bytes is skipped, where the rows are read.
pub fn decode_server_message(bytes: &[u8]) -> (r: Option<ServerEvent>)
    ensures
        r == server_message(bytes@),
{
    match decompress_message(bytes) {
        Some(body) => bsatn_server_event(body.as_slice()),
        None => None,
    }
}

/// Something the worker does in answer to a server message.
#[derive(Debug, Clone)]
pub enum WorkerAction {
    /// Post this message to the main thread.
    ToMain(WorkerToMain),
    /// Post this tagged binary payload to the main thread.
    Binary { tag: u8, data: Vec<u8> },
    /// Send this request to the server.
    ToServer(ClientRequest),
}

/// A worker action as plain values.
pub enum WorkerActionView {
    ToMain(WorkerToMainView),
    Binary { tag: u8, data: Seq<u8> },
    ToServer(ClientRequestView),
}

impl View for WorkerAction {
    type V = WorkerActionView;

    open spec fn view(&self) -> WorkerActionView {
        match self {
            WorkerAction::ToMain(m) => WorkerActionView::ToMain(m@),
            WorkerAction::Binary { tag, data } => WorkerActionView::Binary { tag: *tag, data: data@ },
            WorkerAction::ToServer(r) => WorkerActionView::ToServer(r@),
        }
    }
}

/// The payloads that the given rows hold, skipping rows that do not parse.
pub open spec fn row_payloads(rows: Seq<Seq<u8>>) -> Seq<Seq<u8>>
    decreases rows.len(),
{
    if rows.len() == 0 {
        Seq::empty()
    } else {
        let init = row_payloads(rows.drop_last());
        match row_byte_list(rows.last()) {
            Some(p) => init.push(p),
            None => init,
        }
    }
}

/// The inserted rows of the persistent batches, in order; a row list whose
/// hint does not fit its bytes gives no rows (see [`list_rows`]).
pub open spec fn inserted_rows(batches: Seq<RowBatch>) -> Seq<Seq<u8>>
    decreases batches.len(),
{
    if batches.len() == 0 {
        Seq::empty()
    } else {
        inserted_rows(batches.drop_last()) + match batches.last() {
            RowBatch::Persistent(inserts, _) => list_rows(inserts),
            RowBatch::Event => Seq::empty(),
        }
    }
}

/// Snapshot payloads posted to the main thread, one binary message each.
pub open spec fn snapshot_actions(payloads: Seq<Seq<u8>>) -> Seq<WorkerActionView> {
    payloads.map_values(|p: Seq<u8>| WorkerActionView::Binary { tag: TAG_SNAPSHOT, data: p })
}

/// What the worker posts for the changes to one table: for `frame`, only the
/// latest frame delta; for `snapshot`, every snapshot; for other tables, nothing.
pub open spec fn table_change_actions(t: TableChange) -> Seq<WorkerActionView> {
    let payloads = row_payloads(inserted_rows(t.rows@));
    if t.table@ == "frame"@ {
        if payloads.len() > 0 {
            seq![WorkerActionView::Binary { tag: TAG_FRAME_DELTA, data: payloads.last() }]
        } else {
            Seq::empty()
        }
    } else if t.table@ == "snapshot"@ {
        snapshot_actions(payloads)
    } else {
        Seq::empty()
    }
}

/// Of the frames a change to `frame` inserts, only the newest is posted:
/// when the last inserted row holds a frame, that frame is the one message.
/// A change to a table other than `frame` and `snapshot` posts nothing.
pub proof fn lemma_change_posts_latest_frame(t: TableChange)
    ensures
        t.table@ == "frame"@ && inserted_rows(t.rows@).len() > 0 ==> match row_byte_list(
            inserted_rows(t.rows@).last(),
        ) {
            Some(p) => table_change_actions(t) == seq![
                WorkerActionView::Binary { tag: TAG_FRAME_DELTA, data: p },
            ],
            None => true,
        },
        t.table@ != "frame"@ && t.table@ != "snapshot"@ ==> table_change_actions(t).len() == 0,
{
}

/// What the worker posts for the changes to several tables, in order.
pub open spec fn changes_actions(ts: Seq<TableChange>) -> Seq<WorkerActionView>
    decreases ts.len(),
{
    if ts.len() == 0 {
        Seq::empty()
    } else {
        changes_actions(ts.drop_last()) + table_change_actions(ts.last())
    }
}

/// What the worker posts for the initial rows of a subscription: every
/// snapshot row's state; a row list whose hint does not fit its bytes gives no rows.
pub open spec fn initial_rows_actions(ts: Seq<TableRows>) -> Seq<WorkerActionView>
    decreases ts.len(),
{
    if ts.len() == 0 {
        Seq::empty()
    } else {
        let t = ts.last();
        initial_rows_actions(ts.drop_last()) + if t.table@ == "snapshot"@ {
            snapshot_actions(row_payloads(list_rows(t.rows)))
        } else {
            Seq::empty()
        }
    }
}

/// Initial rows of a table not named `snapshot` post nothing: adding such a
/// table leaves the posted actions as they were.
pub proof fn lemma_initial_rows_skip_other(ts: Seq<TableRows>, t: TableRows)
    requires
        t.table@ != "snapshot"@,
    ensures
        initial_rows_actions(ts.push(t)) == initial_rows_actions(ts),
{
    assert(ts.push(t).drop_last() =~= ts);
    assert(initial_rows_actions(ts.push(t)) =~= initial_rows_actions(ts));
}

/// Initial rows in which no table is named `snapshot` post nothing.
pub proof fn lemma_initial_rows_without_snapshot(ts: Seq<TableRows>)
    requires
        forall|i: int| 0 <= i < ts.len() ==> (#[trigger] ts[i]).table@ != "snapshot"@,
    ensures
        initial_rows_actions(ts).len() == 0,
    decreases ts.len(),
{
    if ts.len() > 0 {
        lemma_initial_rows_without_snapshot(ts.drop_last());
        assert(ts.last() == ts[ts.len() - 1]);
    }
}

/// Everything posted for initial rows is a snapshot message.
pub proof fn lemma_initial_rows_are_snapshots(ts: Seq<TableRows>)
    ensures
        forall|k: int|
            0 <= k < initial_rows_actions(ts).len() ==> (#[trigger] initial_rows_actions(ts)[k] matches WorkerActionView::Binary { tag, .. }
                && tag == TAG_SNAPSHOT),
    decreases ts.len(),
{
    if ts.len() > 0 {
        lemma_initial_rows_are_snapshots(ts.drop_last());
        let a = initial_rows_actions(ts.drop_last());
        let t = ts.last();
        if t.table@ == "snapshot"@ {
            let b = snapshot_actions(row_payloads(list_rows(t.rows)));
            assert(initial_rows_actions(ts) == a + b);
            assert forall|k: int| 0 <= k < (a + b).len() implies (#[trigger] (a + b)[k] matches WorkerActionView::Binary { tag, .. }
                && tag == TAG_SNAPSHOT) by {
                if k >= a.len() {
                    assert((a + b)[k] == b[k - a.len()]);
                } else {
                    assert((a + b)[k] == a[k]);
                }
            }
        } else {
            assert(initial_rows_actions(ts) =~= a);
        }
    }
}

/// The applied message of a subscription other than the pending snapshot
/// one, whose initial rows have no `snapshot` table, calls for nothing.
pub proof fn lemma_applied_without_snapshot_rows(snap: Option<u32>, next_id: u32, query_set_id: u32, tables: Vec<TableRows>)
    requires
        snap != Some(query_set_id),
        forall|i: int| 0 <= i < tables@.len() ==> (#[trigger] tables@[i]).table@ != "snapshot"@,
    ensures
        event_actions(snap, next_id, (ServerEvent::SubscribeApplied { query_set_id, tables })).len() == 0,
{
    lemma_initial_rows_without_snapshot(tables@);
}

/// The worker's connection state, without the socket itself.
pub struct WorkerClient {
    uri: String,
    database: String,
    reconnect_attempt: u32,
    intentional_disconnect: bool,
    request_id: u32,
    snapshot_subscription_id: Option<u32>,
}

/// What the worker does after the socket closed.
#[derive(Debug, Clone)]
pub enum ReconnectAction {
    /// The close was asked for: nothing.
    Stay,
    /// Retries are used up: tell the main thread.
    GiveUp(WorkerToMain),
    /// Reconnect to `uri`/`database` after `delay_ms` milliseconds.
    RetryAfter { delay_ms: u32, uri: String, database: String },
}

/// Back-off before reconnection attempt `attempt` (counted from zero).
pub open spec fn backoff_ms(attempt: u32) -> u32 {
    if attempt == 0 {
        5000
    } else if attempt == 1 {
        10000
    } else if attempt == 2 {
        20000
    } else if attempt == 3 {
        40000
    } else {
        60000
    }
}

impl WorkerClient {
    /// The server URI and database name to connect to.
    pub closed spec fn target(&self) -> (Seq<char>, Seq<char>) {
        (self.uri@, self.database@)
    }

    /// Requests issued so far (the last request id).
    pub closed spec fn requests_issued(&self) -> u32 {
        self.request_id
    }

    /// Reconnection attempts since the last successful open.
    pub closed spec fn attempts(&self) -> u32 {
        self.reconnect_attempt
    }

    /// Whether the last close was asked for.
    pub closed spec fn disconnect_requested(&self) -> bool {
        self.intentional_disconnect
    }

    /// The query set of the snapshot subscription, while it lasts.
    pub closed spec fn snapshot_query(&self) -> Option<u32> {
        self.snapshot_subscription_id
    }

    /// A client that has not connected yet.
    pub fn new() -> (c: WorkerClient)
        ensures
            c.target() == (Seq::<char>::empty(), Seq::<char>::empty()),
            c.requests_issued() == 0,
            c.attempts() == 0,
            !c.disconnect_requested(),
            c.snapshot_query() is None,
    {
        WorkerClient {
            uri: String::new(),
            database: String::new(),
            reconnect_attempt: 0,
            intentional_disconnect: false,
            request_id: 0,
            snapshot_subscription_id: None,
        }
    }

    /// The last request id issued.
    pub fn request_id(&self) -> (r: u32)
        ensures
            r == self.requests_issued(),
    {
        self.request_id
    }

    /// The query set of the pending snapshot subscription, if any.
    pub fn snapshot_subscription(&self) -> (r: Option<u32>)
        ensures
            r == self.snapshot_query(),
    {
        self.snapshot_subscription_id
    }

    /// Issues the next request id.
    fn next_request_id(&mut self) -> (r: u32)
        requires
            old(self).requests_issued() < u32::MAX,
        ensures
            r == old(self).requests_issued() + 1,
            final(self).requests_issued() == r,
            final(self).attempts() == old(self).attempts(),
            final(self).disconnect_requested() == old(self).disconnect_requested(),
            final(self).snapshot_query() == old(self).snapshot_query(),
            final(self).target() == old(self).target(),
    {
        self.request_id = self.request_id + 1;
        self.request_id
    }

    /// Remembers where to connect; a connection asked for is not an intentional close.
    pub fn connect(&mut self, uri: String, database: String)
        ensures
            final(self).target() == (uri@, database@),
            !final(self).disconnect_requested(),
            final(self).attempts() == old(self).attempts(),
            final(self).requests_issued() == old(self).requests_issued(),
            final(self).snapshot_query() == old(self).snapshot_query(),
    {
        self.uri = uri;
        self.database = database;
        self.intentional_disconnect = false;
    }

    /// The socket opened: the reconnection count starts again.
    pub fn on_open(&mut self)
        ensures
            final(self).attempts() == 0,
            final(self).disconnect_requested() == old(self).disconnect_requested(),
            final(self).requests_issued() == old(self).requests_issued(),
            final(self).snapshot_query() == old(self).snapshot_query(),
            final(self).target() == old(self).target(),
    {
        self.reconnect_attempt = 0;
    }

    /// The two subscriptions: first the snapshot (remembered, to be dropped
    /// once its rows arrive), then the frames; each with a fresh request id
    /// that is also its query set id.
    pub fn subscribe(&mut self) -> (r: (ClientRequest, ClientRequest))
        requires
            old(self).requests_issued() < u32::MAX - 1,
        ensures
            ({
                let n = old(self).requests_issued();
                &&& r.0@ == ClientRequestView::Subscribe {
                    request_id: (n + 1) as u32,
                    query_set_id: (n + 1) as u32,
                    queries: seq!["SELECT * FROM snapshot"@],
                }
                &&& r.1@ == ClientRequestView::Subscribe {
                    request_id: (n + 2) as u32,
                    query_set_id: (n + 2) as u32,
                    queries: seq!["SELECT * FROM frame"@],
                }
                &&& final(self).requests_issued() == n + 2
                &&& final(self).snapshot_query() == Some((n + 1) as u32)
            }),
            final(self).attempts() == old(self).attempts(),
            final(self).disconnect_requested() == old(self).disconnect_requested(),
            final(self).target() == old(self).target(),
    {
        let rid = self.next_request_id();
        self.snapshot_subscription_id = Some(rid);
        let q1: String = "SELECT * FROM snapshot".to_owned();
        let mut qs1: Vec<String> = Vec::new();
        qs1.push(q1);
        let first = ClientRequest::Subscribe { request_id: rid, query_set_id: rid, queries: qs1 };
        let rid2 = self.next_request_id();
        let q2: String = "SELECT * FROM frame".to_owned();
        let mut qs2: Vec<String> = Vec::new();
        qs2.push(q2);
        let second = ClientRequest::Subscribe { request_id: rid2, query_set_id: rid2, queries: qs2 };
        proof {
            assert(qs1@.map_values(|q: String| q@) =~= seq!["SELECT * FROM snapshot"@]);
            assert(qs2@.map_values(|q: String| q@) =~= seq!["SELECT * FROM frame"@]);
            assert(first@ == ClientRequestView::Subscribe {
                request_id: rid,
                query_set_id: rid,
                queries: seq!["SELECT * FROM snapshot"@],
            });
            assert(second@ == ClientRequestView::Subscribe {
                request_id: rid2,
                query_set_id: rid2,
                queries: seq!["SELECT * FROM frame"@],
            });
        }
        (first, second)
    }

    /// Drops the snapshot subscription, once: an unsubscribe request with a
    /// fresh request id, or `None` when there is no snapshot subscription.
    pub fn unsubscribe_snapshot(&mut self) -> (r: Option<ClientRequest>)
        requires
            old(self).snapshot_query() is Some ==> old(self).requests_issued() < u32::MAX,
        ensures
            final(self).snapshot_query() is None,
            old(self).snapshot_query() is None ==> (r is None) && final(self).requests_issued()
                == old(self).requests_issued(),
            old(self).snapshot_query() matches Some(q) ==> {
                &&& final(self).requests_issued() == old(self).requests_issued() + 1
                &&& r matches Some(req)
                &&& req@ == (ClientRequestView::Unsubscribe {
                    request_id: final(self).requests_issued(),
                    query_set_id: q,
                })
            },
            final(self).attempts() == old(self).attempts(),
            final(self).disconnect_requested() == old(self).disconnect_requested(),
            final(self).target() == old(self).target(),
    {
        match self.snapshot_subscription_id {
            Some(qid) => {
                self.snapshot_subscription_id = None;
                let rid = self.next_request_id();
                Some(ClientRequest::Unsubscribe { request_id: rid, query_set_id: qid })
            },
            None => None,
        }
    }

    /// A reducer call with a fresh request id, which is also returned.
    pub fn call_reducer(&mut self, name: &str, args: &[u8]) -> (r: (u32, ClientRequest))
        requires
            old(self).requests_issued() < u32::MAX,
        ensures
            r.0 == old(self).requests_issued() + 1,
            final(self).requests_issued() == r.0,
            r.1@ == (ClientRequestView::CallReducer { request_id: r.0, reducer: name@, args: args@ }),
            final(self).attempts() == old(self).attempts(),
            final(self).disconnect_requested() == old(self).disconnect_requested(),
            final(self).snapshot_query() == old(self).snapshot_query(),
            final(self).target() == old(self).target(),
    {
        let rid = self.next_request_id();
        let reducer = name.to_owned();
        let mut a: Vec<u8> = Vec::with_capacity(args.len());
        let mut i: usize = 0;
        while i < args.len()
            invariant
                i <= args@.len(),
                a@ == args@.take(i as int),
            decreases args@.len() - i,
        {
            a.push(args[i]);
            i = i + 1;
            assert(a@ =~= args@.take(i as int));
        }
        assert(args@.take(args@.len() as int) =~= args@);
        (rid, ClientRequest::CallReducer { request_id: rid, reducer, args: a })
    }

    /// The close that follows is asked for: no reconnection.
    pub fn disconnect(&mut self)
        ensures
            final(self).disconnect_requested(),
            final(self).attempts() == old(self).attempts(),
            final(self).requests_issued() == old(self).requests_issued(),
            final(self).snapshot_query() == old(self).snapshot_query(),
            final(self).target() == old(self).target(),
    {
        self.intentional_disconnect = true;
    }

    /// What to do after the socket closed: nothing after an intentional
    /// close; give up after `MAX_RETRIES` attempts; otherwise count the
    /// attempt and reconnect to the same place after the back-off of the
    /// attempt (5, 10, 20, 40, then 60 seconds).
    pub fn reconnect(&mut self) -> (r: ReconnectAction)
        ensures
            old(self).disconnect_requested() ==> (r is Stay) && final(self).attempts()
                == old(self).attempts(),
            !old(self).disconnect_requested() && old(self).attempts() >= MAX_RETRIES ==> {
                &&& r matches ReconnectAction::GiveUp(WorkerToMain::FatalError { message })
                &&& message@ == "Connection lost after 5 retries"@
                &&& final(self).attempts() == old(self).attempts()
            },
            !old(self).disconnect_requested() && old(self).attempts() < MAX_RETRIES ==> {
                &&& r matches ReconnectAction::RetryAfter { delay_ms, uri, database }
                &&& delay_ms == backoff_ms(old(self).attempts())
                &&& (uri@, database@) == old(self).target()
                &&& final(self).attempts() == old(self).attempts() + 1
            },
            final(self).disconnect_requested() == old(self).disconnect_requested(),
            final(self).requests_issued() == old(self).requests_issued(),
            final(self).snapshot_query() == old(self).snapshot_query(),
            final(self).target() == old(self).target(),
    {
        if self.intentional_disconnect {
            return ReconnectAction::Stay;
        }
        if self.reconnect_attempt >= MAX_RETRIES {
            let message: String = "Connection lost after 5 retries".to_owned();
            return ReconnectAction::GiveUp(WorkerToMain::FatalError { message });
        }
        let backoff: u32 = if self.reconnect_attempt == 0 {
            5000
        } else if self.reconnect_attempt == 1 {
            10000
        } else if self.reconnect_attempt == 2 {
            20000
        } else if self.reconnect_attempt == 3 {
            40000
        } else {
            60000
        };
        self.reconnect_attempt = self.reconnect_attempt + 1;
        ReconnectAction::RetryAfter {
            delay_ms: backoff,
            uri: self.uri.clone(),
            database: self.database.clone(),
        }
    }
}

/// The row list as plain byte sequences.

/// Actions as plain values.
pub open spec fn actions_view(acts: Seq<WorkerAction>) -> Seq<WorkerActionView> {
    acts.map_values(|a: WorkerAction| a@)
}

/// Payloads of the rows, after one more row.
proof fn lemma_row_payloads_push(rows: Seq<Seq<u8>>, x: Seq<u8>)
    ensures
        row_payloads(rows.push(x)) == match row_byte_list(x) {
            Some(p) => row_payloads(rows).push(p),
            None => row_payloads(rows),
        },
{
    assert(rows.push(x).drop_last() =~= rows);
}

/// Appends the payloads of `rows` (rows that do not parse are skipped) to `out`.
fn push_payloads(rows: &Vec<Vec<u8>>, out: &mut Vec<Vec<u8>>, Ghost(before): Ghost<Seq<Seq<u8>>>)
    requires
        rows_view(old(out)@) == row_payloads(before),
    ensures
        rows_view(final(out)@) == row_payloads(before + rows_view(rows@)),
{
    let mut j: usize = 0;
    while j < rows.len()
        invariant
            j <= rows@.len(),
            rows_view(out@) == row_payloads(before + rows_view(rows@.take(j as int))),
        decreases rows@.len() - j,
    {
        let ghost pre = before + rows_view(rows@.take(j as int));
        proof {
            assert(before + rows_view(rows@.take(j + 1)) =~= pre.push(rows@[j as int]@));
            lemma_row_payloads_push(pre, rows@[j as int]@);
        }
        match parse_snapshot(rows[j].as_slice()) {
            Some(p) => {
                out.push(p);
                proof {
                    assert(rows_view(out@) =~= row_payloads(pre).push(p@));
                }
            },
            None => {},
        }
        j = j + 1;
    }
    assert(rows@.take(rows@.len() as int) =~= rows@);
}

/// The payloads of the rows inserted by the persistent batches, in order.
fn inserted_payloads(batches: &Vec<RowBatch>) -> (r: Vec<Vec<u8>>)
    ensures
        rows_view(r@) == row_payloads(inserted_rows(batches@)),
{
    let mut out: Vec<Vec<u8>> = Vec::new();
    let mut i: usize = 0;
    assert(rows_view(out@) =~= row_payloads(Seq::empty()));
    while i < batches.len()
        invariant
            i <= batches@.len(),
            rows_view(out@) == row_payloads(inserted_rows(batches@.take(i as int))),
        decreases batches@.len() - i,
    {
        let ghost pre = inserted_rows(batches@.take(i as int));
        proof {
            assert(batches@.take(i + 1).drop_last() =~= batches@.take(i as int));
        }
        match &batches[i] {
            RowBatch::Persistent(inserts, _) => {
                let rows = rows_of(inserts);
                push_payloads(&rows, &mut out, Ghost(pre));
            },
            RowBatch::Event => {
                assert(inserted_rows(batches@.take(i + 1)) =~= pre);
            },
        }
        i = i + 1;
    }
    assert(batches@.take(batches@.len() as int) =~= batches@);
    out
}

/// Posts each payload as a snapshot message.
fn push_snapshot_actions(payloads: &Vec<Vec<u8>>, out: &mut Vec<WorkerAction>)
    ensures
        actions_view(final(out)@) == actions_view(old(out)@) + snapshot_actions(rows_view(payloads@)),
{
    let ghost start = actions_view(out@);
    let ghost ps = rows_view(payloads@);
    let mut k: usize = 0;
    while k < payloads.len()
        invariant
            k <= payloads@.len(),
            ps == rows_view(payloads@),
            actions_view(out@) == start + snapshot_actions(ps.take(k as int)),
        decreases payloads@.len() - k,
    {
        let p = crate::wire::copy_bytes(payloads[k].as_slice());
        let ghost before = out@;
        out.push(WorkerAction::Binary { tag: TAG_SNAPSHOT, data: p });
        proof {
            let act = WorkerActionView::Binary { tag: TAG_SNAPSHOT, data: ps[k as int] };
            assert(actions_view(out@) =~= actions_view(before).push(act));
            assert(ps.take(k + 1) =~= ps.take(k as int).push(ps[k as int]));
            assert(snapshot_actions(ps.take(k + 1)) =~= snapshot_actions(ps.take(k as int)).push(act));
            assert(actions_view(out@) =~= start + snapshot_actions(ps.take(k + 1)));
        }
        k = k + 1;
    }
    assert(ps.take(ps.len() as int) =~= ps);
}

/// Whether `s` spells the literal `lit`.
fn is_named(s: &String, lit: &str) -> (r: bool)
    ensures
        r == (s@ == lit@),
{
    let owned: String = lit.to_owned();
    *s == owned
}

/// Appends what the worker posts for the changes to one table.
fn process_table_update(t: &TableChange, out: &mut Vec<WorkerAction>)
    ensures
        actions_view(final(out)@) == actions_view(old(out)@) + table_change_actions(*t),
{
    let payloads = inserted_payloads(&t.rows);
    let ghost ps = rows_view(payloads@);
    if is_named(&t.table, "frame") {
        let mut payloads = payloads;
        match payloads.pop() {
            Some(latest) => {
                out.push(WorkerAction::Binary { tag: TAG_FRAME_DELTA, data: latest });
                assert(actions_view(out@) =~= actions_view(old(out)@) + table_change_actions(*t));
            },
            None => {
                assert(actions_view(out@) =~= actions_view(old(out)@) + table_change_actions(*t));
            },
        }
    } else if is_named(&t.table, "snapshot") {
        push_snapshot_actions(&payloads, out);
    } else {
        assert(actions_view(out@) =~= actions_view(old(out)@) + table_change_actions(*t));
    }
}

/// Appends what the worker posts for the changes to several tables.
fn process_table_changes(ts: &Vec<TableChange>, out: &mut Vec<WorkerAction>)
    ensures
        actions_view(final(out)@) == actions_view(old(out)@) + changes_actions(ts@),
{
    let ghost start = actions_view(out@);
    let mut i: usize = 0;
    assert(start =~= start + changes_actions(ts@.take(0)));
    while i < ts.len()
        invariant
            i <= ts@.len(),
            actions_view(out@) == start + changes_actions(ts@.take(i as int)),
        decreases ts@.len() - i,
    {
        process_table_update(&ts[i], out);
        proof {
            assert(ts@.take(i + 1).drop_last() =~= ts@.take(i as int));
            assert(actions_view(out@) =~= start + changes_actions(ts@.take(i + 1)));
        }
        i = i + 1;
    }
    assert(ts@.take(ts@.len() as int) =~= ts@);
}

/// Appends what the worker posts for the initial rows of a subscription.
fn process_initial_rows(ts: &Vec<TableRows>, out: &mut Vec<WorkerAction>)
    ensures
        actions_view(final(out)@) == actions_view(old(out)@) + initial_rows_actions(ts@),
{
    let ghost start = actions_view(out@);
    let mut i: usize = 0;
    assert(start =~= start + initial_rows_actions(ts@.take(0)));
    while i < ts.len()
        invariant
            i <= ts@.len(),
            actions_view(out@) == start + initial_rows_actions(ts@.take(i as int)),
        decreases ts@.len() - i,
    {
        let t = &ts[i];
        if is_named(&t.table, "snapshot") {
            let mut payloads: Vec<Vec<u8>> = Vec::new();
            assert(rows_view(payloads@) =~= row_payloads(Seq::empty()));
            let rows = rows_of(&t.rows);
            push_payloads(&rows, &mut payloads, Ghost(Seq::empty()));
            assert(Seq::<Seq<u8>>::empty() + rows_view(rows@) =~= rows_view(rows@));
            push_snapshot_actions(&payloads, out);
        }
        proof {
            assert(ts@.take(i + 1).drop_last() =~= ts@.take(i as int));
            assert(actions_view(out@) =~= start + initial_rows_actions(ts@.take(i + 1)));
        }
        i = i + 1;
    }
    assert(ts@.take(ts@.len() as int) =~= ts@);
}

/// What the worker does with a server message, given the snapshot
/// subscription it holds and the next request id: confirm the connection;
/// post the snapshot rows of an applied subscription and, when that was the
/// snapshot subscription, drop it; post the frames and snapshots of a
/// committed transaction; ignore the rest.
pub open spec fn event_actions(snap: Option<u32>, next_id: u32, ev: ServerEvent) -> Seq<
    WorkerActionView,
> {
    match ev {
        ServerEvent::InitialConnection { .. } => seq![WorkerActionView::ToMain(WorkerToMainView::Connected)],
        ServerEvent::SubscribeApplied { query_set_id, tables } => initial_rows_actions(tables@)
            + if snap == Some(query_set_id) {
            seq![
                WorkerActionView::ToServer(
                    ClientRequestView::Unsubscribe { request_id: next_id, query_set_id },
                ),
            ]
        } else {
            Seq::empty()
        },
        ServerEvent::TransactionUpdate { tables } => changes_actions(tables@),
        ServerEvent::ReducerResult { outcome: ReducerOutcome::Committed { tables }, .. } => {
            changes_actions(tables@)
        },
        _ => Seq::empty(),
    }
}

/// Whether `ev` is the applied message of the snapshot subscription `snap`.
pub open spec fn drops_snapshot(snap: Option<u32>, ev: ServerEvent) -> bool {
    match ev {
        ServerEvent::SubscribeApplied { query_set_id, .. } => snap == Some(query_set_id),
        _ => false,
    }
}

impl WorkerClient {
    /// Handles one server message: the actions it calls for, in order (see
    /// [`event_actions`]).  Only the snapshot subscription's own applied
    /// message changes the client: the subscription is dropped with a fresh
    /// request id.
    pub fn handle_server_event(&mut self, ev: &ServerEvent) -> (r: Vec<WorkerAction>)
        requires
            drops_snapshot(old(self).snapshot_query(), *ev) ==> old(self).requests_issued() < u32::MAX,
        ensures
            actions_view(r@) == event_actions(
                old(self).snapshot_query(),
                (old(self).requests_issued() + 1) as u32,
                *ev,
            ),
            drops_snapshot(old(self).snapshot_query(), *ev) ==> {
                &&& final(self).snapshot_query() is None
                &&& final(self).requests_issued() == old(self).requests_issued() + 1
            },
            !drops_snapshot(old(self).snapshot_query(), *ev) ==> {
                &&& final(self).snapshot_query() == old(self).snapshot_query()
                &&& final(self).requests_issued() == old(self).requests_issued()
            },
            final(self).attempts() == old(self).attempts(),
            final(self).disconnect_requested() == old(self).disconnect_requested(),
            final(self).target() == old(self).target(),
    {
        let mut out: Vec<WorkerAction> = Vec::new();
        assert(actions_view(out@) =~= Seq::empty());
        match ev {
            ServerEvent::InitialConnection { .. } => {
                out.push(WorkerAction::ToMain(WorkerToMain::Connected));
                assert(actions_view(out@) =~= seq![WorkerActionView::ToMain(WorkerToMainView::Connected)]);
            },
            ServerEvent::SubscribeApplied { query_set_id, tables } => {
                process_initial_rows(tables, &mut out);
                        let is_snapshot = match self.snapshot_subscription_id {
                    Some(q) => q == *query_set_id,
                    None => false,
                };
                if is_snapshot {
                    match self.unsubscribe_snapshot() {
                        Some(req) => {
                            out.push(WorkerAction::ToServer(req));
                        },
                        None => {},
                    }
                }
                assert(actions_view(out@) =~= event_actions(
                    old(self).snapshot_query(),
                    (old(self).requests_issued() + 1) as u32,
                    *ev,
                ));
            },
            ServerEvent::TransactionUpdate { tables } => {
                process_table_changes(tables, &mut out);
                assert(actions_view(out@) =~= Seq::empty() + changes_actions(tables@));
            },
            ServerEvent::ReducerResult { outcome, .. } => {
                match outcome {
                    ReducerOutcome::Committed { tables } => {
                        process_table_changes(tables, &mut out);
                        assert(actions_view(out@) =~= Seq::empty() + changes_actions(tables@));
                    },
                    _ => {},
                }
            },
            _ => {},
        }
        out
    }
}

impl WorkerClient {
    /// Handles one websocket frame from the server: a frame that does not
    /// decompress or decode (see [`server_message`]) calls for nothing and
    /// changes nothing; otherwise the message is handled as by
    /// [`WorkerClient::handle_server_event`].  A fresh request id must be
    /// left whenever a snapshot subscription is pending, since the message
    /// may be the one that drops it.
    pub fn handle_server_bytes(&mut self, bytes: &[u8]) -> (r: Vec<WorkerAction>)
        requires
            old(self).snapshot_query() is Some ==> old(self).requests_issued() < u32::MAX,
        ensures
            server_message(bytes@) is None ==> r@.len() == 0
                && final(self).snapshot_query() == old(self).snapshot_query()
                && final(self).requests_issued() == old(self).requests_issued(),
            server_message(bytes@) matches Some(ev) ==> {
                &&& actions_view(r@) == event_actions(
                    old(self).snapshot_query(),
                    (old(self).requests_issued() + 1) as u32,
                    ev,
                )
                &&& drops_snapshot(old(self).snapshot_query(), ev) ==> {
                    &&& final(self).snapshot_query() is None
                    &&& final(self).requests_issued() == old(self).requests_issued() + 1
                }
                &&& !drops_snapshot(old(self).snapshot_query(), ev) ==> {
                    &&& final(self).snapshot_query() == old(self).snapshot_query()
                    &&& final(self).requests_issued() == old(self).requests_issued()
                }
            },
            final(self).attempts() == old(self).attempts(),
            final(self).disconnect_requested() == old(self).disconnect_requested(),
            final(self).target() == old(self).target(),
    {
        match decode_server_message(bytes) {
            Some(ev) => self.handle_server_event(&ev),
            None => Vec::new(),
        }
    }
}

/// Why a reducer call did not commit.
#[derive(Debug, Clone)]
pub enum ReducerError {
    /// The reducer returned this error value (BSATN bytes).
    Returned(Vec<u8>),
    /// The server failed with this message.
    Internal(String),
}

/// What a callback-driven client tells its user about a server message.
#[derive(Debug, Clone)]
pub enum ClientNotice {
    /// The connection is established with this identity (32 bytes) and token.
    Connected { identity: Vec<u8>, token: String },
    /// A `checkbox_chunk` row arrived or changed (its BSATN bytes).
    ChunkInserted(Vec<u8>),
    /// A `checkbox_chunk` row was removed (its BSATN bytes).
    ChunkDeleted(Vec<u8>),
    /// A subscription was applied (its rows were announced before).
    SubscribeApplied,
    /// A subscription failed with this error.
    SubscriptionError(String),
    /// A reducer call ended.
    ReducerResult { request_id: u32, success: bool, error: Option<ReducerError> },
}

/// A client notice as plain values.
pub enum ClientNoticeView {
    Connected { identity: Seq<u8>, token: Seq<char> },
    ChunkInserted(Seq<u8>),
    ChunkDeleted(Seq<u8>),
    SubscribeApplied,
    SubscriptionError(Seq<char>),
    ReducerResult { request_id: u32, success: bool, error: Option<ReducerErrorView> },
}

/// A reducer error as plain values.
pub enum ReducerErrorView {
    Returned(Seq<u8>),
    Internal(Seq<char>),
}

impl View for ReducerError {
    type V = ReducerErrorView;

    open spec fn view(&self) -> ReducerErrorView {
        match self {
            ReducerError::Returned(b) => ReducerErrorView::Returned(b@),
            ReducerError::Internal(m) => ReducerErrorView::Internal(m@),
        }
    }
}

impl View for ClientNotice {
    type V = ClientNoticeView;

    open spec fn view(&self) -> ClientNoticeView {
        match self {
            ClientNotice::Connected { identity, token } => ClientNoticeView::Connected {
                identity: identity@,
                token: token@,
            },
            ClientNotice::ChunkInserted(r) => ClientNoticeView::ChunkInserted(r@),
            ClientNotice::ChunkDeleted(r) => ClientNoticeView::ChunkDeleted(r@),
            ClientNotice::SubscribeApplied => ClientNoticeView::SubscribeApplied,
            ClientNotice::SubscriptionError(e) => ClientNoticeView::SubscriptionError(e@),
            ClientNotice::ReducerResult { request_id, success, error } => {
                ClientNoticeView::ReducerResult {
                    request_id: *request_id,
                    success: *success,
                    error: match error {
                        Some(e) => Some(e@),
                        None => None,
                    },
                }
            },
        }
    }
}

/// Notices as plain values.
pub open spec fn notices_view(ns: Seq<ClientNotice>) -> Seq<ClientNoticeView> {
    ns.map_values(|n: ClientNotice| n@)
}

/// One insert notice per row.
pub open spec fn insert_notices(rows: Seq<Seq<u8>>) -> Seq<ClientNoticeView> {
    rows.map_values(|r: Seq<u8>| ClientNoticeView::ChunkInserted(r))
}

/// One delete notice per row.
pub open spec fn delete_notices(rows: Seq<Seq<u8>>) -> Seq<ClientNoticeView> {
    rows.map_values(|r: Seq<u8>| ClientNoticeView::ChunkDeleted(r))
}

/// The table that the callback-driven client follows.
pub open spec fn is_chunk_table(name: Seq<char>) -> bool {
    name == "checkbox_chunk"@
}

/// Notices for the initial rows of a subscription: every `checkbox_chunk` row
/// is inserted; a row list whose hint does not fit its bytes gives no rows.
pub open spec fn initial_chunk_notices(ts: Seq<TableRows>) -> Seq<ClientNoticeView>
    decreases ts.len(),
{
    if ts.len() == 0 {
        Seq::empty()
    } else {
        let t = ts.last();
        initial_chunk_notices(ts.drop_last()) + if is_chunk_table(t.table@) {
            insert_notices(list_rows(t.rows))
        } else {
            Seq::empty()
        }
    }
}

/// Notices for the row batches of a `checkbox_chunk` change: per persistent
/// batch, its inserts then its deletes (a row list whose hint does not fit its
/// bytes gives no rows); event batches say nothing.
pub open spec fn batch_notices(bs: Seq<RowBatch>) -> Seq<ClientNoticeView>
    decreases bs.len(),
{
    if bs.len() == 0 {
        Seq::empty()
    } else {
        batch_notices(bs.drop_last()) + match bs.last() {
            RowBatch::Persistent(inserts, deletes) => insert_notices(list_rows(inserts))
                + delete_notices(list_rows(deletes)),
            RowBatch::Event => Seq::empty(),
        }
    }
}

/// Notices for the changes to several tables: only `checkbox_chunk` changes count.
pub open spec fn change_notices(ts: Seq<TableChange>) -> Seq<ClientNoticeView>
    decreases ts.len(),
{
    if ts.len() == 0 {
        Seq::empty()
    } else {
        let t = ts.last();
        change_notices(ts.drop_last()) + if is_chunk_table(t.table@) {
            batch_notices(t.rows@)
        } else {
            Seq::empty()
        }
    }
}

/// What the callback-driven client announces for a server message, in order.
pub open spec fn client_notices(ev: ServerEvent) -> Seq<ClientNoticeView> {
    match ev {
        ServerEvent::InitialConnection { identity, token } => seq![
            ClientNoticeView::Connected { identity: identity@, token: token@ },
        ],
        ServerEvent::SubscribeApplied { tables, .. } => initial_chunk_notices(tables@).push(
            ClientNoticeView::SubscribeApplied,
        ),
        ServerEvent::TransactionUpdate { tables } => change_notices(tables@),
        ServerEvent::SubscriptionError { error } => seq![ClientNoticeView::SubscriptionError(error@)],
        ServerEvent::ReducerResult { request_id, outcome } => match outcome {
            ReducerOutcome::Committed { tables } => seq![
                ClientNoticeView::ReducerResult { request_id, success: true, error: None },
            ] + change_notices(tables@),
            ReducerOutcome::CommittedEmpty => seq![
                ClientNoticeView::ReducerResult { request_id, success: true, error: None },
            ],
            ReducerOutcome::Failed(b) => seq![
                ClientNoticeView::ReducerResult {
                    request_id,
                    success: false,
                    error: Some(ReducerErrorView::Returned(b@)),
                },
            ],
            ReducerOutcome::InternalError(m) => seq![
                ClientNoticeView::ReducerResult {
                    request_id,
                    success: false,
                    error: Some(ReducerErrorView::Internal(m@)),
                },
            ],
        },
        _ => Seq::empty(),
    }
}

/// A reducer result is announced first, with its request id: successful
/// exactly when the reducer committed (with or without changes), with the
/// returned error value or the server's message when it did not.
pub proof fn lemma_reducer_result_notice(request_id: u32, outcome: ReducerOutcome)
    ensures
        client_notices((ServerEvent::ReducerResult { request_id, outcome })).len() >= 1,
        client_notices((ServerEvent::ReducerResult { request_id, outcome }))[0] == (
        ClientNoticeView::ReducerResult {
            request_id,
            success: outcome is Committed || outcome is CommittedEmpty,
            error: match outcome {
                ReducerOutcome::Failed(b) => Some(ReducerErrorView::Returned(b@)),
                ReducerOutcome::InternalError(m) => Some(ReducerErrorView::Internal(m@)),
                _ => None,
            },
        }),
{
}

/// Appends one notice per row, made by `inserted` or `deleted`.
fn push_row_notices(rows: &Vec<Vec<u8>>, deleted: bool, out: &mut Vec<ClientNotice>)
    ensures
        notices_view(final(out)@) == notices_view(old(out)@) + if deleted {
            delete_notices(rows_view(rows@))
        } else {
            insert_notices(rows_view(rows@))
        },
{
    let ghost start = notices_view(out@);
    let ghost want = if deleted {
        delete_notices(rows_view(rows@))
    } else {
        insert_notices(rows_view(rows@))
    };
    let mut k: usize = 0;
    while k < rows.len()
        invariant
            k <= rows@.len(),
            want == (if deleted { delete_notices(rows_view(rows@)) } else { insert_notices(rows_view(rows@)) }),
            notices_view(out@) == start + want.take(k as int),
        decreases rows@.len() - k,
    {
        let r = crate::wire::copy_bytes(rows[k].as_slice());
        let ghost before = out@;
        if deleted {
            out.push(ClientNotice::ChunkDeleted(r));
        } else {
            out.push(ClientNotice::ChunkInserted(r));
        }
        proof {
            assert(notices_view(out@) =~= notices_view(before).push(want[k as int]));
            assert(want.take(k + 1) =~= want.take(k as int).push(want[k as int]));
        }
        k = k + 1;
    }
    assert(want.take(want.len() as int) =~= want);
}

/// Appends the notices of the row batches of a `checkbox_chunk` change.
fn push_batch_notices(bs: &Vec<RowBatch>, out: &mut Vec<ClientNotice>)
    ensures
        notices_view(final(out)@) == notices_view(old(out)@) + batch_notices(bs@),
{
    let ghost start = notices_view(out@);
    let mut i: usize = 0;
    assert(start =~= start + batch_notices(bs@.take(0)));
    while i < bs.len()
        invariant
            i <= bs@.len(),
            notices_view(out@) == start + batch_notices(bs@.take(i as int)),
        decreases bs@.len() - i,
    {
        proof {
            assert(bs@.take(i + 1).drop_last() =~= bs@.take(i as int));
        }
        match &bs[i] {
            RowBatch::Persistent(inserts, deletes) => {
                push_row_notices(&rows_of(inserts), false, out);
                push_row_notices(&rows_of(deletes), true, out);
            },
            RowBatch::Event => {},
        }
        assert(notices_view(out@) =~= start + batch_notices(bs@.take(i + 1)));
        i = i + 1;
    }
    assert(bs@.take(bs@.len() as int) =~= bs@);
}

/// Appends the notices for the changes to several tables.
fn push_change_notices(ts: &Vec<TableChange>, out: &mut Vec<ClientNotice>)
    ensures
        notices_view(final(out)@) == notices_view(old(out)@) + change_notices(ts@),
{
    let ghost start = notices_view(out@);
    let mut i: usize = 0;
    assert(start =~= start + change_notices(ts@.take(0)));
    while i < ts.len()
        invariant
            i <= ts@.len(),
            notices_view(out@) == start + change_notices(ts@.take(i as int)),
        decreases ts@.len() - i,
    {
        proof {
            assert(ts@.take(i + 1).drop_last() =~= ts@.take(i as int));
        }
        if is_named(&ts[i].table, "checkbox_chunk") {
            push_batch_notices(&ts[i].rows, out);
        }
        assert(notices_view(out@) =~= start + change_notices(ts@.take(i + 1)));
        i = i + 1;
    }
    assert(ts@.take(ts@.len() as int) =~= ts@);
}

/// Appends the notices for the initial rows of a subscription.
fn push_initial_notices(ts: &Vec<TableRows>, out: &mut Vec<ClientNotice>)
    ensures
        notices_view(final(out)@) == notices_view(old(out)@) + initial_chunk_notices(ts@),
{
    let ghost start = notices_view(out@);
    let mut i: usize = 0;
    assert(start =~= start + initial_chunk_notices(ts@.take(0)));
    while i < ts.len()
        invariant
            i <= ts@.len(),
            notices_view(out@) == start + initial_chunk_notices(ts@.take(i as int)),
        decreases ts@.len() - i,
    {
        proof {
            assert(ts@.take(i + 1).drop_last() =~= ts@.take(i as int));
        }
        if is_named(&ts[i].table, "checkbox_chunk") {
            push_row_notices(&rows_of(&ts[i].rows), false, out);
        }
        assert(notices_view(out@) =~= start + initial_chunk_notices(ts@.take(i + 1)));
        i = i + 1;
    }
    assert(ts@.take(ts@.len() as int) =~= ts@);
}

/// The callback-driven client's connection state and request ids, without
/// the socket and the callbacks.
pub struct SpacetimeClient {
    state: crate::status::ConnectionState,
    request_id: u32,
    token: Option<String>,
}

impl SpacetimeClient {
    /// The last request id issued.
    pub closed spec fn requests_issued(&self) -> u32 {
        self.request_id
    }

    /// The current connection state.
    pub closed spec fn current_state(&self) -> crate::status::ConnectionState {
        self.state
    }

    /// The token the server issued, once connected.
    pub closed spec fn token_held(&self) -> Option<Seq<char>> {
        match self.token {
            Some(t) => Some(t@),
            None => None,
        }
    }

    /// A client that is not connected.
    pub fn new() -> (c: SpacetimeClient)
        ensures
            c.current_state() == crate::status::ConnectionState::Disconnected,
            c.requests_issued() == 0,
            c.token_held() is None,
    {
        SpacetimeClient { state: crate::status::ConnectionState::Disconnected, request_id: 0, token: None }
    }

    /// The connection state.
    pub fn state(&self) -> (r: crate::status::ConnectionState)
        ensures
            r == self.current_state(),
    {
        self.state
    }

    /// The last request id issued.
    pub fn request_id(&self) -> (r: u32)
        ensures
            r == self.requests_issued(),
    {
        self.request_id
    }

    /// Records a change of the socket's state (opening, open, error, closed).
    pub fn set_state(&mut self, state: crate::status::ConnectionState)
        ensures
            final(self).current_state() == state,
            final(self).requests_issued() == old(self).requests_issued(),
            final(self).token_held() == old(self).token_held(),
    {
        self.state = state;
    }

    /// A subscription to the given queries, with a fresh request id that is also its query set id.
    pub fn subscribe(&mut self, queries: Vec<String>) -> (r: ClientRequest)
        requires
            old(self).requests_issued() < u32::MAX,
        ensures
            final(self).requests_issued() == old(self).requests_issued() + 1,
            r@ == (ClientRequestView::Subscribe {
                request_id: final(self).requests_issued(),
                query_set_id: final(self).requests_issued(),
                queries: queries@.map_values(|q: String| q@),
            }),
            final(self).current_state() == old(self).current_state(),
            final(self).token_held() == old(self).token_held(),
    {
        self.request_id = self.request_id + 1;
        ClientRequest::Subscribe { request_id: self.request_id, query_set_id: self.request_id, queries }
    }

    /// A reducer call with a fresh request id, which is also returned.
    pub fn call_reducer(&mut self, reducer_name: &str, args: &[u8]) -> (r: (u32, ClientRequest))
        requires
            old(self).requests_issued() < u32::MAX,
        ensures
            r.0 == old(self).requests_issued() + 1,
            final(self).requests_issued() == r.0,
            r.1@ == (ClientRequestView::CallReducer { request_id: r.0, reducer: reducer_name@, args: args@ }),
            final(self).current_state() == old(self).current_state(),
            final(self).token_held() == old(self).token_held(),
    {
        self.request_id = self.request_id + 1;
        let reducer = reducer_name.to_owned();
        let a = crate::wire::copy_bytes(args);
        (self.request_id, ClientRequest::CallReducer { request_id: self.request_id, reducer, args: a })
    }

    /// Handles a server message: the notices it calls for, in order (see
    /// [`client_notices`]).  The initial connection message stores the
    /// token and marks the client connected.
    pub fn handle_server_event(&mut self, ev: &ServerEvent) -> (r: Vec<ClientNotice>)
        ensures
            notices_view(r@) == client_notices(*ev),
            ev matches ServerEvent::ReducerResult { request_id, outcome } ==> {
                &&& r@.len() >= 1
                &&& r@[0]@ == (ClientNoticeView::ReducerResult {
                    request_id: *request_id,
                    success: outcome is Committed || outcome is CommittedEmpty,
                    error: match outcome {
                        ReducerOutcome::Failed(b) => Some(ReducerErrorView::Returned(b@)),
                        ReducerOutcome::InternalError(m) => Some(ReducerErrorView::Internal(m@)),
                        _ => None,
                    },
                })
            },
            ev matches ServerEvent::InitialConnection { token, .. } ==> (final(self).current_state()
                == crate::status::ConnectionState::Connected && final(self).token_held() == Some(token@)),
            !(ev is InitialConnection) ==> final(self).current_state() == old(self).current_state()
                && final(self).token_held() == old(self).token_held(),
            final(self).requests_issued() == old(self).requests_issued(),
    {
        let mut out: Vec<ClientNotice> = Vec::new();
        assert(notices_view(out@) =~= Seq::empty());
        match ev {
            ServerEvent::InitialConnection { identity, token } => {
                self.token = Some(token.clone());
                self.state = crate::status::ConnectionState::Connected;
                let id = crate::wire::copy_bytes(identity.as_slice());
                out.push(ClientNotice::Connected { identity: id, token: token.clone() });
                assert(notices_view(out@) =~= client_notices(*ev));
            },
            ServerEvent::SubscribeApplied { tables, .. } => {
                push_initial_notices(tables, &mut out);
                out.push(ClientNotice::SubscribeApplied);
                assert(notices_view(out@) =~= client_notices(*ev));
            },
            ServerEvent::TransactionUpdate { tables } => {
                push_change_notices(tables, &mut out);
                assert(notices_view(out@) =~= client_notices(*ev));
            },
            ServerEvent::SubscriptionError { error } => {
                out.push(ClientNotice::SubscriptionError(error.clone()));
                assert(notices_view(out@) =~= client_notices(*ev));
            },
            ServerEvent::ReducerResult { request_id, outcome } => {
                match outcome {
                    ReducerOutcome::Committed { tables } => {
                        out.push(ClientNotice::ReducerResult { request_id: *request_id, success: true, error: None });
                        push_change_notices(tables, &mut out);
                    },
                    ReducerOutcome::CommittedEmpty => {
                        out.push(ClientNotice::ReducerResult { request_id: *request_id, success: true, error: None });
                    },
                    ReducerOutcome::Failed(b) => {
                        let e = ReducerError::Returned(crate::wire::copy_bytes(b.as_slice()));
                        out.push(ClientNotice::ReducerResult { request_id: *request_id, success: false, error: Some(e) });
                    },
                    ReducerOutcome::InternalError(m) => {
                        let e = ReducerError::Internal(m.clone());
                        out.push(ClientNotice::ReducerResult { request_id: *request_id, success: false, error: Some(e) });
                    },
                }
                assert(notices_view(out@) =~= client_notices(*ev));
                proof {
                    lemma_reducer_result_notice(*request_id, *outcome);
                    assert(notices_view(out@)[0] == out@[0]@);
                }
            },
            _ => {},
        }
        out
    }

    /// Handles one websocket frame from the server: a frame that does not
    /// decompress or decode (see [`server_message`]) calls for nothing and
    /// changes nothing; otherwise the message is handled as by
    /// [`SpacetimeClient::handle_server_event`].
    pub fn handle_server_bytes(&mut self, bytes: &[u8]) -> (r: Vec<ClientNotice>)
        ensures
            server_message(bytes@) is None ==> r@.len() == 0
                && final(self).current_state() == old(self).current_state()
                && final(self).token_held() == old(self).token_held(),
            server_message(bytes@) matches Some(ev) ==> {
                &&& notices_view(r@) == client_notices(ev)
                &&& ev matches ServerEvent::InitialConnection { token, .. } ==> (
                final(self).current_state() == crate::status::ConnectionState::Connected
                    && final(self).token_held() == Some(token@))
                &&& !(ev is InitialConnection) ==> final(self).current_state()
                    == old(self).current_state() && final(self).token_held() == old(
                    self,
                ).token_held()
            },
            final(self).requests_issued() == old(self).requests_issued(),
    {
        match decode_server_message(bytes) {
            Some(ev) => self.handle_server_event(&ev),
            None => Vec::new(),
        }
    }
}

} // verus!

use checkbox_frontend::protocol::{MainToWorker, WorkerToMain};
use checkbox_frontend::session::{
    decode_server_message, encode_client_message, ClientNotice, ClientRequest, ReconnectAction, ReducerError,
    ReducerOutcome, RowBatch, ServerEvent, SpacetimeClient, TableChange, TableRows, WorkerAction,
    WorkerClient,
};
use checkbox_frontend::status::{on_worker_message, ConnectionState, ConnectionStatus};
use checkbox_frontend::endpoint::spacetimedb_uri;
use checkbox_frontend::wire::{split_row_list, RowList};
use spacetimedb_client_api_messages::websocket::v2 as ws;
use std::io::Write;
use spacetimedb_client_api_messages::websocket::common::RowSizeHint;
use std::sync::Arc;

fn row(id: u64, data: &[u8]) -> Vec<u8> {
    let mut b = id.to_le_bytes().to_vec();
    b.extend_from_slice(&(data.len() as u32).to_le_bytes());
    b.extend_from_slice(data);
    b
}

fn rows(rows: Vec<Vec<u8>>) -> RowList {
    let mut offsets = Vec::new();
    let mut data = Vec::new();
    for r in &rows {
        offsets.push(data.len() as u64);
        data.extend_from_slice(r);
    }
    RowList::Offsets(offsets, data)
}

fn persistent(inserts: Vec<Vec<u8>>) -> RowBatch {
    RowBatch::Persistent(rows(inserts), rows(vec![]))
}

fn binary(a: &WorkerAction) -> (u8, Vec<u8>) {
    match a {
        WorkerAction::Binary { tag, data } => (*tag, data.clone()),
        other => panic!("not binary: {:?}", other),
    }
}

#[test]
fn subscribe_requests_snapshot_then_frames() {
    let mut c = WorkerClient::new();
    let (a, b) = c.subscribe();
    assert_eq!(
        a,
        ClientRequest::Subscribe { request_id: 1, query_set_id: 1, queries: vec!["SELECT * FROM snapshot".to_string()] }
    );
    assert_eq!(
        b,
        ClientRequest::Subscribe { request_id: 2, query_set_id: 2, queries: vec!["SELECT * FROM frame".to_string()] }
    );
    assert_eq!(c.request_id(), 2);
}

#[test]
fn snapshot_subscription_dropped_once_applied() {
    let mut c = WorkerClient::new();
    c.subscribe();
    let snap = row(0, &[1, 2, 3, 4]);
    let ev = ServerEvent::SubscribeApplied {
        query_set_id: 1,
        tables: vec![
            TableRows { table: "snapshot".to_string(), rows: rows(vec![snap, vec![1, 2]]) },
            TableRows { table: "other".to_string(), rows: rows(vec![row(0, &[9])]) },
        ],
    };
    let acts = c.handle_server_event(&ev);
    assert_eq!(acts.len(), 2);
    assert_eq!(binary(&acts[0]), (1, vec![1, 2, 3, 4]));
    match &acts[1] {
        WorkerAction::ToServer(req) => {
            assert_eq!(req, &ClientRequest::Unsubscribe { request_id: 3, query_set_id: 1 })
        },
        other => panic!("unexpected {:?}", other),
    }
    assert_eq!(c.handle_server_event(&ev).len(), 1);
    assert_eq!(c.request_id(), 3);
}

#[test]
fn only_latest_frame_is_forwarded() {
    let mut c = WorkerClient::new();
    let ev = ServerEvent::TransactionUpdate {
        tables: vec![
            TableChange {
                table: "frame".to_string(),
                rows: vec![persistent(vec![row(1, &[1]), row(2, &[2])]), persistent(vec![row(3, &[3]), vec![0]])],
            },
            TableChange { table: "snapshot".to_string(), rows: vec![persistent(vec![row(0, &[7]), row(0, &[8])])] },
        ],
    };
    let acts = c.handle_server_event(&ev);
    assert_eq!(acts.len(), 3);
    assert_eq!(binary(&acts[0]), (2, vec![3]));
    assert_eq!(binary(&acts[1]), (1, vec![7]));
    assert_eq!(binary(&acts[2]), (1, vec![8]));
}

#[test]
fn reducer_result_changes_and_connection() {
    let mut c = WorkerClient::new();
    let ev = ServerEvent::ReducerResult {
        request_id: 4,
        outcome: ReducerOutcome::Committed {
            tables: vec![TableChange { table: "frame".to_string(), rows: vec![persistent(vec![row(1, &[5])])] }],
        },
    };
    let acts = c.handle_server_event(&ev);
    assert_eq!(acts.len(), 1);
    assert_eq!(binary(&acts[0]), (2, vec![5]));
    let failed = ServerEvent::ReducerResult { request_id: 4, outcome: ReducerOutcome::InternalError("x".to_string()) };
    assert!(c.handle_server_event(&failed).is_empty());
    let acts = c.handle_server_event(&ServerEvent::InitialConnection { identity: vec![0; 32], token: "t".to_string() });
    assert!(matches!(acts.as_slice(), [WorkerAction::ToMain(WorkerToMain::Connected)]));
}

#[test]
fn reconnect_backs_off_then_gives_up() {
    let mut c = WorkerClient::new();
    c.connect("ws://h".to_string(), "db".to_string());
    let mut delays = Vec::new();
    for _ in 0..5 {
        match c.reconnect() {
            ReconnectAction::RetryAfter { delay_ms, uri, database } => {
                assert_eq!(uri, "ws://h");
                assert_eq!(database, "db");
                delays.push(delay_ms);
            },
            other => panic!("unexpected {:?}", other),
        }
    }
    assert_eq!(delays, vec![5000, 10000, 20000, 40000, 60000]);
    match c.reconnect() {
        ReconnectAction::GiveUp(WorkerToMain::FatalError { message }) => {
            assert_eq!(message, "Connection lost after 5 retries")
        },
        other => panic!("unexpected {:?}", other),
    }
    c.on_open();
    assert!(matches!(c.reconnect(), ReconnectAction::RetryAfter { delay_ms: 5000, .. }));
}

#[test]
fn intentional_disconnect_stays_down() {
    let mut c = WorkerClient::new();
    c.disconnect();
    assert!(matches!(c.reconnect(), ReconnectAction::Stay));
    c.connect("u".to_string(), "d".to_string());
    assert!(matches!(c.reconnect(), ReconnectAction::RetryAfter { .. }));
}

#[test]
fn call_reducer_encodes_bsatn() {
    let mut c = WorkerClient::new();
    let (rid, req) = c.call_reducer("send_frame", &[9, 8]);
    assert_eq!(rid, 1);
    let bytes = encode_client_message(&req).unwrap();
    let mut want = vec![3u8, 1, 0, 0, 0, 0, 10, 0, 0, 0];
    want.extend_from_slice(b"send_frame");
    want.extend_from_slice(&[2, 0, 0, 0, 9, 8]);
    assert_eq!(bytes, want);
}

#[test]
fn unsubscribe_encodes_bsatn() {
    let bytes = encode_client_message(&ClientRequest::Unsubscribe { request_id: 7, query_set_id: 2 }).unwrap();
    assert_eq!(bytes, vec![1, 7, 0, 0, 0, 2, 0, 0, 0, 0]);
}

#[test]
fn callback_client_notices() {
    let mut c = SpacetimeClient::new();
    assert_eq!(c.state(), ConnectionState::Disconnected);
    let n = c.handle_server_event(&ServerEvent::InitialConnection { identity: vec![9; 32], token: "tok".to_string() });
    assert!(matches!(n.as_slice(), [ClientNotice::Connected { identity, token }] if token == "tok" && identity == &vec![9u8; 32]));
    assert_eq!(c.state(), ConnectionState::Connected);
    let ev = ServerEvent::TransactionUpdate {
        tables: vec![
            TableChange {
                table: "checkbox_chunk".to_string(),
                rows: vec![RowBatch::Persistent(rows(vec![vec![1]]), rows(vec![vec![2]]))],
            },
            TableChange { table: "frame".to_string(), rows: vec![persistent(vec![vec![3]])] },
        ],
    };
    let n = c.handle_server_event(&ev);
    assert_eq!(n.len(), 2);
    assert!(matches!(&n[0], ClientNotice::ChunkInserted(r) if r == &vec![1]));
    assert!(matches!(&n[1], ClientNotice::ChunkDeleted(r) if r == &vec![2]));
    let n = c.handle_server_event(&ServerEvent::ReducerResult {
        request_id: 9,
        outcome: ReducerOutcome::Failed(vec![1]),
    });
    assert!(matches!(
        n.as_slice(),
        [ClientNotice::ReducerResult { request_id: 9, success: false, error: Some(ReducerError::Returned(b)) }] if b == &vec![1]
    ));
    let applied = ServerEvent::SubscribeApplied {
        query_set_id: 1,
        tables: vec![TableRows { table: "checkbox_chunk".to_string(), rows: rows(vec![vec![4]]) }],
    };
    let n = c.handle_server_event(&applied);
    assert!(matches!(n.as_slice(), [ClientNotice::ChunkInserted(_), ClientNotice::SubscribeApplied]));
}

#[test]
fn callback_client_request_ids() {
    let mut c = SpacetimeClient::new();
    let s = c.subscribe(vec!["SELECT * FROM checkbox_chunk".to_string()]);
    assert!(matches!(s, ClientRequest::Subscribe { request_id: 1, query_set_id: 1, .. }));
    let (rid, _) = c.call_reducer("update_checkbox", &[]);
    assert_eq!(rid, 2);
}

#[test]
fn status_classes() {
    assert_eq!(ConnectionStatus::Connecting.as_class(), "status connecting");
    assert_eq!(ConnectionStatus::Connected.as_class(), "status connected");
    assert_eq!(ConnectionStatus::Error.as_class(), "status error");
}

#[test]
fn server_for_host() {
    assert_eq!(spacetimedb_uri("localhost"), "ws://127.0.0.1:3000");
    assert_eq!(spacetimedb_uri("127.0.0.1"), "ws://127.0.0.1:3000");
    assert_eq!(spacetimedb_uri("checkboxes.example"), "wss://maincloud.spacetimedb.com");
}

fn initial_connection_frame(id: u8, token: &str) -> Vec<u8> {
    let msg = ws::ServerMessage::InitialConnection(ws::InitialConnection {
        identity: spacetimedb_lib::Identity::from_byte_array([id; 32]),
        connection_id: spacetimedb_lib::ConnectionId::ZERO,
        token: token.into(),
    });
    let mut frame = vec![0u8];
    frame.extend(spacetimedb_lib::bsatn::to_vec(&msg).unwrap());
    frame
}

#[test]
fn decode_initial_connection_frame() {
    match decode_server_message(&initial_connection_frame(3, "secret-tok")) {
        Some(ServerEvent::InitialConnection { identity, token }) => {
            assert_eq!(identity, vec![3u8; 32]);
            assert_eq!(token, "secret-tok");
        }
        other => panic!("unexpected {:?}", other),
    }
}

#[test]
fn decode_gzip_compressed_frame() {
    let plain = initial_connection_frame(4, "t");
    let mut enc = flate2::write::GzEncoder::new(Vec::new(), flate2::Compression::default());
    enc.write_all(&plain[1..]).unwrap();
    let mut frame = vec![2u8];
    frame.extend(enc.finish().unwrap());
    assert!(matches!(
        decode_server_message(&frame),
        Some(ServerEvent::InitialConnection { identity, .. }) if identity == vec![4u8; 32]
    ));
}

#[test]
fn decode_rejects_bad_frames() {
    assert!(decode_server_message(&[]).is_none());
    assert!(decode_server_message(&[9, 1, 2]).is_none());
    assert!(decode_server_message(&[0, 250, 1, 2, 3]).is_none());
}

#[test]
fn worker_handles_frame_bytes() {
    let mut c = WorkerClient::new();
    let acts = c.handle_server_bytes(&initial_connection_frame(1, "t"));
    assert!(matches!(acts.as_slice(), [WorkerAction::ToMain(WorkerToMain::Connected)]));
    assert!(c.handle_server_bytes(&[0, 250]).is_empty());
    assert_eq!(c.request_id(), 0);
}

#[test]
fn callback_client_handles_frame_bytes() {
    let mut c = SpacetimeClient::new();
    let n = c.handle_server_bytes(&initial_connection_frame(6, "tk"));
    assert!(matches!(n.as_slice(), [ClientNotice::Connected { identity, token }] if token == "tk" && identity == &vec![6u8; 32]));
    assert_eq!(c.state(), ConnectionState::Connected);
    let mut d = SpacetimeClient::new();
    assert!(d.handle_server_bytes(&[7]).is_empty());
    assert_eq!(d.state(), ConnectionState::Disconnected);
}

#[test]
fn encode_subscribe_bytes() {
    let req = ClientRequest::Subscribe { request_id: 3, query_set_id: 3, queries: vec!["ab".to_string(), "é".to_string()] };
    let bytes = encode_client_message(&req).unwrap();
    assert_eq!(
        bytes,
        vec![0, 3, 0, 0, 0, 3, 0, 0, 0, 2, 0, 0, 0, 2, 0, 0, 0, b'a', b'b', 2, 0, 0, 0, 0xC3, 0xA9]
    );
}

fn row_list(rows: &[Vec<u8>]) -> ws::BsatnRowList {
    let mut offsets = Vec::new();
    let mut data = Vec::new();
    for r in rows {
        offsets.push(data.len() as u64);
        data.extend_from_slice(r);
    }
    ws::BsatnRowList::new(RowSizeHint::RowOffsets(Arc::from(offsets)), bytes::Bytes::from(data))
}

fn frame_of(msg: &ws::ServerMessage) -> Vec<u8> {
    let mut frame = vec![0u8];
    frame.extend(spacetimedb_lib::bsatn::to_vec(msg).unwrap());
    frame
}

fn tx_update(table: &str, inserts: &[Vec<u8>]) -> ws::TransactionUpdate {
    ws::TransactionUpdate {
        query_sets: vec![ws::QuerySetUpdate {
            query_set_id: ws::QuerySetId::new(2),
            tables: vec![ws::TableUpdate {
                table_name: table.to_string().into(),
                rows: vec![ws::TableUpdateRows::PersistentTable(ws::PersistentTableRows {
                    inserts: row_list(inserts),
                    deletes: row_list(&[]),
                })]
                .into(),
            }]
            .into(),
        }]
        .into(),
    }
}

#[test]
fn worker_handles_transaction_frame_bytes() {
    let mut c = WorkerClient::new();
    let msg = ws::ServerMessage::TransactionUpdate(tx_update("frame", &[row(1, &[5]), row(2, &[6, 7])]));
    let acts = c.handle_server_bytes(&frame_of(&msg));
    assert_eq!(acts.len(), 1);
    assert_eq!(binary(&acts[0]), (2, vec![6, 7]));
}

#[test]
fn worker_handles_committed_reducer_bytes() {
    let mut c = WorkerClient::new();
    let msg = ws::ServerMessage::ReducerResult(ws::ReducerResult {
        request_id: 9,
        timestamp: spacetimedb_lib::Timestamp::UNIX_EPOCH,
        result: ws::ReducerOutcome::Ok(ws::ReducerOk {
            ret_value: bytes::Bytes::new(),
            transaction_update: tx_update("snapshot", &[row(0, &[1, 2, 3])]),
        }),
    });
    match decode_server_message(&frame_of(&msg)) {
        Some(ServerEvent::ReducerResult { request_id: 9, outcome: ReducerOutcome::Committed { tables } }) => {
            assert_eq!(tables.len(), 1);
            assert_eq!(tables[0].table, "snapshot");
        }
        other => panic!("unexpected {:?}", other),
    }
    let acts = c.handle_server_bytes(&frame_of(&msg));
    assert_eq!(acts.len(), 1);
    assert_eq!(binary(&acts[0]), (1, vec![1, 2, 3]));
}

#[test]
fn decode_failed_reducer_and_subscription_error() {
    let failed = ws::ServerMessage::ReducerResult(ws::ReducerResult {
        request_id: 4,
        timestamp: spacetimedb_lib::Timestamp::UNIX_EPOCH,
        result: ws::ReducerOutcome::Err(bytes::Bytes::from(vec![1u8, 2])),
    });
    assert!(matches!(
        decode_server_message(&frame_of(&failed)),
        Some(ServerEvent::ReducerResult { request_id: 4, outcome: ReducerOutcome::Failed(b) }) if b == vec![1, 2]
    ));
    let err = ws::ServerMessage::SubscriptionError(ws::SubscriptionError {
        request_id: None,
        query_set_id: ws::QuerySetId::new(1),
        error: "bad query".into(),
    });
    assert!(matches!(
        decode_server_message(&frame_of(&err)),
        Some(ServerEvent::SubscriptionError { error }) if error == "bad query"
    ));
}

#[test]
fn worker_drops_snapshot_after_applied_bytes() {
    let mut c = WorkerClient::new();
    let _ = c.subscribe();
    let applied = ws::ServerMessage::SubscribeApplied(ws::SubscribeApplied {
        request_id: 1,
        query_set_id: ws::QuerySetId::new(1),
        rows: ws::QueryRows {
            tables: vec![ws::SingleTableRows { table: "snapshot".to_string().into(), rows: row_list(&[row(0, &[8])]) }]
                .into(),
        },
    });
    let acts = c.handle_server_bytes(&frame_of(&applied));
    assert_eq!(acts.len(), 2);
    assert_eq!(binary(&acts[0]), (1, vec![8]));
    assert!(matches!(
        &acts[1],
        WorkerAction::ToServer(ClientRequest::Unsubscribe { request_id: 3, query_set_id: 1 })
    ));
}

#[test]
fn split_row_lists() {
    assert_eq!(split_row_list(&RowList::Fixed(2, vec![1, 2, 3, 4])), Some(vec![vec![1, 2], vec![3, 4]]));
    assert_eq!(split_row_list(&RowList::Fixed(0, vec![])), Some(vec![]));
    assert_eq!(split_row_list(&RowList::Fixed(4, vec![])), Some(vec![]));
    assert_eq!(split_row_list(&RowList::Offsets(vec![0, 1, 1], vec![7, 8, 9])), Some(vec![vec![7], vec![], vec![8, 9]]));
    assert_eq!(split_row_list(&RowList::Offsets(vec![], vec![7])), Some(vec![]));
    assert_eq!(split_row_list(&RowList::Offsets(vec![3], vec![7, 8, 9])), Some(vec![vec![]]));
}

#[test]
fn split_rejects_bad_row_lists() {
    assert_eq!(split_row_list(&RowList::Fixed(4, vec![0; 6])), None);
    assert_eq!(split_row_list(&RowList::Fixed(0, vec![1])), None);
    assert_eq!(split_row_list(&RowList::Offsets(vec![2, 1], vec![0; 3])), None);
    assert_eq!(split_row_list(&RowList::Offsets(vec![0, 4], vec![0; 3])), None);
    assert_eq!(split_row_list(&RowList::Offsets(vec![4], vec![0; 3])), None);
}

#[test]
fn malformed_row_lists_in_frames_are_skipped() {
    let bad = ws::BsatnRowList::new(RowSizeHint::FixedSize(4), bytes::Bytes::from(vec![0u8; 6]));
    let looping = ws::BsatnRowList::new(RowSizeHint::FixedSize(0), bytes::Bytes::from(vec![1u8]));
    let backwards = ws::BsatnRowList::new(RowSizeHint::RowOffsets(Arc::from(vec![5u64, 1])), bytes::Bytes::from(vec![0u8; 6]));
    for list in [bad, looping, backwards] {
        for name in ["frame", "checkbox_chunk"] {
            let msg = ws::ServerMessage::TransactionUpdate(ws::TransactionUpdate {
                query_sets: vec![ws::QuerySetUpdate {
                    query_set_id: ws::QuerySetId::new(2),
                    tables: vec![ws::TableUpdate {
                        table_name: name.to_string().into(),
                        rows: vec![ws::TableUpdateRows::PersistentTable(ws::PersistentTableRows {
                            inserts: list.clone(),
                            deletes: row_list(&[]),
                        })]
                        .into(),
                    }]
                    .into(),
                }]
                .into(),
            });
            let mut c = WorkerClient::new();
            assert!(c.handle_server_bytes(&frame_of(&msg)).is_empty());
            let mut n = SpacetimeClient::new();
            assert!(n.handle_server_bytes(&frame_of(&msg)).is_empty());
        }
    }
}

#[test]
fn page_reacts_to_worker_messages() {
    let u = on_worker_message(WorkerToMain::Connected).unwrap();
    assert_eq!(u.status, ConnectionStatus::Connected);
    assert_eq!(u.message, "Connected");
    assert!(matches!(u.reply, Some(MainToWorker::Subscribe { ref chunk_ids }) if chunk_ids.is_empty()));
    let u = on_worker_message(WorkerToMain::FatalError { message: "gone".to_string() }).unwrap();
    assert_eq!(u.status, ConnectionStatus::Error);
    assert_eq!(u.message, "gone");
    assert!(u.reply.is_none());
    assert!(on_worker_message(WorkerToMain::ChunkUpdated { chunk_id: 1, state: vec![], version: 2 }).is_none());
}

use sxt_pallets::mock_indexer::{MockIndexerState, MockStatus};
use sxt_pallets::proto::decode_last_checkpoint;
use sxt_pallets::forwarder::ChainEvent;
use sxt_pallets::http_client::HttpError;
use sxt_pallets::offchain_indexing::{
    extract_events, finish_round, fq_name, plan_block, resolve_cursor, should_forward, BlockOps, OpsError,
    RoundEnd, RoundStart,
};
use sxt_pallets::types::TableIdentifier;

const URL: &str = "http://localhost:9000";

fn table_id(namespace: &str, name: &str) -> TableIdentifier {
    TableIdentifier::new(namespace.as_bytes().to_vec(), name.as_bytes().to_vec())
}

fn varint(mut v: u64, out: &mut Vec<u8>) {
    while v >= 0x80 {
        out.push((v as u8) | 0x80);
        v >>= 7;
    }
    out.push(v as u8);
}

fn uint_field(field: u8, v: u64, out: &mut Vec<u8>) {
    if v != 0 {
        out.push(field << 3);
        varint(v, out);
    }
}

fn bytes_field(field: u8, b: &[u8], out: &mut Vec<u8>) {
    if !b.is_empty() {
        out.push((field << 3) | 2);
        varint(b.len() as u64, out);
        out.extend_from_slice(b);
    }
}

fn checkpoint_body(seq: u64) -> Vec<u8> {
    let mut out = Vec::new();
    uint_field(1, seq, &mut out);
    out
}

fn posts(plan: &sxt_pallets::offchain_indexing::ForwardPlan) -> Vec<(String, Vec<u8>)> {
    plan.posts.iter().map(|p| (p.url.clone(), p.body.clone())).collect()
}

fn path(p: &str) -> String {
    format!("{URL}{p}")
}

#[test]
fn ocw_skips_already_forwarded_block() {
    let start = resolve_cursor(Some(5), &None).unwrap();
    assert_eq!(start, RoundStart { last_forwarded: Some(5), persist_cursor: None });
    assert!(!should_forward(start.last_forwarded, 5));
}

#[test]
fn ocw_checkpoints_empty_block_when_cursor_set() {
    let start = resolve_cursor(Some(0), &None).unwrap();
    assert!(should_forward(start.last_forwarded, 1));
    let ops = extract_events(&vec![]);
    assert!(ops.is_empty());
    let plan = plan_block(URL, 1, &ops, &vec![], &vec![]);
    assert_eq!(plan.error, None);
    assert_eq!(posts(&plan), vec![(path("/v1/checkpoint"), checkpoint_body(1))]);
    // the server accepts the checkpoint: the local cursor moves to block 1
    assert_eq!(finish_round(Some(0), 1, &plan, &vec![Ok(())]), RoundEnd { cursor: Some(1), ok: true });
}

#[test]
fn a_failed_request_leaves_the_cursor_for_a_retry() {
    let ops = extract_events(&vec![ChainEvent::TableDropped(table_id("PUBLIC", "OLD_TABLE"))]);
    let plan = plan_block(URL, 7, &ops, &vec![], &vec![]);
    assert_eq!(plan.posts.len(), 2);
    // the drop fails: nothing more is posted
    assert_eq!(
        finish_round(Some(6), 7, &plan, &vec![Err(HttpError::Status(500))]),
        RoundEnd { cursor: Some(6), ok: false }
    );
    // the checkpoint fails
    assert_eq!(
        finish_round(Some(6), 7, &plan, &vec![Ok(()), Err(HttpError::SendFailed)]),
        RoundEnd { cursor: Some(6), ok: false }
    );
    assert_eq!(finish_round(Some(6), 7, &plan, &vec![Ok(()), Ok(())]), RoundEnd { cursor: Some(7), ok: true });
    // a failed translation stops the round before the checkpoint
    let ops = extract_events(&vec![ChainEvent::SchemaUpdated(vec![(table_id("PUBLIC", "T"), b"bad".to_vec())])]);
    let plan = plan_block(URL, 7, &ops, &vec![None], &vec![]);
    assert!(plan.error.is_some());
    assert_eq!(finish_round(None, 7, &plan, &vec![]), RoundEnd { cursor: None, ok: false });
}

#[test]
fn valid_names_render_as_their_text() {
    assert_eq!(fq_name(&table_id("PUBLIC", "OLD_TABLE")), "PUBLIC.OLD_TABLE");
}

#[test]
fn ocw_forwards_table_dropped_event() {
    let ops = extract_events(&vec![ChainEvent::TableDropped(table_id("PUBLIC", "OLD_TABLE"))]);
    let plan = plan_block(URL, 1, &ops, &vec![], &vec![]);
    let mut drop = Vec::new();
    uint_field(1, 1, &mut drop);
    bytes_field(2, b"PUBLIC.OLD_TABLE", &mut drop);
    assert_eq!(plan.error, None);
    assert_eq!(posts(&plan), vec![(path("/v1/drop_table"), drop), (path("/v1/checkpoint"), checkpoint_body(1))]);
}

#[test]
fn ocw_forwards_schema_updated_event() {
    let ddl = b"CREATE TABLE PUBLIC.USERS (ID BIGINT NOT NULL, NAME VARCHAR NOT NULL)";
    let ops = extract_events(&vec![ChainEvent::SchemaUpdated(vec![(table_id("PUBLIC", "USERS"), ddl.to_vec())])]);
    // the schema the DDL translates to
    let expected_schema = vec![0xAB, 0xCD];
    let plan = plan_block(URL, 1, &ops, &vec![Some(expected_schema.clone())], &vec![]);
    let mut create = Vec::new();
    uint_field(1, 1, &mut create);
    bytes_field(2, b"PUBLIC.USERS", &mut create);
    bytes_field(3, &expected_schema, &mut create);
    bytes_field(4, b"META_ROW_NUMBER", &mut create);
    assert_eq!(plan.error, None);
    assert_eq!(
        posts(&plan),
        vec![(path("/v1/create_table"), create), (path("/v1/checkpoint"), checkpoint_body(1))]
    );
}

#[test]
fn first_round_asks_the_server() {
    assert_eq!(
        resolve_cursor(None, &Some(Ok(Some(7)))),
        Some(RoundStart { last_forwarded: Some(7), persist_cursor: Some(7) })
    );
    assert_eq!(resolve_cursor(None, &Some(Ok(None))), Some(RoundStart { last_forwarded: None, persist_cursor: None }));
    assert_eq!(resolve_cursor(None, &Some(Err(HttpError::SendFailed))), None);
    assert!(should_forward(None, 0));
}

#[test]
fn drops_then_creates_then_data_in_name_order() {
    let events = vec![
        ChainEvent::QuorumReached { table: table_id("NS", "ZED"), data: vec![1] },
        ChainEvent::TablesCreatedWithCommitments(vec![(table_id("NS", "NEW"), b"ddl".to_vec())]),
        ChainEvent::QuorumReached { table: table_id("NS", "ALPHA"), data: vec![2] },
        ChainEvent::TableDropped(table_id("NS", "OLD")),
        ChainEvent::QuorumReached { table: table_id("NS", "ZED"), data: vec![3] },
        ChainEvent::Other,
    ];
    let ops = extract_events(&events);
    assert!(!ops.is_empty());
    // one IPC blob per table, in name order: NS.ALPHA, then NS.ZED
    let plan = plan_block(URL, 9, &ops, &vec![Some(vec![5])], &vec![Some(vec![10]), Some(vec![20])]);
    assert_eq!(plan.error, None);
    let urls: Vec<String> = plan.posts.iter().map(|p| p.url.clone()).collect();
    assert_eq!(
        urls,
        vec![path("/v1/drop_table"), path("/v1/create_table"), path("/v1/put_batches"), path("/v1/checkpoint")]
    );
    let mut a = Vec::new();
    bytes_field(1, b"NS.ALPHA", &mut a);
    bytes_field(2, &[10], &mut a);
    let mut z = Vec::new();
    bytes_field(1, b"NS.ZED", &mut z);
    bytes_field(2, &[20], &mut z);
    let mut body = Vec::new();
    uint_field(1, 9, &mut body);
    bytes_field(2, &a, &mut body);
    bytes_field(2, &z, &mut body);
    assert_eq!(plan.posts[2].body, body);
}

#[test]
fn failed_translations_stop_the_block() {
    let events = vec![
        ChainEvent::TableDropped(table_id("NS", "OLD")),
        ChainEvent::SchemaUpdated(vec![(table_id("NS", "A"), b"a".to_vec()), (table_id("NS", "B"), b"b".to_vec())]),
        ChainEvent::QuorumReached { table: table_id("NS", "A"), data: vec![1] },
    ];
    let ops = extract_events(&events);
    let plan = plan_block(URL, 2, &ops, &vec![Some(vec![1]), None], &vec![Some(vec![2])]);
    assert_eq!(plan.error, Some(OpsError::DdlTranslationFailed));
    let urls: Vec<String> = plan.posts.iter().map(|p| p.url.clone()).collect();
    assert_eq!(urls, vec![path("/v1/drop_table"), path("/v1/create_table")]);
    let plan = plan_block(URL, 2, &ops, &vec![Some(vec![1]), Some(vec![1])], &vec![None]);
    assert_eq!(plan.error, Some(OpsError::ArrowIpcTranslationFailed));
    assert_eq!(plan.posts.len(), 3);
}

#[test]
fn lossy_names_and_manual_ops() {
    assert_eq!(fq_name(&TableIdentifier::new(vec![b'N', 0xFF], b"T".to_vec())), "N\u{FFFD}.T");
    let mut ops = BlockOps::new();
    ops.push_data("B".to_string(), vec![1]);
    ops.push_data("A".to_string(), vec![2]);
    ops.push_data("B".to_string(), vec![3]);
    let plan = plan_block(URL, 1, &ops, &vec![], &vec![Some(vec![7]), Some(vec![8])]);
    let mut a = Vec::new();
    bytes_field(1, b"A", &mut a);
    bytes_field(2, &[7], &mut a);
    let mut b = Vec::new();
    bytes_field(1, b"B", &mut b);
    bytes_field(2, &[8], &mut b);
    let mut body = Vec::new();
    uint_field(1, 1, &mut body);
    bytes_field(2, &a, &mut body);
    bytes_field(2, &b, &mut body);
    assert_eq!(plan.posts[0].body, body);
}

#[test]
fn mock_service_creates_each_table_once() {
    let mut s = MockIndexerState::new();
    assert_eq!(s.create_table("a.t".to_string()), Ok(()));
    assert_eq!(s.create_table("a.t".to_string()), Err(MockStatus::Conflict));
    assert_eq!(s.create_table("a.u".to_string()), Ok(()));
    s.drop_table(&"a.t".to_string());
    s.drop_table(&"missing".to_string());
    assert_eq!(s.create_table("a.t".to_string()), Ok(()));
    assert_eq!(s.create_table("a.u".to_string()), Err(MockStatus::Conflict));
}

#[test]
fn mock_service_checkpoints_advance_by_one() {
    let mut s = MockIndexerState::new();
    assert_eq!(decode_last_checkpoint(&s.get_last_checkpoint()), Some((0, false)));
    assert_eq!(s.checkpoint(2), Err(MockStatus::BadRequest));
    assert_eq!(s.checkpoint(1), Ok(()));
    assert_eq!(s.checkpoint(1), Ok(()));
    assert_eq!(s.checkpoint(3), Err(MockStatus::BadRequest));
    assert_eq!(s.checkpoint(2), Ok(()));
    assert_eq!(decode_last_checkpoint(&s.get_last_checkpoint()), Some((2, true)));
}

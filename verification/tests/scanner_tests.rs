use podpingd::hive::jsonrpc::client::NodeRotation;
use podpingd::hive::jsonrpc::responses::{
    parse_hive_datetime, GetBlockResponse, HiveBlock, HiveDateTimeError, HiveOperation,
    HiveTransaction, PodpingOperation,
};
use podpingd::hive::podping::{podping_from_payload, Podping, PodpingVersion};
use podpingd::hive::scanner::{
    block_response_to_hive_block, blocks_from_batch, catchup_chunks, pacing_delay,
    podping_id_regex, BlockRangeChunks, CatchupScanner, ChainScanner,
};
use podpingd::time::UtcInstant;

fn podping(json: &str) -> Podping {
    Podping { version: PodpingVersion::V10, json: json.to_string() }
}

fn op(type_: &str, id: Option<&str>, json: Option<&str>) -> HiveOperation {
    HiveOperation {
        type_: type_.to_string(),
        value: Some(PodpingOperation { id: id.map(|s| s.to_string()), json: json.map(podping) }),
    }
}

fn at(secs: i64) -> UtcInstant {
    UtcInstant::from_timestamp(secs, 0).unwrap()
}

fn response(secs: i64, txs: Vec<Vec<HiveOperation>>, ids: Vec<&str>) -> GetBlockResponse {
    GetBlockResponse {
        block: HiveBlock {
            block_id: "0001".to_string(),
            timestamp: at(secs),
            transaction_ids: ids.into_iter().map(|s| s.to_string()).collect(),
            transactions: txs.into_iter().map(|ops| HiveTransaction { operations: ops }).collect(),
        },
    }
}

#[test]
fn podping_regex_accepts_podping_ids() {
    let re = podping_id_regex().unwrap();
    assert!(re.is_match("pp_podcast_update"));
    assert!(re.is_match("podping"));
    assert!(re.is_match("startpodping"));
    assert!(!re.is_match("pp_podcast"));
    assert!(!re.is_match("podping_other"));
}

#[test]
fn block_keeps_only_podping_operations() {
    let re = podping_id_regex().unwrap();
    let resp = response(
        1714564803,
        vec![
            vec![
                op("custom_json_operation", Some("pp_podcast_update"), Some("{\"a\":1}")),
                op("transfer_operation", Some("podping"), Some("{\"b\":2}")),
                op("custom_json_operation", Some("other"), Some("{\"c\":3}")),
                op("custom_json_operation", Some("podping"), None),
                op("custom_json_operation", None, Some("{\"d\":4}")),
                op("custom_json_operation", Some("podping"), Some("{\"e\":5}")),
            ],
            vec![op("custom_json_operation", Some("something"), Some("{}"))],
            vec![
                HiveOperation { type_: "custom_json_operation".to_string(), value: None },
                op("custom_json_operation", Some("pp_music_live"), Some("{\"f\":6}")),
            ],
        ],
        vec!["tx0", "tx1", "tx2"],
    );
    let block = block_response_to_hive_block(77, &re, resp);
    assert_eq!(block.block_num, 77);
    assert_eq!(block.timestamp.secs(), 1714564803);
    assert_eq!(block.transactions.len(), 2);
    assert_eq!(block.transactions[0].tx_id, "tx0");
    let jsons: Vec<&str> = block.transactions[0].podpings.iter().map(|p| p.json.as_str()).collect();
    assert_eq!(jsons, vec!["{\"a\":1}", "{\"e\":5}"]);
    assert_eq!(block.transactions[1].tx_id, "tx2");
    assert_eq!(block.transactions[1].podpings.len(), 1);
    assert_eq!(block.transactions[1].podpings[0].json, "{\"f\":6}");
}

#[test]
fn block_without_podpings_has_no_transactions() {
    let re = podping_id_regex().unwrap();
    let resp = response(0, vec![vec![op("vote_operation", None, None)]], vec!["t"]);
    let block = block_response_to_hive_block(5, &re, resp);
    assert!(block.transactions.is_empty());
}

#[test]
fn podping_versions() {
    let p = podping_from_payload("{}".to_string(), Some("1.1".to_string()), Some(3), Some(4)).unwrap();
    assert_eq!(p.version, PodpingVersion::V11 { session_id: 3, timestamp_ns: 4 });
    assert!(podping_from_payload("{}".to_string(), Some("1.1".to_string()), None, Some(4)).is_none());
    let p = podping_from_payload("{}".to_string(), Some("1.0".to_string()), None, None).unwrap();
    assert_eq!(p.version, PodpingVersion::V10);
    assert_eq!(p.json, "{}");
    assert_eq!(
        podping_from_payload("x".to_string(), Some("0.3".to_string()), None, None).unwrap().version,
        PodpingVersion::V03
    );
    assert_eq!(
        podping_from_payload("x".to_string(), Some("0.2".to_string()), None, None).unwrap().version,
        PodpingVersion::V02
    );
    assert_eq!(podping_from_payload("x".to_string(), None, None, None).unwrap().version, PodpingVersion::V0);
    assert!(podping_from_payload("x".to_string(), Some("9.9".to_string()), None, None).is_none());
}

fn all_chunks(chunks: &BlockRangeChunks) -> Vec<Vec<u64>> {
    let mut it = chunks.iter();
    let mut out = Vec::new();
    while let Some(c) = it.next() {
        out.push(c);
    }
    out
}

#[test]
fn chunks_cover_range_in_batches() {
    let chunks = BlockRangeChunks { start_block: 1, end_block: 250, batch_size: 100 };
    let out = all_chunks(&chunks);
    assert_eq!(out.len(), 3);
    assert_eq!(out[0], (1..101).collect::<Vec<u64>>());
    assert_eq!(out[1], (101..201).collect::<Vec<u64>>());
    assert_eq!(out[2], (201..251).collect::<Vec<u64>>());
    let flat: Vec<u64> = out.concat();
    assert_eq!(flat, (1..=250).collect::<Vec<u64>>());
}

#[test]
fn chunks_edge_cases() {
    assert!(all_chunks(&BlockRangeChunks { start_block: 10, end_block: 9, batch_size: 5 }).is_empty());
    assert_eq!(all_chunks(&BlockRangeChunks { start_block: 4, end_block: 4, batch_size: 5 }), vec![vec![4]]);
    assert_eq!(
        all_chunks(&BlockRangeChunks { start_block: 0, end_block: 3, batch_size: 2 }),
        vec![vec![0, 1], vec![2, 3]]
    );
    let c = catchup_chunks(1000, 1100);
    let out = all_chunks(&c);
    assert_eq!(out.len(), 2);
    assert_eq!(out[0].len(), 100);
    assert_eq!(out[1], vec![1100]);
    let top = BlockRangeChunks { start_block: u64::MAX - 1, end_block: u64::MAX, batch_size: 1 };
    let mut it = top.iter();
    assert!(it.can_advance());
    assert_eq!(it.next(), Some(vec![u64::MAX - 1]));
    assert!(!it.can_advance());
}

#[test]
fn batch_of_blocks_pairs_numbers_with_answers() {
    let re = podping_id_regex().unwrap();
    let chunk = vec![10, 11, 12];
    let answers = vec![
        Some(response(30, vec![vec![op("custom_json_operation", Some("podping"), Some("{}"))]], vec!["a"])),
        Some(response(33, vec![], vec![])),
    ];
    let blocks = blocks_from_batch(&chunk, answers, &re).unwrap();
    assert_eq!(blocks.len(), 2);
    assert_eq!(blocks[0].block_num, 10);
    assert_eq!(blocks[0].transactions.len(), 1);
    assert_eq!(blocks[1].block_num, 11);
    assert_eq!(blocks[1].timestamp.secs(), 33);
    let bad = vec![Some(response(30, vec![], vec![])), None];
    assert!(blocks_from_batch(&chunk, bad, &re).is_none());
    let short_ids = vec![Some(response(30, vec![vec![]], vec![]))];
    assert!(blocks_from_batch(&chunk, short_ids, &re).is_none());
}

#[test]
fn scanner_moves_on_only_after_a_block() {
    let re = podping_id_regex().unwrap();
    let mut scanner = ChainScanner::new(500);
    let block = scanner.on_block(response(3, vec![], vec![]), &re);
    assert_eq!(block.block_num, 500);
    assert_eq!(scanner.block_num, 501);
    let block = scanner.on_block(response(6, vec![], vec![]), &re);
    assert_eq!(block.block_num, 501);
    assert_eq!(scanner.block_num, 502);
}

#[test]
fn pacing_waits_out_the_block_interval() {
    let t = |s: i64, n: u32| UtcInstant::from_timestamp(s, n).unwrap();
    // fresh block, handled in half a second: wait two and a half seconds
    assert_eq!(pacing_delay(t(100, 0), t(100, 500_000_000), t(99, 0)), Some(2_500_000_000));
    // old block: no wait
    assert_eq!(pacing_delay(t(100, 0), t(100, 500_000_000), t(90, 0)), None);
    // slow handling: no wait
    assert_eq!(pacing_delay(t(100, 0), t(103, 0), t(102, 0)), None);
}

#[test]
fn pacing_counts_a_leap_second_as_chrono_does() {
    let t = |s: i64, n: u32| UtcInstant::from_timestamp(s, n).unwrap();
    // handling began inside the leap second after 00:00:59 and ended at 00:01:00:
    // chrono counts half a second of handling, so the wait is two and a half
    let start = t(59, 1_500_000_000);
    let end = t(60, 0);
    let loop_time = chrono::DateTime::from_timestamp(60, 0).unwrap()
        - chrono::DateTime::from_timestamp(59, 1_500_000_000).unwrap();
    assert_eq!(loop_time.num_milliseconds(), 500);
    assert_eq!(pacing_delay(start, end, t(59, 0)), Some(2_500_000_000));
}

#[test]
fn nodes_rotate_round_robin() {
    let mut nodes = NodeRotation::new(vec!["a".to_string(), "b".to_string(), "c".to_string()]);
    assert_eq!(nodes.current_node(), "a");
    assert_eq!(nodes.rotate_node(), "b");
    assert_eq!(nodes.rotate_node(), "c");
    assert_eq!(nodes.rotate_node(), "a");
    assert_eq!(nodes.current_node(), "a");
    let mut single = NodeRotation::new(vec!["only".to_string()]);
    assert_eq!(single.rotate_node(), "only");
}

#[test]
fn hive_datetime_parsing() {
    let t = parse_hive_datetime("2024-05-01T12:00:03").unwrap();
    assert_eq!(t.secs(), 1714564803);
    assert_eq!(t.nanos(), 0);
    assert_eq!(parse_hive_datetime("2024-05-01 12:00:03").unwrap_err(), HiveDateTimeError::Invalid);
    assert_eq!(parse_hive_datetime("2024-02-30T00:00:00").unwrap_err(), HiveDateTimeError::Invalid);
    let c = t.civil();
    assert_eq!((c.year, c.month, c.day, c.hour, c.minute, c.second), (2024, 5, 1, 12, 0, 3));
}

#[test]
fn catchup_scanner_moves_on_after_a_failure() {
    let re = podping_id_regex().unwrap();
    let mut nodes = NodeRotation::new(vec!["a".to_string(), "b".to_string()]);
    let mut catchup = CatchupScanner::new(1, 150);
    assert!(catchup.can_advance());
    let first = catchup.next_batch().unwrap();
    assert_eq!(first, (1..101).collect::<Vec<u64>>());
    // the first batch failed: the next node is used and the next batch follows
    assert_eq!(catchup.on_failure(&mut nodes), "b");
    let second = catchup.next_batch().unwrap();
    assert_eq!(second, (101..151).collect::<Vec<u64>>());
    let blocks = catchup.on_batch(&second, vec![Some(response(3, vec![], vec![]))], &re).unwrap();
    assert_eq!(blocks.len(), 1);
    assert_eq!(blocks[0].block_num, 101);
    assert_eq!(catchup.next_batch(), None);
}

#[test]
fn chain_scanner_retries_after_a_failure() {
    let mut nodes = NodeRotation::new(vec!["a".to_string(), "b".to_string()]);
    let scanner = ChainScanner::new(42);
    assert_eq!(scanner.on_failure(&mut nodes), "b");
    assert_eq!(scanner.block_num, 42);
    assert_eq!(scanner.on_failure(&mut nodes), "a");
}

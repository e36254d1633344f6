use podpingd::config::{persistence_warnings, Scanner, Settings, Writer};
use podpingd::hive::jsonrpc::responses::GetDynamicGlobalPropertiesResponse;
use podpingd::syncer::{
    first_sync_step, get_start_block, get_start_block_from_global_properties,
    sync_step_after_catchup, StartBlockError, SyncError, SyncStep,
};
use podpingd::time::UtcInstant;

fn at(secs: i64, nanos: u32) -> UtcInstant {
    UtcInstant::from_timestamp(secs, nanos).unwrap()
}

fn props(head: u64, secs: i64) -> GetDynamicGlobalPropertiesResponse {
    GetDynamicGlobalPropertiesResponse { head_block_number: head, time: at(secs, 0) }
}

fn scanner(start_block: Option<u64>, start_datetime: Option<UtcInstant>) -> Scanner {
    Scanner { rpc_nodes: vec!["https://api.hive.blog".to_string()], start_block, start_datetime }
}

#[test]
fn start_block_from_time_in_a_leap_second() {
    // 00:00:59 plus one and a half seconds lies in a leap second; chrono counts
    // that leap second, so 00:01:03 is three whole seconds later: one block
    let p = props(1000, 63);
    let start = at(59, 1_500_000_000);
    let chrono_seconds = (chrono::DateTime::from_timestamp(63, 0).unwrap()
        - chrono::DateTime::from_timestamp(59, 1_500_000_000).unwrap())
    .num_seconds();
    assert_eq!(chrono_seconds, 3);
    assert_eq!(get_start_block_from_global_properties(Some(start), &p), Ok(999));
    // a start in the leap second at the end of a day, the chain time a day later
    let start = at(86_399, 1_250_000_000);
    let p = props(100_000, 86_399 + 86_400);
    let chrono_seconds = (chrono::DateTime::from_timestamp(86_399 + 86_400, 0).unwrap()
        - chrono::DateTime::from_timestamp(86_399, 1_250_000_000).unwrap())
    .num_seconds();
    assert_eq!(get_start_block_from_global_properties(Some(start), &p), Ok(100_000 - (chrono_seconds / 3) as u64));
}

#[test]
fn start_block_from_time() {
    let p = props(1000, 10_000);
    assert_eq!(get_start_block_from_global_properties(None, &p), Ok(1000));
    assert_eq!(get_start_block_from_global_properties(Some(at(9_970, 0)), &p), Ok(990));
    // 31 seconds ago is ten whole blocks ago
    assert_eq!(get_start_block_from_global_properties(Some(at(9_969, 0)), &p), Ok(990));
    // 32.5 seconds ago is ten blocks ago too
    assert_eq!(get_start_block_from_global_properties(Some(at(9_967, 500_000_000)), &p), Ok(990));
    assert_eq!(get_start_block_from_global_properties(Some(at(10_000, 0)), &p), Ok(1000));
    assert_eq!(
        get_start_block_from_global_properties(Some(at(10_000, 1)), &p),
        Err(StartBlockError::StartInFuture)
    );
    assert_eq!(
        get_start_block_from_global_properties(Some(at(0, 0)), &props(10, 10_000)),
        Err(StartBlockError::BeforeFirstBlock)
    );
}

#[test]
fn start_block_resumes_after_last_written() {
    let p = props(1000, 10_000);
    assert_eq!(get_start_block(Some(41), &scanner(Some(5), None), &p), Ok(42));
    assert_eq!(get_start_block(None, &scanner(Some(5), Some(at(9_970, 0))), &p), Ok(5));
    assert_eq!(get_start_block(None, &scanner(None, Some(at(9_970, 0))), &p), Ok(990));
    assert_eq!(get_start_block(None, &scanner(None, None), &p), Ok(1000));
    assert_eq!(
        get_start_block(Some(u64::MAX), &scanner(None, None), &p),
        Err(StartBlockError::NoBlockAfterLast)
    );
}

#[test]
fn sync_steps() {
    assert_eq!(first_sync_step(100, 100), Ok(SyncStep::Follow { start_block: 100 }));
    assert_eq!(first_sync_step(150, 100), Ok(SyncStep::Follow { start_block: 150 }));
    assert_eq!(first_sync_step(98, 100), Ok(SyncStep::Follow { start_block: 98 }));
    assert_eq!(first_sync_step(97, 100), Ok(SyncStep::Catchup { start_block: 97, end_block: 100 }));
    assert_eq!(first_sync_step(0, 1), Err(SyncError::HeadTooLow));
    assert_eq!(
        sync_step_after_catchup(100, 200),
        Ok(SyncStep::Catchup { start_block: 101, end_block: 200 })
    );
    assert_eq!(sync_step_after_catchup(100, 103), Ok(SyncStep::Follow { start_block: 101 }));
    assert_eq!(sync_step_after_catchup(u64::MAX, 5), Err(SyncError::NoBlockAfterHead));
}

#[test]
fn start_up_warnings() {
    let writer = |enabled: bool, silenced: bool| Writer {
        enabled,
        disable_persistence_warnings: silenced,
        type_: None,
        disk_directory: None,
        disk_trim_old: None,
        disk_trim_keep_duration: None,
        object_storage_base_url: None,
        object_storage_bucket_name: None,
        object_storage_access_key: None,
        object_storage_access_secret: None,
    };
    let s = Settings { debug: false, scanner: scanner(Some(3), None), writer: writer(false, false) };
    let w = persistence_warnings(&s);
    assert!(w.writer_disabled && w.start_repeats);
    let s = Settings { debug: false, scanner: scanner(None, None), writer: writer(false, false) };
    let w = persistence_warnings(&s);
    assert!(w.writer_disabled && !w.start_repeats);
    let s = Settings { debug: false, scanner: scanner(Some(3), None), writer: writer(false, true) };
    let w = persistence_warnings(&s);
    assert!(!w.writer_disabled && !w.start_repeats);
    let s = Settings { debug: false, scanner: scanner(Some(3), None), writer: writer(true, false) };
    assert!(!persistence_warnings(&s).writer_disabled);
}

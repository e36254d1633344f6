use podpingd::config::{Writer, WriterType};
use podpingd::hive::podping::{Podping, PodpingVersion};
use podpingd::hive::scanner::{HiveBlockWithNum, HiveTransactionWithTxId};
use podpingd::time::{Span, UtcInstant};
use podpingd::writer::console_writer::console_lines;
use podpingd::writer::disk_writer::{
    block_directory, date_directory_regex, disk_directory, disk_write_plan, entry_path_to_date,
    get_days_from_month, keep_after, keep_duration, trim_due, trim_entry_action,
    DiskSettingsError, EntryDateError, KeepAfterError, TrimAction, TrimLevel,
};
use podpingd::writer::writer::{
    batch_action, follow_action, last_block_of_batch, last_block_record, parse_last_block, ReceiveOutcome,
    WriterAction, LAST_UPDATED_BLOCK_FILENAME,
};

fn block(num: u64, secs: i64, txs: Vec<(&str, Vec<Podping>)>) -> HiveBlockWithNum {
    HiveBlockWithNum {
        block_num: num,
        timestamp: UtcInstant::from_timestamp(secs, 0).unwrap(),
        transactions: txs
            .into_iter()
            .map(|(id, podpings)| HiveTransactionWithTxId { tx_id: id.to_string(), podpings })
            .collect(),
    }
}

fn pp(version: PodpingVersion, json: &str) -> Podping {
    Podping { version, json: json.to_string() }
}

fn writer(dir: Option<&str>, trim: Option<bool>, keep: Option<Span>) -> Writer {
    Writer {
        enabled: true,
        disable_persistence_warnings: false,
        type_: Some(WriterType::Disk),
        disk_directory: dir.map(|d| d.to_string()),
        disk_trim_old: trim,
        disk_trim_keep_duration: keep,
        object_storage_base_url: None,
        object_storage_bucket_name: None,
        object_storage_access_key: None,
        object_storage_access_secret: None,
    }
}

#[test]
fn last_block_file_roundtrip() {
    assert_eq!(LAST_UPDATED_BLOCK_FILENAME, "last_updated_block");
    assert_eq!(last_block_record(90_000_123), "90000123");
    assert_eq!(parse_last_block(&last_block_record(90_000_123)), Some(90_000_123));
    assert_eq!(parse_last_block(" 42\n"), Some(42));
    assert_eq!(parse_last_block("abc"), None);
    assert_eq!(parse_last_block(""), None);
    assert_eq!(last_block_of_batch(&vec![]), None);
    assert_eq!(last_block_of_batch(&vec![block(3, 0, vec![]), block(4, 3, vec![])]), Some("4".to_string()));
}

#[test]
fn writer_reactions() {
    assert_eq!(follow_action(ReceiveOutcome::Received), WriterAction::Write);
    assert_eq!(follow_action(ReceiveOutcome::Lagged), WriterAction::Skip);
    assert_eq!(follow_action(ReceiveOutcome::Closed), WriterAction::Abort);
    assert_eq!(batch_action(ReceiveOutcome::Received), WriterAction::Write);
    assert_eq!(batch_action(ReceiveOutcome::Lagged), WriterAction::Skip);
    assert_eq!(batch_action(ReceiveOutcome::Closed), WriterAction::Stop);
}

#[test]
fn console_lines_for_blocks() {
    assert_eq!(console_lines(&block(7, 0, vec![])), vec!["No Podpings for block 7".to_string()]);
    let b = block(
        8,
        0,
        vec![("t1", vec![pp(PodpingVersion::V10, "{\"a\":1}"), pp(PodpingVersion::V0, "{}")]), ("t2", vec![pp(PodpingVersion::V02, "[]")])],
    );
    assert_eq!(
        console_lines(&b),
        vec![
            "block: 8, tx: t1, podping: {\"a\":1}".to_string(),
            "block: 8, tx: t1, podping: {}".to_string(),
            "block: 8, tx: t2, podping: []".to_string(),
        ]
    );
}

#[test]
fn disk_settings() {
    assert_eq!(disk_directory(&writer(None, None, None)), Err(DiskSettingsError::DirectoryNotSet));
    assert_eq!(disk_directory(&writer(Some(""), None, None)), Err(DiskSettingsError::DirectoryEmpty));
    assert_eq!(disk_directory(&writer(Some("/data"), None, None)), Ok("/data".to_string()));
    let k = Span { secs: 3600, nanos: 0 };
    assert_eq!(keep_duration(&writer(Some("/d"), None, Some(k))), Ok(None));
    assert_eq!(keep_duration(&writer(Some("/d"), Some(false), Some(k))), Ok(None));
    assert_eq!(keep_duration(&writer(Some("/d"), Some(true), Some(k))), Ok(Some(k)));
    assert_eq!(keep_duration(&writer(Some("/d"), Some(true), None)), Err(DiskSettingsError::KeepDurationNotSet));
    assert!(trim_due(Some(k), Span { secs: 3600, nanos: 0 }));
    assert!(!trim_due(Some(k), Span { secs: 3599, nanos: 999_999_999 }));
    assert!(!trim_due(None, Span { secs: 7200, nanos: 0 }));
}

#[test]
fn disk_layout() {
    // 2024-05-01T12:00:03Z
    let dir = block_directory(&UtcInstant::from_timestamp(1714564803, 0).unwrap());
    assert_eq!(dir, vec!["2024", "5", "1", "12", "0", "3"]);
    assert!(disk_write_plan(&block(1, 1714564803, vec![])).is_none());
    let b = block(
        90,
        1714564803,
        vec![(
            "abc",
            vec![
                pp(PodpingVersion::V10, "{\"x\":1}"),
                pp(PodpingVersion::V11 { session_id: 55, timestamp_ns: 66 }, "{\"y\":2}"),
                pp(PodpingVersion::V03, "{\"z\":3}"),
            ],
        )],
    );
    let plan = disk_write_plan(&b).unwrap();
    assert_eq!(plan.directory, vec!["2024", "5", "1", "12", "0", "3"]);
    let names: Vec<&str> = plan.files.iter().map(|f| f.name.as_str()).collect();
    assert_eq!(names, vec!["90_abc_0.json", "90_abc_55_66.json", "90_abc_2.json"]);
    assert_eq!(plan.files[1].contents, "{\"y\":2}");
}

#[test]
fn days_of_months() {
    assert_eq!(get_days_from_month(2024, 2), 29);
    assert_eq!(get_days_from_month(2023, 2), 28);
    assert_eq!(get_days_from_month(2024, 12), 31);
    assert_eq!(get_days_from_month(2024, 4), 30);
    assert_eq!(get_days_from_month(1900, 2), 28);
    assert_eq!(get_days_from_month(2000, 2), 29);
}

#[test]
fn directory_dates() {
    let re = date_directory_regex().unwrap();
    let d = |p: &str| entry_path_to_date(p, &re).map(|o| o.map(|t| t.secs()));
    assert_eq!(d("/data/2024/5"), Ok(Some(1717199999)));
    assert_eq!(d("/data/2024/2"), Ok(Some(1709251199)));
    assert_eq!(d("/data/2023"), Ok(Some(1704067199)));
    assert_eq!(d("/data/2024/5/1/12/0/3"), Ok(Some(1714564803)));
    assert_eq!(d("/data/2024/13"), Err(EntryDateError::NoSuchMonth));
    assert_eq!(d("/data/2024/4/31"), Err(EntryDateError::NoSuchDate));
    assert_eq!(d("/data/2024/4/30/24"), Err(EntryDateError::NoSuchDate));
    assert_eq!(d("/data/last_updated_block"), Ok(None));
    assert_eq!(d("nodirectory"), Ok(None));
}

#[test]
fn last_child_directory_has_its_parents_date() {
    let re = date_directory_regex().unwrap();
    let d = |p: &str| entry_path_to_date(p, &re).map(|o| o.map(|t| t.secs()));
    assert_eq!(d("/data/2024/12"), d("/data/2024"));
    assert_eq!(d("/data/2024/2/29"), d("/data/2024/2"));
    assert_eq!(d("/data/2023/2/28"), d("/data/2023/2"));
    assert_eq!(d("/data/2024/5/1/23"), d("/data/2024/5/1"));
    assert_eq!(d("/data/2024/5/1/23/59"), d("/data/2024/5/1/23"));
    assert_eq!(d("/data/2024/5/1/23/59/59"), d("/data/2024/5/1/23/59"));
    // an earlier child lies before its parent's date
    assert!(d("/data/2024/5/1/22").unwrap() < d("/data/2024/5/1").unwrap());
}

#[test]
fn trim_decisions() {
    let re = date_directory_regex().unwrap();
    // cut-off: 2024-05-01T12:00:03Z
    let keep = UtcInstant::from_timestamp(1714564803, 0).unwrap();
    let act = |p: &str, dir: bool, level: TrimLevel| trim_entry_action(p, dir, &keep, level, &re);
    assert_eq!(act("/data/2023", true, TrimLevel::Year), Ok(TrimAction::Delete));
    assert_eq!(act("/data/2025", true, TrimLevel::Year), Ok(TrimAction::Keep));
    assert_eq!(act("/data/2024", true, TrimLevel::Year), Ok(TrimAction::Descend { next: Some(TrimLevel::Month) }));
    assert_eq!(act("/data/2024/4", true, TrimLevel::Month), Ok(TrimAction::Delete));
    assert_eq!(act("/data/2024/6", true, TrimLevel::Month), Ok(TrimAction::Keep));
    assert_eq!(act("/data/2024/5/1/12/0/3", true, TrimLevel::Second), Ok(TrimAction::Descend { next: None }));
    assert_eq!(act("/data/2024/5/1/12/0/2", true, TrimLevel::Second), Ok(TrimAction::Delete));
    assert_eq!(act("/data/2024", false, TrimLevel::Year), Ok(TrimAction::Stop));
    assert_eq!(act("/data/notadate", true, TrimLevel::Year), Ok(TrimAction::Stop));
    assert_eq!(act("/data/2024/13", true, TrimLevel::Month), Err(EntryDateError::NoSuchMonth));
    assert_eq!(TrimLevel::Year.next_level(), Some(TrimLevel::Month));
    assert_eq!(TrimLevel::Second.next_level(), None);
}

#[test]
fn trim_cut_off() {
    let now = UtcInstant::from_timestamp(1714564803, 250).unwrap();
    let k = keep_after(&now, Span { secs: 3600, nanos: 500 }).unwrap();
    assert_eq!((k.secs(), k.nanos()), (1714561202, 999_999_750));
    assert_eq!(keep_after(&now, Span { secs: u64::MAX, nanos: 0 }).unwrap_err(), KeepAfterError::DurationTooLong);
    assert_eq!(
        keep_after(&now, Span { secs: 9_223_372_036_854_775, nanos: 0 }).unwrap_err(),
        KeepAfterError::Overflow
    );
    assert_eq!(keep_after(&now, Span { secs: 1, nanos: 1_000_000_000 }).unwrap_err(), KeepAfterError::DurationTooLong);
    // within a leap second (23:59:59 plus a second and a half)
    let leap = UtcInstant::from_timestamp(1704067199, 1_500_000_000).unwrap();
    let k = keep_after(&leap, Span { secs: 0, nanos: 200_000_000 }).unwrap();
    assert_eq!((k.secs(), k.nanos()), (1704067199, 1_300_000_000));
    let k = keep_after(&leap, Span { secs: 1, nanos: 0 }).unwrap();
    assert_eq!((k.secs(), k.nanos()), (1704067199, 500_000_000));
}

#[test]
fn leap_second_cut_off_matches_chrono() {
    use_chrono_reference();
}

fn use_chrono_reference() {
    let leap = chrono::DateTime::from_timestamp(1704067199, 1_500_000_000).unwrap();
    for (s, n) in [(0u64, 200_000_000u32), (0, 700_000_000), (1, 0), (2, 600_000_000), (3600, 1)] {
        let expected = leap - std::time::Duration::new(s, n);
        let got = keep_after(&UtcInstant::from_timestamp(1704067199, 1_500_000_000).unwrap(), Span { secs: s, nanos: n }).unwrap();
        assert_eq!((got.secs(), got.nanos()), (expected.timestamp(), expected.timestamp_subsec_nanos()), "{} {}", s, n);
    }
    let plain = chrono::DateTime::from_timestamp(1714564803, 250).unwrap();
    for (s, n) in [(0u64, 251u32), (3600, 500), (86_400 * 400, 999_999_999)] {
        let expected = plain - std::time::Duration::new(s, n);
        let got = keep_after(&UtcInstant::from_timestamp(1714564803, 250).unwrap(), Span { secs: s, nanos: n }).unwrap();
        assert_eq!((got.secs(), got.nanos()), (expected.timestamp(), expected.timestamp_subsec_nanos()));
    }
}

//! Writing podpings to a directory tree by block time, and trimming the
//! directories that have grown older than the configured keep duration.
use vstd::prelude::*;
use crate::config::Writer;
use crate::hive::podping::{Podping, PodpingVersion};
use crate::hive::scanner::{transactions_view, HiveBlockWithNum, HiveTransactionWithTxId};
use crate::pattern::{compile_regex, regex_capture_groups, regex_compiles, regex_captures, CompiledRegex};
use crate::text::{decimal, lemma_decimal_parse_roundtrip, i64_to_decimal, parse_u32, parse_unsigned, signed_decimal, u64_to_decimal};
use crate::time::{
    ce_day_number, chrono_day_number, chrono_sub_span, chrono_utc_from_ymd_hms, days_before_month,
    fits_time_delta, lemma_year_length, month_length, span_before, utc_civil_of, CivilTime, Span,
    UtcInstant,
};

verus! {

// ---------------------------------------------------------------------------
// Settings

/// Why the disk writer's settings cannot be used.
#[derive(Debug, Clone, Copy, PartialEq, Eq)]
pub enum DiskSettingsError {
    /// No data directory is set.
    DirectoryNotSet,
    /// The data directory is the empty string.
    DirectoryEmpty,
    /// Trimming is on but no keep duration is set.
    KeepDurationNotSet,
}

/// The data directory of the disk writer: it must be set and not empty.
pub fn disk_directory(writer: &Writer) -> (r: Result<String, DiskSettingsError>)
    ensures
        match writer.disk_directory {
            None => r == Err::<String, DiskSettingsError>(DiskSettingsError::DirectoryNotSet),
            Some(d) => if d@.len() == 0 {
                r == Err::<String, DiskSettingsError>(DiskSettingsError::DirectoryEmpty)
            } else {
                r == Ok::<String, DiskSettingsError>(d)
            },
        },
{
    match &writer.disk_directory {
        Some(d) => {
            if d.as_str().is_empty() {
                Err(DiskSettingsError::DirectoryEmpty)
            } else {
                Ok(d.clone())
            }
        },
        None => Err(DiskSettingsError::DirectoryNotSet),
    }
}

/// How long podpings are kept: `None` when trimming is off (it is off unless
/// set), the keep duration when it is on.
pub fn keep_duration(writer: &Writer) -> (r: Result<Option<Span>, DiskSettingsError>)
    ensures
        match writer.disk_trim_old {
            Some(true) => match writer.disk_trim_keep_duration {
                Some(k) => r == Ok::<Option<Span>, DiskSettingsError>(Some(k)),
                None => r == Err::<Option<Span>, DiskSettingsError>(
                    DiskSettingsError::KeepDurationNotSet,
                ),
            },
            _ => r == Ok::<Option<Span>, DiskSettingsError>(None),
        },
{
    match writer.disk_trim_old {
        Some(true) => match writer.disk_trim_keep_duration {
            Some(k) => Ok(Some(k)),
            None => Err(DiskSettingsError::KeepDurationNotSet),
        },
        _ => Ok(None),
    }
}

/// Old podpings are trimmed once an hour, when trimming is on.
pub fn trim_due(keep_duration: Option<Span>, since_last_trim: Span) -> (r: bool)
    ensures
        r == (keep_duration is Some && since_last_trim.secs >= 3600),
{
    keep_duration.is_some() && since_last_trim.secs >= 3600
}


// ---------------------------------------------------------------------------
// Layout of the written podpings

/// The directory of a block, below the data directory: its year, month, day,
/// hour, minute and second, each a directory level, in decimal.
pub open spec fn block_directory_parts(c: (int, int, int, int, int, int)) -> Seq<Seq<char>> {
    seq![
        signed_decimal(c.0),
        decimal(c.1 as nat),
        decimal(c.2 as nat),
        decimal(c.3 as nat),
        decimal(c.4 as nat),
        decimal(c.5 as nat),
    ]
}

/// The directory of the block written at instant `t`.
pub open spec fn block_directory_of(t: UtcInstant) -> Seq<Seq<char>> {
    block_directory_parts(utc_civil_of(t@.0, t@.1)->0)
}

/// The file name of the podping at position `index` of transaction `tx_id`
/// in block `block_num`: a version 1.1 podping is named by its session and
/// time stamp, any other by its position.
pub open spec fn podping_file_name(block_num: u64, tx_id: Seq<char>, index: nat, podping: Podping) -> Seq<
    char,
> {
    match podping.version {
        PodpingVersion::V11 { session_id, timestamp_ns } => decimal(block_num as nat) + "_"@ + tx_id
            + "_"@ + decimal(session_id as nat) + "_"@ + decimal(timestamp_ns as nat) + ".json"@,
        _ => decimal(block_num as nat) + "_"@ + tx_id + "_"@ + decimal(index) + ".json"@,
    }
}

/// The name of a podping's file, spelled out: block number, transaction id
/// and the podping's position, or its session id and time stamp for a
/// version 1.1 podping, joined by underscores, then `.json`.
pub open spec fn expected_file_name(block_num: u64, tx_id: Seq<char>, index: int, podping: Podping) -> Seq<char> {
    let tail = match podping.version {
        PodpingVersion::V11 { session_id, timestamp_ns } => decimal(session_id as nat) + "_"@
            + decimal(timestamp_ns as nat),
        _ => decimal(index as nat),
    };
    decimal(block_num as nat) + "_"@ + tx_id + "_"@ + tail + ".json"@
}

/// A podping file: its name in the block's directory and its contents.
#[derive(Debug)]
pub struct PodpingFile {
    pub name: String,
    pub contents: String,
}

impl View for PodpingFile {
    type V = (Seq<char>, Seq<char>);

    open spec fn view(&self) -> (Seq<char>, Seq<char>) {
        (self.name@, self.contents@)
    }
}

/// What the disk writer writes for a block that has podpings.
#[derive(Debug)]
pub struct BlockWrite {
    /// The block's directory, level by level, below the data directory.
    pub directory: Vec<String>,
    /// The podping files, in order.
    pub files: Vec<PodpingFile>,
}

/// The files of the podpings of one transaction.
pub open spec fn transaction_files(block_num: u64, tx: (Seq<char>, Seq<Podping>)) -> Seq<
    (Seq<char>, Seq<char>),
> {
    Seq::new(
        tx.1.len(),
        |i: int| (podping_file_name(block_num, tx.0, i as nat, tx.1[i]), tx.1[i].json@),
    )
}

/// The files of the podpings of a list of transactions, in order.
pub open spec fn transactions_files(block_num: u64, txs: Seq<(Seq<char>, Seq<Podping>)>) -> Seq<
    (Seq<char>, Seq<char>),
>
    decreases txs.len(),
{
    if txs.len() == 0 {
        seq![]
    } else {
        transactions_files(block_num, txs.drop_last()) + transaction_files(block_num, txs.last())
    }
}

proof fn lemma_file_name_spelled_out(block_num: u64, tx_id: Seq<char>, index: int, podping: Podping)
    requires
        index >= 0,
    ensures
        podping_file_name(block_num, tx_id, index as nat, podping) == expected_file_name(
            block_num,
            tx_id,
            index,
            podping,
        ),
{
    let head = decimal(block_num as nat) + "_"@ + tx_id + "_"@;
    match podping.version {
        PodpingVersion::V11 { session_id, timestamp_ns } => {
            let a = decimal(session_id as nat);
            let b = decimal(timestamp_ns as nat);
            assert(head + a + "_"@ + b + ".json"@ =~= head + (a + "_"@ + b) + ".json"@);
        },
        _ => {},
    }
}

/// The files of one transaction, spelled out.
proof fn lemma_transaction_files_spelled_out(block_num: u64, tx: (Seq<char>, Seq<Podping>))
    ensures
        transaction_files(block_num, tx).len() == tx.1.len(),
        forall|i: int|
            0 <= i < tx.1.len() ==> #[trigger] transaction_files(block_num, tx)[i] == (
                expected_file_name(block_num, tx.0, i, tx.1[i]),
                tx.1[i].json@,
            ),
{
    assert forall|i: int| 0 <= i < tx.1.len() implies #[trigger] transaction_files(block_num, tx)[i]
        == (expected_file_name(block_num, tx.0, i, tx.1[i]), tx.1[i].json@) by {
        lemma_file_name_spelled_out(block_num, tx.0, i, tx.1[i]);
    }
}

/// Every podping of every transaction of a block gets a file named from its
/// own transaction's id: the block number, the transaction id and the
/// podping's position (or, for a version 1.1 podping, its session id and
/// time stamp), joined by underscores, with the podping's JSON as contents.
#[verifier::spinoff_prover]
pub proof fn lemma_files_named_by_own_transaction(
    block_num: u64,
    txs: Seq<(Seq<char>, Seq<Podping>)>,
)
    ensures
        forall|t: int, i: int|
            0 <= t < txs.len() && 0 <= i < txs[t].1.len() ==> transactions_files(
                block_num,
                txs,
            ).contains((#[trigger] expected_file_name(block_num, txs[t].0, i, txs[t].1[i]), txs[t].1[i].json@)),
    decreases txs.len(),
{
    if txs.len() > 0 {
        let rest = txs.drop_last();
        lemma_files_named_by_own_transaction(block_num, rest);
        let prefix = transactions_files(block_num, rest);
        let last = txs.len() - 1;
        let tail = transaction_files(block_num, txs[last]);
        let all = transactions_files(block_num, txs);
        assert(txs.last() == txs[last]);
        assert(all == prefix + tail);
        lemma_transaction_files_spelled_out(block_num, txs[last]);
        assert forall|t: int, i: int| 0 <= t < txs.len() && 0 <= i < txs[t].1.len() implies all.contains(
            (#[trigger] expected_file_name(block_num, txs[t].0, i, txs[t].1[i]), txs[t].1[i].json@),
        ) by {
            let f = (expected_file_name(block_num, txs[t].0, i, txs[t].1[i]), txs[t].1[i].json@);
            if t < last {
                assert(rest[t] == txs[t]);
                assert(prefix.contains(f));
                let k = choose|k: int| 0 <= k < prefix.len() && prefix[k] == f;
                assert(all[k] == f);
            } else {
                assert(tail[i] == f);
                assert(all[prefix.len() + i] == f);
            }
        }
    } else {
        assert(transactions_files(block_num, txs).len() == 0);
    }
}

/// The disk writer writes one file for every line that the console writer
/// logs of a block with podpings: one for every podping.
pub proof fn lemma_one_file_per_podping_line(block_num: u64, txs: Seq<(Seq<char>, Seq<Podping>)>)
    ensures
        transactions_files(block_num, txs).len()
            == crate::writer::console_writer::transactions_lines(block_num, txs).len(),
    decreases txs.len(),
{
    if txs.len() > 0 {
        lemma_one_file_per_podping_line(block_num, txs.drop_last());
    }
}

fn file_name(block_num: &String, tx_id: &String, index: usize, podping: &Podping) -> (s: String)
    ensures
        s@ == match podping.version {
            PodpingVersion::V11 { session_id, timestamp_ns } => block_num@ + "_"@ + tx_id@ + "_"@
                + decimal(session_id as nat) + "_"@ + decimal(timestamp_ns as nat) + ".json"@,
            _ => block_num@ + "_"@ + tx_id@ + "_"@ + decimal(index as nat) + ".json"@,
        },
{
    let mut s = String::from_str(block_num.as_str());
    s.append("_");
    s.append(tx_id.as_str());
    s.append("_");
    match podping.version {
        PodpingVersion::V11 { session_id, timestamp_ns } => {
            let a = u64_to_decimal(session_id);
            let b = u64_to_decimal(timestamp_ns);
            s.append(a.as_str());
            s.append("_");
            s.append(b.as_str());
        },
        _ => {
            let a = u64_to_decimal(index as u64);
            s.append(a.as_str());
        },
    }
    s.append(".json");
    s
}

/// The directory of a block written at `timestamp`.
pub fn block_directory(timestamp: &UtcInstant) -> (parts: Vec<String>)
    ensures
        parts@.map_values(|p: String| p@) == block_directory_of(*timestamp),
{
    let c = timestamp.civil();
    let mut parts: Vec<String> = Vec::new();
    parts.push(i64_to_decimal(c.year as i64));
    parts.push(u64_to_decimal(c.month as u64));
    parts.push(u64_to_decimal(c.day as u64));
    parts.push(u64_to_decimal(c.hour as u64));
    parts.push(u64_to_decimal(c.minute as u64));
    parts.push(u64_to_decimal(c.second as u64));
    assert(parts@.map_values(|p: String| p@) =~= block_directory_parts(c.tuple()));
    parts
}

/// What the disk writer writes for a block: nothing when it has no
/// transactions; else the block's directory and a file for every podping, in
/// order, holding the podping's JSON text.
pub fn disk_write_plan(block: &HiveBlockWithNum) -> (r: Option<BlockWrite>)
    ensures
        block.transactions.len() == 0 ==> r is None,
        block.transactions.len() > 0 ==> {
            &&& r is Some
            &&& r->0.directory@.map_values(|p: String| p@) == block_directory_of(block.timestamp)
            &&& r->0.files@.map_values(|f: PodpingFile| f@) == transactions_files(
                block.block_num,
                transactions_view(block.transactions@),
            )
        },
{
    if block.transactions.len() == 0 {
        return None;
    }
    let directory = block_directory(&block.timestamp);
    let num = u64_to_decimal(block.block_num);
    let ghost txs = transactions_view(block.transactions@);
    let mut files: Vec<PodpingFile> = Vec::new();
    let n = block.transactions.len();
    let mut i: usize = 0;
    while i < n
        invariant
            i <= n,
            n == block.transactions@.len(),
            txs == transactions_view(block.transactions@),
            num@ == decimal(block.block_num as nat),
            files@.map_values(|f: PodpingFile| f@) == transactions_files(
                block.block_num,
                txs.take(i as int),
            ),
        decreases n - i,
    {
        let tx: &HiveTransactionWithTxId = &block.transactions[i];
        let ghost before = files@.map_values(|f: PodpingFile| f@);
        let m = tx.podpings.len();
        let mut j: usize = 0;
        while j < m
            invariant
                j <= m,
                m == tx.podpings@.len(),
                num@ == decimal(block.block_num as nat),
                files@.map_values(|f: PodpingFile| f@) == before + transaction_files(
                    block.block_num,
                    (tx.tx_id@, tx.podpings@.take(j as int)),
                ),
            decreases m - j,
        {
            let podping = &tx.podpings[j];
            let name = file_name(&num, &tx.tx_id, j, podping);
            let file = PodpingFile { name, contents: podping.json.clone() };
            let ghost prev = files@.map_values(|f: PodpingFile| f@);
            assert(file@ == (
                podping_file_name(block.block_num, tx.tx_id@, j as nat, tx.podpings@[j as int]),
                tx.podpings@[j as int].json@,
            ));
            assert(transaction_files(block.block_num, (tx.tx_id@, tx.podpings@.take(j + 1)))
                =~= transaction_files(block.block_num, (tx.tx_id@, tx.podpings@.take(j as int))).push(
                file@,
            ));
            files.push(file);
            assert(files@.map_values(|f: PodpingFile| f@) =~= prev.push(file@));
            j = j + 1;
        }
        assert(tx.podpings@.take(m as int) =~= tx.podpings@);
        assert(txs.take(i + 1).drop_last() =~= txs.take(i as int));
        assert(txs[i as int] == tx@);
        i = i + 1;
    }
    assert(txs.take(n as int) =~= txs);
    Some(BlockWrite { directory, files })
}


// ---------------------------------------------------------------------------
// Trimming old podpings

/// The pattern of a directory path below the data directory: a year, then
/// optionally a month, day, hour, minute and second, as capture groups 1 to 6.
pub const DATE_DIRECTORY_PATTERN: &'static str = "^.*?/(?<year>\\d+)/?(?<month>\\d+)?/?(?<day>\\d+)?/?(?<hour>\\d+)?/?(?<minute>\\d+)?/?(?<second>\\d+)?$";

/// Compiles `DATE_DIRECTORY_PATTERN`.
pub fn date_directory_regex() -> (r: Result<CompiledRegex, regex::Error>)
    ensures
        r is Ok <==> regex_compiles(DATE_DIRECTORY_PATTERN@),
        r matches Ok(re) ==> re@ == DATE_DIRECTORY_PATTERN@,
{
    compile_regex(DATE_DIRECTORY_PATTERN)
}

/// The directory level that a trim pass looks at.
#[derive(Debug, Clone, Copy, PartialEq, Eq)]
pub enum TrimLevel {
    Year,
    Month,
    Day,
    Hour,
    Minute,
    Second,
}

impl TrimLevel {
    /// The level below, if any.
    pub open spec fn spec_next_level(self) -> Option<TrimLevel> {
        match self {
            TrimLevel::Year => Some(TrimLevel::Month),
            TrimLevel::Month => Some(TrimLevel::Day),
            TrimLevel::Day => Some(TrimLevel::Hour),
            TrimLevel::Hour => Some(TrimLevel::Minute),
            TrimLevel::Minute => Some(TrimLevel::Second),
            TrimLevel::Second => None,
        }
    }

    pub fn next_level(&self) -> (r: Option<TrimLevel>)
        ensures
            r == self.spec_next_level(),
    {
        match self {
            TrimLevel::Year => Some(TrimLevel::Month),
            TrimLevel::Month => Some(TrimLevel::Day),
            TrimLevel::Day => Some(TrimLevel::Hour),
            TrimLevel::Hour => Some(TrimLevel::Minute),
            TrimLevel::Minute => Some(TrimLevel::Second),
            TrimLevel::Second => None,
        }
    }

    /// How many levels lie below: the trim recursion goes down at most this
    /// far.
    pub open spec fn depth_below(self) -> nat {
        match self {
            TrimLevel::Year => 5,
            TrimLevel::Month => 4,
            TrimLevel::Day => 3,
            TrimLevel::Hour => 2,
            TrimLevel::Minute => 1,
            TrimLevel::Second => 0,
        }
    }

    /// The field of a date and time that this level stands for.
    pub open spec fn component(self, c: (int, int, int, int, int, int)) -> int {
        match self {
            TrimLevel::Year => c.0,
            TrimLevel::Month => c.1,
            TrimLevel::Day => c.2,
            TrimLevel::Hour => c.3,
            TrimLevel::Minute => c.4,
            TrimLevel::Second => c.5,
        }
    }
}

/// Each level below is one step further down, so a trim pass ends.
pub proof fn lemma_next_level_descends(level: TrimLevel)
    ensures
        level.spec_next_level() matches Some(next) ==> next.depth_below() + 1 == level.depth_below(),
        level.spec_next_level() is None <==> level.depth_below() == 0,
{
}

/// The month after `month` of `year`; `None` where computing it overflows.
pub open spec fn next_month(year: i32, month: u32) -> Option<(i32, u32)> {
    if month == 12 {
        if year == i32::MAX {
            None
        } else {
            Some(((year + 1) as i32, 1u32))
        }
    } else if month == u32::MAX {
        None
    } else {
        Some((year, (month + 1) as u32))
    }
}

/// Whether chrono has the first day of `month` and of the month after.
pub open spec fn month_known(year: i32, month: u32) -> bool {
    &&& next_month(year, month) matches Some((ny, nm))
    &&& ce_day_number(ny as int, nm as int, 1) is Some
    &&& ce_day_number(year as int, month as int, 1) is Some
}

/// The number of days of `month` of `year`: the days from its first day to
/// the first day of the next month.
pub open spec fn days_in_month(year: i32, month: u32) -> u32 {
    let (ny, nm) = next_month(year, month)->0;
    (ce_day_number(ny as int, nm as int, 1)->0 - ce_day_number(year as int, month as int, 1)->0) as u32
}

/// A month's length, counted from its first day to the first day of the next
/// month, is that of the Gregorian calendar: 31, 30, or 28 or 29 for
/// February.
pub proof fn lemma_days_in_month(year: i32, month: u32)
    requires
        month_known(year, month),
    ensures
        days_in_month(year, month) == month_length(year as int, month as int),
        28 <= days_in_month(year, month) <= 31,
{
    if month == 12 {
        lemma_year_length(year as int);
    }
}

/// The number of days of `month` of `year`, as chrono counts the days from
/// its first day to the first day of the next month.
pub fn get_days_from_month(year: i32, month: u32) -> (r: u32)
    requires
        month_known(year, month),
    ensures
        r == days_in_month(year, month),
        r == month_length(year as int, month as int),
{
    proof {
        lemma_days_in_month(year, month);
    }
    let (ny, nm) = if month == 12 {
        (year + 1, 1u32)
    } else {
        (year, month + 1)
    };
    let next = chrono_day_number(ny, nm, 1);
    let this = chrono_day_number(year, month, 1);
    match (next, this) {
        (Some(a), Some(b)) => (a as i64 - b as i64) as u32,
        _ => {
            proof {
                assert(false);
            }
            0
        },
    }
}

/// The number in capture group `index`, read as a `u32`; `default` where the
/// group did not take part in the match or does not read as a `u32`.
pub open spec fn capture_number(groups: Seq<Option<Seq<char>>>, index: int, default: u32) -> u32 {
    if 0 <= index < groups.len() && groups[index] is Some {
        match parse_unsigned(groups[index]->0, u32::MAX as nat) {
            Some(v) => v as u32,
            None => default,
        }
    } else {
        default
    }
}

fn capture_number_exec(groups: &Vec<Option<String>>, index: usize, default: u32) -> (r: u32)
    ensures
        r == capture_number(crate::pattern::groups_view(groups@), index as int, default),
{
    if index < groups.len() {
        match &groups[index] {
            Some(text) => match parse_u32(text.as_str()) {
                Some(v) => v,
                None => default,
            },
            None => default,
        }
    } else {
        default
    }
}

/// The date and time fields of a directory path: year, month, day, hour,
/// minute and second, with 0, 12, 0, 23, 59 and 59 where a field is missing.
pub open spec fn entry_fields(groups: Seq<Option<Seq<char>>>) -> (u32, u32, u32, u32, u32, u32) {
    (
        capture_number(groups, 1, 0),
        capture_number(groups, 2, 12),
        capture_number(groups, 3, 0),
        capture_number(groups, 4, 23),
        capture_number(groups, 5, 59),
        capture_number(groups, 6, 59),
    )
}

/// The directory that the disk writer makes for a block names the block's
/// time again, to the second: where a path's groups 1 to 6 are the decimal
/// year, month, day, hour, minute and second of an instant's calendar fields,
/// the trim reads the path as that instant with its fraction of a second cut.
/// (Which groups the date pattern captures from such a path is the regex
/// crate's answer, which this library names but does not state.)
pub proof fn lemma_directory_fields_give_back_instant(
    c: CivilTime,
    secs: int,
    groups: Seq<Option<Seq<char>>>,
)
    requires
        c.year >= 0,
        ce_day_number(c.year as int, c.month as int, c.day as int) == Some(
            secs / 86400 + crate::time::UNIX_EPOCH_DAY,
        ),
        c.hour < 24,
        c.minute < 60,
        c.second < 60,
        c.hour * 3600 + c.minute * 60 + c.second == secs % 86400,
        groups.len() == 7,
        groups[1] == Some(decimal(c.year as nat)),
        groups[2] == Some(decimal(c.month as nat)),
        groups[3] == Some(decimal(c.day as nat)),
        groups[4] == Some(decimal(c.hour as nat)),
        groups[5] == Some(decimal(c.minute as nat)),
        groups[6] == Some(decimal(c.second as nat)),
    ensures
        spec_entry_date(Some(groups)) == Ok::<Option<(int, int)>, EntryDateError>(Some((secs, 0))),
{
    let max = u32::MAX as nat;
    lemma_decimal_parse_roundtrip(c.year as nat, max);
    lemma_decimal_parse_roundtrip(c.month as nat, max);
    lemma_decimal_parse_roundtrip(c.day as nat, max);
    lemma_decimal_parse_roundtrip(c.hour as nat, max);
    lemma_decimal_parse_roundtrip(c.minute as nat, max);
    lemma_decimal_parse_roundtrip(c.second as nat, max);
    let fields = entry_fields(groups);
    assert(fields == (c.year as u32, c.month, c.day, c.hour, c.minute, c.second));
    assert((c.year as u32) as i32 == c.year);
    vstd::arithmetic::div_mod::lemma_fundamental_div_mod(secs, 86400);
}

/// A directory path whose fields name no date and time that chrono has.
#[derive(Debug, Clone, Copy, PartialEq, Eq)]
pub enum EntryDateError {
    /// The path has no day and chrono has no length for its month.
    NoSuchMonth,
    /// The date and time of the path do not exist.
    NoSuchDate,
}

/// The latest instant that a directory path stands for: its date and time,
/// where a missing day is the month's last day and a missing hour, minute or
/// second is the last one.  `Ok(None)` where the path does not match the date
/// pattern.
pub open spec fn spec_entry_date(captures: Option<Seq<Option<Seq<char>>>>) -> Result<
    Option<(int, int)>,
    EntryDateError,
> {
    match captures {
        None => Ok(None),
        Some(groups) => fields_date(entry_fields(groups)),
    }
}

/// The latest instant that the fields year, month, day, hour, minute and
/// second of a directory path stand for, where a day of 0 is the month's last.
pub open spec fn fields_date(fields: (u32, u32, u32, u32, u32, u32)) -> Result<
    Option<(int, int)>,
    EntryDateError,
> {
    let (year, month, day, hour, minute, second) = fields;
    let y = year as i32;
    if day == 0 && !month_known(y, month) {
        Err(EntryDateError::NoSuchMonth)
    } else {
        let actual_day = if day == 0 {
            days_in_month(y, month)
        } else {
            day
        };
        if ce_day_number(y as int, month as int, actual_day as int) is Some && hour < 24 && minute
            < 60 && second < 60 {
            Ok(
                Some(
                    (
                        (ce_day_number(y as int, month as int, actual_day as int)->0
                            - crate::time::UNIX_EPOCH_DAY) * 86400 + hour * 3600 + minute * 60
                            + second,
                        0,
                    ),
                ),
            )
        } else {
            Err(EntryDateError::NoSuchDate)
        }
    }
}

/// The Unix seconds of a directory's date, where it has one.
pub open spec fn date_seconds(date: Result<Option<(int, int)>, EntryDateError>) -> int {
    match date {
        Ok(Some((secs, _))) => secs,
        _ => 0,
    }
}

/// The fields after `fields` at position `j` (2 for the month up to 6 for
/// the second) are those of a path that stops before them.
pub open spec fn fields_missing_from(fields: (u32, u32, u32, u32, u32, u32), j: int) -> bool {
    &&& j <= 2 ==> fields.1 == 12
    &&& j <= 3 ==> fields.2 == 0
    &&& j <= 4 ==> fields.3 == 23
    &&& j <= 5 ==> fields.4 == 59
    &&& j <= 6 ==> fields.5 == 59
}

/// `child` has the fields of `parent`, but at position `j`, where it has
/// `value`.
pub open spec fn fields_with(fields: (u32, u32, u32, u32, u32, u32), j: int, value: u32) -> (
    u32,
    u32,
    u32,
    u32,
    u32,
    u32,
) {
    (
        fields.0,
        if j == 2 {
            value
        } else {
            fields.1
        },
        if j == 3 {
            value
        } else {
            fields.2
        },
        if j == 4 {
            value
        } else {
            fields.3
        },
        if j == 5 {
            value
        } else {
            fields.4
        },
        if j == 6 {
            value
        } else {
            fields.5
        },
    )
}

/// The same, read from capture groups: a path whose groups from `j` on did not
/// take part in the match, and the path one level deeper, whose group `j` is
/// `text`; where `text` is the decimal of the last value, the dates are the
/// same.
pub proof fn lemma_child_path_not_later(parent: Seq<Option<Seq<char>>>, j: int, text: Seq<char>)
    requires
        parent.len() == 7,
        2 <= j <= 6,
        forall|i: int| j <= i <= 6 ==> (#[trigger] parent[i]) is None,
        spec_entry_date(Some(parent)) matches Ok(Some(_)),
        spec_entry_date(Some(parent.update(j, Some(text)))) matches Ok(Some(_)),
    ensures
        date_seconds(spec_entry_date(Some(parent.update(j, Some(text))))) <= date_seconds(
            spec_entry_date(Some(parent)),
        ),
        text == decimal(last_child_value(entry_fields(parent), j) as nat) ==> date_seconds(
            spec_entry_date(Some(parent.update(j, Some(text)))),
        ) == date_seconds(spec_entry_date(Some(parent))),
{
    let child = parent.update(j, Some(text));
    let fp = entry_fields(parent);
    let default: u32 = if j == 2 {
        12
    } else if j == 3 {
        0
    } else if j == 4 {
        23
    } else {
        59
    };
    let v = capture_number(child, j, default);
    lemma_decimal_parse_roundtrip(last_child_value(fp, j) as nat, u32::MAX as nat);
    assert(parent[2] is None ==> fp.1 == 12);
    assert(fields_missing_from(fp, j)) by {
        if j <= 2 {
            assert(parent[2] is None);
        }
        if j <= 3 {
            assert(parent[3] is None);
        }
        if j <= 4 {
            assert(parent[4] is None);
        }
        if j <= 5 {
            assert(parent[5] is None);
        }
        assert(parent[6] is None);
    }
    assert(entry_fields(child) == fields_with(fp, j, v));
    lemma_child_directory_not_later(fp, j, v);
}

proof fn lemma_days_before_next_month(year: int, month: int)
    requires
        1 <= month <= 12,
    ensures
        days_before_month(year, month) + month_length(year, month) <= days_before_month(year, 12)
            + 31,
        month < 12 ==> days_before_month(year, month) + month_length(year, month)
            == days_before_month(year, month + 1),
{
}

/// The largest value of the field at position `j` (2 for the month up to 6
/// for the second) under a directory with the fields `parent`: December, the
/// month's last day, hour 23, minute 59 or second 59.
pub open spec fn last_child_value(parent: (u32, u32, u32, u32, u32, u32), j: int) -> u32 {
    if j == 2 {
        12
    } else if j == 3 {
        days_in_month(parent.0 as i32, parent.1)
    } else if j == 4 {
        23
    } else {
        59
    }
}

/// A directory's date bounds the dates of the directories inside it: the
/// date of a path one level deeper (one more field, at position `j`) is not
/// later than that of the path, and is the same for its last child.
pub proof fn lemma_child_directory_not_later(
    parent: (u32, u32, u32, u32, u32, u32),
    j: int,
    value: u32,
)
    requires
        2 <= j <= 6,
        fields_missing_from(parent, j),
        fields_date(parent) matches Ok(Some(_)),
        fields_date(fields_with(parent, j, value)) matches Ok(Some(_)),
    ensures
        date_seconds(fields_date(fields_with(parent, j, value))) <= date_seconds(fields_date(parent)),
        value == last_child_value(parent, j) ==> date_seconds(
            fields_date(fields_with(parent, j, value)),
        ) == date_seconds(fields_date(parent)),
{
    let child = fields_with(parent, j, value);
    let y = parent.0 as i32;
    if parent.2 == 0 {
        lemma_days_in_month(y, parent.1);
    }
    if child.2 == 0 {
        lemma_days_in_month(y, child.1);
    }
    if j == 2 {
        lemma_days_before_next_month(y as int, child.1 as int);
        lemma_days_before_next_month(y as int, 12);
    }
}

/// The instant that a directory path of the data directory stands for, as
/// `spec_entry_date` states it.
pub fn entry_path_to_date(entry_path: &str, date_regex: &CompiledRegex) -> (r: Result<
    Option<UtcInstant>,
    EntryDateError,
>)
    ensures
        match spec_entry_date(regex_captures(date_regex@, entry_path@)) {
            Ok(None) => r matches Ok(None),
            Ok(Some(v)) => r matches Ok(Some(t)) && t@ == v,
            Err(e) => r == Err::<Option<UtcInstant>, EntryDateError>(e),
        },
{
    let groups = match regex_capture_groups(date_regex, entry_path) {
        Some(groups) => groups,
        None => {
            return Ok(None);
        },
    };
    let year = capture_number_exec(&groups, 1, 0);
    let month = capture_number_exec(&groups, 2, 12);
    let day = capture_number_exec(&groups, 3, 0);
    let hour = capture_number_exec(&groups, 4, 23);
    let minute = capture_number_exec(&groups, 5, 59);
    let second = capture_number_exec(&groups, 6, 59);
    let y = year as i32;
    let actual_day = if day == 0 {
        let known = if month == 12 {
            y != i32::MAX && chrono_day_number(y + 1, 1, 1).is_some()
        } else {
            month != u32::MAX && chrono_day_number(y, month + 1, 1).is_some()
        };
        if !known || chrono_day_number(y, month, 1).is_none() {
            return Err(EntryDateError::NoSuchMonth);
        }
        get_days_from_month(y, month)
    } else {
        day
    };
    match UtcInstant::from_ymd_hms(y, month, actual_day, hour, minute, second) {
        Some(t) => Ok(Some(t)),
        None => Err(EntryDateError::NoSuchDate),
    }
}

/// What a trim pass does with one entry of a directory.
#[derive(Debug, Clone, Copy, PartialEq, Eq)]
pub enum TrimAction {
    /// Stop the pass over this directory.
    Stop,
    /// Delete the entry with everything below it.
    Delete,
    /// Trim inside the entry at the next level; with no next level there is
    /// nothing more to trim inside it.
    Descend { next: Option<TrimLevel> },
    /// Leave the entry: everything inside it is newer than the cut-off.
    Keep,
}

/// Chronological order of two instants given as (seconds, nanoseconds).
pub open spec fn instant_before(a: (int, int), b: (int, int)) -> bool {
    a.0 < b.0 || (a.0 == b.0 && a.1 < b.1)
}

/// What a trim pass at `level` does with the entry at `entry_path`: a file, or
/// a path that is not a date, stops the pass; a directory whose latest instant
/// lies before `keep_after` is deleted; else, when the entry's field at this
/// level is greater than that of `keep_after`, the entry is kept as a whole,
/// and otherwise the pass goes down into it.
pub open spec fn spec_trim_entry_action(
    captures: Option<Seq<Option<Seq<char>>>>,
    is_dir: bool,
    keep_after: UtcInstant,
    level: TrimLevel,
) -> Result<TrimAction, EntryDateError> {
    if !is_dir {
        Ok(TrimAction::Stop)
    } else {
        match spec_entry_date(captures) {
            Err(e) => Err(e),
            Ok(None) => Ok(TrimAction::Stop),
            Ok(Some(d)) => if instant_before(d, keep_after@) {
                Ok(TrimAction::Delete)
            } else if level.component(utc_civil_of(d.0, d.1)->0) > level.component(
                utc_civil_of(keep_after@.0, keep_after@.1)->0,
            ) {
                Ok(TrimAction::Keep)
            } else {
                Ok(TrimAction::Descend { next: level.spec_next_level() })
            },
        }
    }
}

/// A trim deletes a directory only when the latest instant that it stands
/// for lies before the cut-off, and it never deletes a file.
pub proof fn lemma_trim_deletes_only_older_directories(
    captures: Option<Seq<Option<Seq<char>>>>,
    is_dir: bool,
    keep_after: UtcInstant,
    level: TrimLevel,
)
    ensures
        spec_trim_entry_action(captures, is_dir, keep_after, level) == Ok::<
            TrimAction,
            EntryDateError,
        >(TrimAction::Delete) ==> {
            &&& is_dir
            &&& spec_entry_date(captures) matches Ok(Some(d))
            &&& instant_before(d, keep_after@)
        },
        spec_trim_entry_action(captures, is_dir, keep_after, level) matches Ok(
            TrimAction::Descend { next },
        ) ==> next == level.spec_next_level(),
{
}

/// A later cut-off deletes at least what an earlier one deletes: where a trim
/// with cut-off `earlier` deletes an entry, one with a cut-off not before it
/// deletes it too.
pub proof fn lemma_trim_delete_monotone(
    captures: Option<Seq<Option<Seq<char>>>>,
    is_dir: bool,
    earlier: UtcInstant,
    later: UtcInstant,
    level: TrimLevel,
)
    requires
        spec_trim_entry_action(captures, is_dir, earlier, level) == Ok::<TrimAction, EntryDateError>(
            TrimAction::Delete,
        ),
        !later.before(earlier),
    ensures
        spec_trim_entry_action(captures, is_dir, later, level) == Ok::<TrimAction, EntryDateError>(
            TrimAction::Delete,
        ),
{
}

/// A trim keeps an entry whole, without looking inside, only when the entry
/// is a date directory not older than the cut-off whose field at the level
/// (its year at the year level, its month at the month level, its day,
/// hour, minute or second further down) is greater than that field of the
/// cut-off.
pub proof fn lemma_trim_keeps_only_later_fields(
    captures: Option<Seq<Option<Seq<char>>>>,
    is_dir: bool,
    keep_after: UtcInstant,
    level: TrimLevel,
)
    ensures
        spec_trim_entry_action(captures, is_dir, keep_after, level) == Ok::<
            TrimAction,
            EntryDateError,
        >(TrimAction::Keep) ==> {
            &&& is_dir
            &&& spec_entry_date(captures) matches Ok(Some(d))
            &&& !instant_before(d, keep_after@)
            &&& {
                let e = utc_civil_of(d.0, d.1)->0;
                let k = utc_civil_of(keep_after@.0, keep_after@.1)->0;
                match level {
                    TrimLevel::Year => e.0 > k.0,
                    TrimLevel::Month => e.1 > k.1,
                    TrimLevel::Day => e.2 > k.2,
                    TrimLevel::Hour => e.3 > k.3,
                    TrimLevel::Minute => e.4 > k.4,
                    TrimLevel::Second => e.5 > k.5,
                }
            }
        },
{
}

fn civil_component(level: TrimLevel, c: &CivilTime) -> (r: i64)
    ensures
        r == level.component(c.tuple()),
{
    match level {
        TrimLevel::Year => c.year as i64,
        TrimLevel::Month => c.month as i64,
        TrimLevel::Day => c.day as i64,
        TrimLevel::Hour => c.hour as i64,
        TrimLevel::Minute => c.minute as i64,
        TrimLevel::Second => c.second as i64,
    }
}

/// Decides what a trim pass at `level` does with one directory entry, as
/// `spec_trim_entry_action` states it.
pub fn trim_entry_action(
    entry_path: &str,
    is_dir: bool,
    keep_after: &UtcInstant,
    level: TrimLevel,
    date_regex: &CompiledRegex,
) -> (r: Result<TrimAction, EntryDateError>)
    ensures
        r == spec_trim_entry_action(
            regex_captures(date_regex@, entry_path@),
            is_dir,
            *keep_after,
            level,
        ),
{
    if !is_dir {
        return Ok(TrimAction::Stop);
    }
    match entry_path_to_date(entry_path, date_regex) {
        Err(e) => Err(e),
        Ok(None) => Ok(TrimAction::Stop),
        Ok(Some(d)) => {
            if d.is_before(keep_after) {
                Ok(TrimAction::Delete)
            } else {
                let dc = d.civil();
                let kc = keep_after.civil();
                if civil_component(level, &dc) > civil_component(level, &kc) {
                    Ok(TrimAction::Keep)
                } else {
                    Ok(TrimAction::Descend { next: level.next_level() })
                }
            }
        },
    }
}


/// Why no cut-off instant can be computed.
#[derive(Debug, Clone, Copy, PartialEq, Eq)]
pub enum KeepAfterError {
    /// The keep duration is longer than chrono's `TimeDelta` holds.
    DurationTooLong,
    /// The cut-off lies before the earliest instant that chrono holds.
    Overflow,
}

/// A keep duration that a `std::time::Duration` can be and that chrono's
/// `TimeDelta` holds.
pub open spec fn keep_duration_fits(keep: Span) -> bool {
    keep.nanos < 1_000_000_000 && fits_time_delta(keep)
}

/// The cut-off of a trim: `keep` before `now`, as chrono's
/// `DateTime - Duration` computes it, where chrono holds `keep` and the
/// cut-off.
pub open spec fn spec_keep_after(now: UtcInstant, keep: Span) -> Result<(int, int), KeepAfterError> {
    if !keep_duration_fits(keep) {
        Err(KeepAfterError::DurationTooLong)
    } else {
        let (s, n) = span_before(now, keep);
        if i64::MIN <= s <= i64::MAX && utc_civil_of(s, n) is Some {
            Ok((s, n))
        } else {
            Err(KeepAfterError::Overflow)
        }
    }
}

proof fn lemma_lex_of_total(a: int, b: int)
    requires
        a <= b,
    ensures
        !instant_before((b / 1_000_000_000, b % 1_000_000_000), (a / 1_000_000_000, a % 1_000_000_000)),
{
    vstd::arithmetic::div_mod::lemma_fundamental_div_mod(a, 1_000_000_000);
    vstd::arithmetic::div_mod::lemma_fundamental_div_mod(b, 1_000_000_000);
    vstd::arithmetic::div_mod::lemma_div_is_ordered(a, b, 1_000_000_000);
}

/// Keeping podpings longer moves the cut-off back: the cut-off for the longer
/// keep duration is not after the one for the shorter.
pub proof fn lemma_keep_after_monotone(now: UtcInstant, shorter: Span, longer: Span)
    requires
        shorter.secs * 1_000_000_000 + shorter.nanos <= longer.secs * 1_000_000_000 + longer.nanos,
        now@.1 < 2_000_000_000,
        spec_keep_after(now, shorter) is Ok,
        spec_keep_after(now, longer) is Ok,
    ensures
        !instant_before(spec_keep_after(now, shorter)->Ok_0, spec_keep_after(now, longer)->Ok_0),
{
    now.lemma_view_bounds();
    let ks = shorter.secs * 1_000_000_000 + shorter.nanos;
    let kl = longer.secs * 1_000_000_000 + longer.nanos;
    let t = now.total_nanos();
    if now@.1 >= 1_000_000_000 && shorter.secs == 0 {
        if longer.secs == 0 {
        } else {
            // the longer cut-off lies before the end of the leap second, and not
            // after the shorter one
            let b = t - kl;
            assert(b < now@.0 * 1_000_000_000 + 1_000_000_000 && b <= now@.0 * 1_000_000_000
                + now@.1 - shorter.nanos) by (nonlinear_arith)
                requires
                    b == now@.0 * 1_000_000_000 + now@.1 - (longer.secs * 1_000_000_000
                        + longer.nanos),
                    longer.secs >= 1,
                    now@.1 < 2_000_000_000,
                    longer.nanos >= 0,
                    shorter.secs == 0,
                    shorter.nanos <= longer.secs * 1_000_000_000 + longer.nanos,
            {
            }
            vstd::arithmetic::div_mod::lemma_fundamental_div_mod(b, 1_000_000_000);
        }
    } else {
        lemma_lex_of_total(t - kl, t - ks);
    }
}

/// The instant before which podpings are trimmed, `keep` before `now`.
pub fn keep_after(now: &UtcInstant, keep: Span) -> (r: Result<UtcInstant, KeepAfterError>)
    ensures
        match spec_keep_after(*now, keep) {
            Ok(v) => r matches Ok(t) && t@ == v,
            Err(e) => r == Err::<UtcInstant, KeepAfterError>(e),
        },
{
    if keep.nanos >= 1_000_000_000 {
        return Err(KeepAfterError::DurationTooLong);
    }
    match chrono_sub_span(now, keep) {
        Err(_) => Err(KeepAfterError::DurationTooLong),
        Ok(None) => Err(KeepAfterError::Overflow),
        Ok(Some((secs, nanos))) => match UtcInstant::from_timestamp(secs, nanos) {
            Some(t) => Ok(t),
            None => Err(KeepAfterError::Overflow),
        },
    }
}

} // verus!

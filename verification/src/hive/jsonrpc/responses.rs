//! The parts of the Hive API's answers that the daemon reads.
use vstd::prelude::*;
use crate::hive::podping::Podping;
use crate::time::{naive_utc_parse, UtcInstant};

verus! {

/// The answer of `condenser_api.get_dynamic_global_properties`.
#[derive(Debug)]
pub struct GetDynamicGlobalPropertiesResponse {
    pub head_block_number: u64,
    pub time: UtcInstant,
}

/// The answer of `block_api.get_block`.
#[derive(Debug)]
pub struct GetBlockResponse {
    pub block: HiveBlock,
}

#[derive(Debug)]
pub struct HiveBlock {
    pub block_id: String,
    pub timestamp: UtcInstant,
    pub transaction_ids: Vec<String>,
    pub transactions: Vec<HiveTransaction>,
}

#[derive(Debug)]
pub struct HiveTransaction {
    pub operations: Vec<HiveOperation>,
}

#[derive(Debug)]
pub struct HiveOperation {
    /// The operation's type, such as `custom_json_operation`.
    pub type_: String,
    /// The operation's value where it reads as a custom JSON operation.
    pub value: Option<PodpingOperation>,
}

#[derive(Debug)]
pub struct PodpingOperation {
    pub id: Option<String>,
    /// The operation's JSON payload where it is a podping.
    pub json: Option<Podping>,
}

/// The format of the timestamps in the Hive API's answers, which carry no
/// time zone and are read as UTC.
pub const HIVE_DATETIME_FORMAT: &'static str = "%Y-%m-%dT%H:%M:%S";

/// A timestamp that does not read in `HIVE_DATETIME_FORMAT`.
#[derive(Debug, Clone, Copy, PartialEq, Eq)]
pub enum HiveDateTimeError {
    Invalid,
}

/// Reads a Hive timestamp, such as `2024-05-01T12:00:03`, as a UTC instant.
pub fn parse_hive_datetime(text: &str) -> (r: Result<UtcInstant, HiveDateTimeError>)
    ensures
        match naive_utc_parse(text@, HIVE_DATETIME_FORMAT@) {
            Some((s, n)) => r matches Ok(t) && t@ == (s, n),
            None => r == Err::<UtcInstant, HiveDateTimeError>(HiveDateTimeError::Invalid),
        },
{
    match UtcInstant::parse_from_str(text, HIVE_DATETIME_FORMAT) {
        Some(t) => Ok(t),
        None => Err(HiveDateTimeError::Invalid),
    }
}

} // verus!

//! Where the sync starts, and when it catches up in batches before it
//! follows the head of the chain block by block.
use vstd::prelude::*;
use crate::config::Scanner;
use crate::hive::jsonrpc::responses::GetDynamicGlobalPropertiesResponse;
use crate::hive::scanner::{batches_from, block_range, lemma_batches_cover_range, CATCHUP_BATCH_SIZE};
use crate::time::{chrono_signed_duration_since, trunc_div, whole_seconds_between, UtcInstant};

verus! {

/// Hive produces a block every three seconds.
pub const SECONDS_PER_BLOCK: i128 = 3;

/// Why no start block can be computed.
#[derive(Debug, Clone, Copy, PartialEq, Eq)]
pub enum StartBlockError {
    /// The configured start time lies after the chain's current time.
    StartInFuture,
    /// The configured start time lies more blocks back than the chain has.
    BeforeFirstBlock,
    /// The last written block is the largest block number there is.
    NoBlockAfterLast,
}

/// The block to start from when the scan is to start at `start_datetime`:
/// the head block, less one block for every three whole seconds from
/// `start_datetime` to the chain's current time.
pub open spec fn spec_start_block_from_global_properties(
    start_datetime: Option<UtcInstant>,
    props: GetDynamicGlobalPropertiesResponse,
) -> Result<u64, StartBlockError> {
    match start_datetime {
        None => Ok(props.head_block_number),
        Some(start) => if props.time.before(start) {
            Err(StartBlockError::StartInFuture)
        } else {
            let num_blocks_ago = trunc_div(whole_seconds_between(props.time, start), 3);
            if num_blocks_ago < 0 || num_blocks_ago > props.head_block_number {
                Err(StartBlockError::BeforeFirstBlock)
            } else {
                Ok((props.head_block_number - num_blocks_ago) as u64)
            }
        },
    }
}

pub fn get_start_block_from_global_properties(
    start_datetime: Option<UtcInstant>,
    dynamic_global_properties: &GetDynamicGlobalPropertiesResponse,
) -> (r: Result<u64, StartBlockError>)
    ensures
        r == spec_start_block_from_global_properties(start_datetime, *dynamic_global_properties),
{
    match start_datetime {
        None => Ok(dynamic_global_properties.head_block_number),
        Some(start) => {
            let time = dynamic_global_properties.time;
            if time.is_before(&start) {
                return Err(StartBlockError::StartInFuture);
            }
            let (whole_seconds, _) = chrono_signed_duration_since(&time, &start);
            let num_blocks_ago: i128 = whole_seconds as i128 / SECONDS_PER_BLOCK;
            if num_blocks_ago < 0 || num_blocks_ago > dynamic_global_properties.head_block_number as i128 {
                Err(StartBlockError::BeforeFirstBlock)
            } else {
                Ok((dynamic_global_properties.head_block_number as i128 - num_blocks_ago) as u64)
            }
        },
    }
}

/// The block to start from: the one after the last block written, where the
/// writer has one; else the configured start block; else the block that the
/// configured start time gives.
pub open spec fn spec_start_block(
    last_updated_block: Option<u64>,
    scanner: Scanner,
    props: GetDynamicGlobalPropertiesResponse,
) -> Result<u64, StartBlockError> {
    match last_updated_block {
        Some(last) => if last == u64::MAX {
            Err(StartBlockError::NoBlockAfterLast)
        } else {
            Ok((last + 1) as u64)
        },
        None => match scanner.start_block {
            Some(start_block) => Ok(start_block),
            None => spec_start_block_from_global_properties(scanner.start_datetime, props),
        },
    }
}

/// The sync resumes right after the last block that the writer wrote,
/// whatever start block or start time the scanner settings hold; those
/// settings count only when nothing was written yet, and a configured start
/// block wins over a configured start time.
pub proof fn lemma_resume_after_last_block(
    last: u64,
    scanner: Scanner,
    other_scanner: Scanner,
    props: GetDynamicGlobalPropertiesResponse,
    other_props: GetDynamicGlobalPropertiesResponse,
)
    ensures
        last < u64::MAX ==> spec_start_block(Some(last), scanner, props) == Ok::<
            u64,
            StartBlockError,
        >((last + 1) as u64),
        last == u64::MAX ==> spec_start_block(Some(last), scanner, props) == Err::<
            u64,
            StartBlockError,
        >(StartBlockError::NoBlockAfterLast),
        spec_start_block(Some(last), scanner, props) == spec_start_block(
            Some(last),
            other_scanner,
            other_props,
        ),
        scanner.start_block matches Some(b) ==> spec_start_block(None, scanner, props) == Ok::<
            u64,
            StartBlockError,
        >(b),
{
}

/// Where the sync starts, given the last block that the writer has written.
pub fn get_start_block(
    last_updated_block: Option<u64>,
    scanner: &Scanner,
    dynamic_global_properties: &GetDynamicGlobalPropertiesResponse,
) -> (r: Result<u64, StartBlockError>)
    ensures
        r == spec_start_block(last_updated_block, *scanner, *dynamic_global_properties),
{
    match last_updated_block {
        Some(last) => if last == u64::MAX {
            Err(StartBlockError::NoBlockAfterLast)
        } else {
            Ok(last + 1)
        },
        None => match scanner.start_block {
            Some(start_block) => Ok(start_block),
            None => get_start_block_from_global_properties(
                scanner.start_datetime,
                dynamic_global_properties,
            ),
        },
    }
}

/// What the sync does next.
#[derive(Debug, Clone, Copy, PartialEq, Eq)]
pub enum SyncStep {
    /// Fetch the blocks `start_block..=end_block` in batches.
    Catchup { start_block: u64, end_block: u64 },
    /// Follow the chain block by block from `start_block` on.
    Follow { start_block: u64 },
}

/// The head block number is too small to catch up to: fewer than two blocks.
#[derive(Debug, Clone, Copy, PartialEq, Eq)]
pub enum SyncError {
    HeadTooLow,
    NoBlockAfterHead,
}

/// While the start lies more than two blocks behind the head, catch up to the
/// head; else follow from the start.
pub open spec fn spec_catchup_or_follow(start_block: u64, head: u64) -> Result<SyncStep, SyncError> {
    if head < 2 {
        Err(SyncError::HeadTooLow)
    } else if start_block < head - 2 {
        Ok(SyncStep::Catchup { start_block, end_block: head })
    } else {
        Ok(SyncStep::Follow { start_block })
    }
}

/// The first step: a start behind the head may need catching up; any other
/// start is followed at once.
pub open spec fn spec_first_sync_step(start_block: u64, head: u64) -> Result<SyncStep, SyncError> {
    if start_block < head {
        spec_catchup_or_follow(start_block, head)
    } else {
        Ok(SyncStep::Follow { start_block })
    }
}

/// The first step of the sync from `start_block`, with the chain's head at
/// `head`.
pub fn first_sync_step(start_block: u64, head: u64) -> (r: Result<SyncStep, SyncError>)
    ensures
        r == spec_first_sync_step(start_block, head),
{
    if start_block < head {
        catchup_or_follow(start_block, head)
    } else {
        Ok(SyncStep::Follow { start_block })
    }
}

fn catchup_or_follow(start_block: u64, head: u64) -> (r: Result<SyncStep, SyncError>)
    ensures
        r == spec_catchup_or_follow(start_block, head),
{
    if head < 2 {
        Err(SyncError::HeadTooLow)
    } else if start_block < head - 2 {
        Ok(SyncStep::Catchup { start_block, end_block: head })
    } else {
        Ok(SyncStep::Follow { start_block })
    }
}

/// The step after a catch-up to `caught_up_to`, with the chain's head now at
/// `head`: the sync goes on at the block right after the catch-up, so no block
/// is skipped and none is fetched twice.
pub fn sync_step_after_catchup(caught_up_to: u64, head: u64) -> (r: Result<SyncStep, SyncError>)
    ensures
        caught_up_to == u64::MAX ==> r == Err::<SyncStep, SyncError>(SyncError::NoBlockAfterHead),
        caught_up_to < u64::MAX ==> r == spec_catchup_or_follow((caught_up_to + 1) as u64, head),
{
    if caught_up_to == u64::MAX {
        return Err(SyncError::NoBlockAfterHead);
    }
    catchup_or_follow(caught_up_to + 1, head)
}

/// The batches of a catch-up hold every block from its start to the head it
/// was given, once and in order, and the sync goes on right after that head.
/// So where every batch request is answered, no block between the start and
/// the blocks that follow is skipped or fetched twice; a batch whose request
/// fails is passed over, not asked for again (see `CatchupScanner`).
pub proof fn lemma_catchup_leaves_no_gap(start_block: u64, end_block: u64, head: u64)
    requires
        spec_catchup_or_follow(start_block, end_block) == Ok::<SyncStep, SyncError>(
            SyncStep::Catchup { start_block, end_block },
        ),
        end_block < u64::MAX,
    ensures
        batches_from(start_block as int, end_block as int, CATCHUP_BATCH_SIZE as int).flatten()
            == block_range(start_block as int, end_block + 1),
        match spec_catchup_or_follow((end_block + 1) as u64, head) {
            Ok(SyncStep::Catchup { start_block: s, .. }) => s == end_block + 1,
            Ok(SyncStep::Follow { start_block: s }) => s == end_block + 1,
            Err(e) => e == SyncError::HeadTooLow && head < 2,
        },
{
    lemma_batches_cover_range(start_block as int, end_block as int, CATCHUP_BATCH_SIZE as int);
}

} // verus!

//! What every writer shares: the record of the last block written, and how a
//! writer reacts to what its channel hands it.
use vstd::prelude::*;
use crate::hive::scanner::HiveBlockWithNum;
use crate::text::{
    decimal, lemma_decimal_parse_roundtrip, parse_u64, parse_unsigned, trim, trim_str,
    u64_to_decimal,
};

verus! {

/// The file, in the data directory, that holds the number of the last block
/// written.
pub const LAST_UPDATED_BLOCK_FILENAME: &'static str = "last_updated_block";

/// The contents of the last-block file for block `block_num`: its number in
/// decimal.
pub fn last_block_record(block_num: u64) -> (s: String)
    ensures
        s@ == decimal(block_num as nat),
{
    u64_to_decimal(block_num)
}

/// The contents of the last-block file after a batch of blocks is written:
/// the number of the batch's last block; `None` for an empty batch.
pub fn last_block_of_batch(blocks: &Vec<HiveBlockWithNum>) -> (r: Option<String>)
    ensures
        blocks.len() == 0 ==> r is None,
        blocks.len() > 0 ==> (r matches Some(s) && s@ == decimal(blocks@.last().block_num as nat)),
{
    if blocks.len() == 0 {
        None
    } else {
        Some(last_block_record(blocks[blocks.len() - 1].block_num))
    }
}

/// The block number that the last-block file holds: its contents without
/// surrounding whitespace, read as a `u64`; `None` when they do not read as one.
pub open spec fn spec_parse_last_block(contents: Seq<char>) -> Option<u64> {
    match parse_unsigned(trim(contents), u64::MAX as nat) {
        Some(v) => Some(v as u64),
        None => None,
    }
}

/// Reads the contents of the last-block file.
pub fn parse_last_block(contents: &str) -> (r: Option<u64>)
    ensures
        r == spec_parse_last_block(contents@),
{
    parse_u64(trim_str(contents))
}

/// Reading back the last-block file gives the block that was recorded in it.
pub proof fn lemma_last_block_roundtrip(block_num: u64)
    ensures
        spec_parse_last_block(decimal(block_num as nat)) == Some(block_num),
{
    lemma_decimal_parse_roundtrip(block_num as nat, u64::MAX as nat);
}

/// What a writer's channel handed it.
#[derive(Debug, Clone, Copy, PartialEq, Eq)]
pub enum ReceiveOutcome {
    /// A value arrived.
    Received,
    /// The writer fell behind and values were dropped.
    Lagged,
    /// Every sender is gone.
    Closed,
}

/// What a writer does next.
#[derive(Debug, Clone, Copy, PartialEq, Eq)]
pub enum WriterAction {
    /// Write what arrived.
    Write,
    /// Warn that values were dropped and wait for the next one.
    Skip,
    /// Stop, with success.
    Stop,
    /// Stop the program: the channel must never close.
    Abort,
}

/// The reaction of a writer that follows the chain block by block: its
/// channel must stay open.
pub fn follow_action(outcome: ReceiveOutcome) -> (a: WriterAction)
    ensures
        a == match outcome {
            ReceiveOutcome::Received => WriterAction::Write,
            ReceiveOutcome::Lagged => WriterAction::Skip,
            ReceiveOutcome::Closed => WriterAction::Abort,
        },
{
    match outcome {
        ReceiveOutcome::Received => WriterAction::Write,
        ReceiveOutcome::Lagged => WriterAction::Skip,
        ReceiveOutcome::Closed => WriterAction::Abort,
    }
}

/// The reaction of a writer that takes batches during a catch-up: the channel
/// closes when the catch-up is done.
pub fn batch_action(outcome: ReceiveOutcome) -> (a: WriterAction)
    ensures
        a == match outcome {
            ReceiveOutcome::Received => WriterAction::Write,
            ReceiveOutcome::Lagged => WriterAction::Skip,
            ReceiveOutcome::Closed => WriterAction::Stop,
        },
{
    match outcome {
        ReceiveOutcome::Received => WriterAction::Write,
        ReceiveOutcome::Lagged => WriterAction::Skip,
        ReceiveOutcome::Closed => WriterAction::Stop,
    }
}

} // verus!

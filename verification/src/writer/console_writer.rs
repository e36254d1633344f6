//! Writing podpings to the log.
use vstd::prelude::*;
use crate::hive::podping::Podping;
use crate::hive::scanner::{transactions_view, HiveBlockWithNum, HiveTransactionWithTxId};
use crate::text::{decimal, u64_to_decimal};

verus! {

/// The line for one podping of block `block_num` in transaction `tx_id`.
pub open spec fn podping_line(block_num: u64, tx_id: Seq<char>, json: Seq<char>) -> Seq<char> {
    "block: "@ + decimal(block_num as nat) + ", tx: "@ + tx_id + ", podping: "@ + json
}

/// The lines for the podpings of one transaction, in order.
pub open spec fn transaction_lines(block_num: u64, tx: (Seq<char>, Seq<Podping>)) -> Seq<Seq<char>> {
    tx.1.map_values(|p: Podping| podping_line(block_num, tx.0, p.json@))
}

/// The lines for the podpings of a list of transactions, in order.
pub open spec fn transactions_lines(block_num: u64, txs: Seq<(Seq<char>, Seq<Podping>)>) -> Seq<
    Seq<char>,
>
    decreases txs.len(),
{
    if txs.len() == 0 {
        seq![]
    } else {
        transactions_lines(block_num, txs.drop_last()) + transaction_lines(block_num, txs.last())
    }
}

/// What the console writer logs for a block: that it has no podpings, or a
/// line for every podping, in order.
pub open spec fn spec_console_lines(block: HiveBlockWithNum) -> Seq<Seq<char>> {
    if block.transactions.len() == 0 {
        seq!["No Podpings for block "@ + decimal(block.block_num as nat)]
    } else {
        transactions_lines(block.block_num, transactions_view(block.transactions@))
    }
}

fn podping_line_exec(block_num: &String, tx_id: &String, json: &String) -> (s: String)
    ensures
        s@ == "block: "@ + block_num@ + ", tx: "@ + tx_id@ + ", podping: "@ + json@,
{
    let mut s = String::from_str("block: ");
    s.append(block_num.as_str());
    s.append(", tx: ");
    s.append(tx_id.as_str());
    s.append(", podping: ");
    s.append(json.as_str());
    s
}

/// The lines that the console writer logs for `block`.
pub fn console_lines(block: &HiveBlockWithNum) -> (lines: Vec<String>)
    ensures
        lines@.map_values(|l: String| l@) == spec_console_lines(*block),
{
    let num = u64_to_decimal(block.block_num);
    let mut lines: Vec<String> = Vec::new();
    if block.transactions.len() == 0 {
        let mut s = String::from_str("No Podpings for block ");
        s.append(num.as_str());
        lines.push(s);
        assert(lines@.map_values(|l: String| l@) =~= spec_console_lines(*block));
        return lines;
    }
    let ghost txs = transactions_view(block.transactions@);
    let n = block.transactions.len();
    let mut i: usize = 0;
    while i < n
        invariant
            i <= n,
            n == block.transactions@.len(),
            txs == transactions_view(block.transactions@),
            num@ == decimal(block.block_num as nat),
            lines@.map_values(|l: String| l@) == transactions_lines(
                block.block_num,
                txs.take(i as int),
            ),
        decreases n - i,
    {
        let tx: &HiveTransactionWithTxId = &block.transactions[i];
        let ghost before = lines@.map_values(|l: String| l@);
        let m = tx.podpings.len();
        let mut j: usize = 0;
        while j < m
            invariant
                j <= m,
                m == tx.podpings@.len(),
                num@ == decimal(block.block_num as nat),
                lines@.map_values(|l: String| l@) == before + transaction_lines(
                    block.block_num,
                    (tx.tx_id@, tx.podpings@.take(j as int)),
                ),
            decreases m - j,
        {
            let line = podping_line_exec(&num, &tx.tx_id, &tx.podpings[j].json);
            let ghost prev = lines@.map_values(|l: String| l@);
            assert(line@ == podping_line(block.block_num, tx.tx_id@, tx.podpings@[j as int].json@));
            assert(transaction_lines(block.block_num, (tx.tx_id@, tx.podpings@.take(j + 1)))
                =~= transaction_lines(block.block_num, (tx.tx_id@, tx.podpings@.take(j as int))).push(
                podping_line(block.block_num, tx.tx_id@, tx.podpings@[j as int].json@),
            ));
            lines.push(line);
            assert(lines@.map_values(|l: String| l@) =~= prev.push(line@));
            assert(lines@.map_values(|l: String| l@) =~= before + transaction_lines(
                block.block_num,
                (tx.tx_id@, tx.podpings@.take(j + 1)),
            ));
            j = j + 1;
        }
        assert(tx.podpings@.take(m as int) =~= tx.podpings@);
        assert(txs.take(i + 1).drop_last() =~= txs.take(i as int));
        assert(txs[i as int] == tx@);
        i = i + 1;
    }
    assert(txs.take(n as int) =~= txs);
    lines
}

} // verus!

//! Reading podpings out of Hive blocks, cutting a block range into batches,
//! and following the head of the chain.
use vstd::prelude::*;
use crate::hive::jsonrpc::client::{next_node_index, NodeRotation};
use crate::hive::jsonrpc::responses::{GetBlockResponse, HiveOperation, HiveTransaction};
use crate::hive::podping::Podping;
use crate::pattern::{compile_regex, regex_compiles, regex_is_match, regex_matches, CompiledRegex};
use crate::text::str_eq;
use crate::time::{chrono_signed_duration_since, delta_nanos, UtcInstant, NANOS_PER_SEC};

verus! {

/// The pattern of the `custom_json` ids under which podpings are posted.
pub const PODPING_ID_PATTERN: &'static str = "^pp_(.*)_(.*)|podping$";

/// Compiles `PODPING_ID_PATTERN`.
pub fn podping_id_regex() -> (r: Result<CompiledRegex, regex::Error>)
    ensures
        r is Ok <==> regex_compiles(PODPING_ID_PATTERN@),
        r matches Ok(re) ==> re@ == PODPING_ID_PATTERN@,
{
    compile_regex(PODPING_ID_PATTERN)
}

/// The operation type that carries custom JSON.
pub const CUSTOM_JSON_OPERATION: &'static str = "custom_json_operation";

/// A block, reduced to the transactions that carry podpings.
#[derive(Debug, Clone)]
pub struct HiveBlockWithNum {
    pub block_num: u64,
    pub timestamp: UtcInstant,
    pub transactions: Vec<HiveTransactionWithTxId>,
}

/// A transaction with its id and the podpings that it carries.
#[derive(Debug, Clone)]
pub struct HiveTransactionWithTxId {
    pub tx_id: String,
    pub podpings: Vec<Podping>,
}

impl View for HiveTransactionWithTxId {
    type V = (Seq<char>, Seq<Podping>);

    open spec fn view(&self) -> (Seq<char>, Seq<Podping>) {
        (self.tx_id@, self.podpings@)
    }
}

/// The transactions of a block as (id, podpings) pairs.
pub open spec fn transactions_view(txs: Seq<HiveTransactionWithTxId>) -> Seq<(Seq<char>, Seq<Podping>)> {
    txs.map_values(|t: HiveTransactionWithTxId| t@)
}

/// An operation is a podping when it is a custom JSON operation whose id
/// matches the podping id pattern and whose payload read as a podping.
pub open spec fn is_podping_operation(op: HiveOperation, pattern: Seq<char>) -> bool {
    &&& op.type_@ == CUSTOM_JSON_OPERATION@
    &&& op.value matches Some(v)
    &&& v.id matches Some(id)
    &&& regex_is_match(pattern, id@)
    &&& v.json is Some
}

/// The podpings of a list of operations, in order.
pub open spec fn operation_podpings(ops: Seq<HiveOperation>, pattern: Seq<char>) -> Seq<Podping>
    decreases ops.len(),
{
    if ops.len() == 0 {
        seq![]
    } else {
        let prefix = operation_podpings(ops.drop_last(), pattern);
        let op = ops.last();
        if is_podping_operation(op, pattern) {
            prefix.push(op.value->0.json->0)
        } else {
            prefix
        }
    }
}

/// The transactions of a block that carry podpings, each with the id at its
/// own position in `ids`, in order.
pub open spec fn podping_transactions(
    txs: Seq<HiveTransaction>,
    ids: Seq<String>,
    pattern: Seq<char>,
) -> Seq<(Seq<char>, Seq<Podping>)>
    decreases txs.len(),
{
    if txs.len() == 0 {
        seq![]
    } else {
        let prefix = podping_transactions(txs.drop_last(), ids, pattern);
        let podpings = operation_podpings(txs.last().operations@, pattern);
        if podpings.len() > 0 {
            prefix.push((ids[txs.len() - 1]@, podpings))
        } else {
            prefix
        }
    }
}

/// Whether a transaction of a block is kept depends on that transaction
/// alone: the block keeps, with its own id, every transaction that carries a
/// podping, whatever the other transactions hold, and each kept entry is
/// such a transaction with its own id and podpings, in block order.
pub proof fn lemma_kept_exactly_the_podping_transactions(
    txs: Seq<HiveTransaction>,
    ids: Seq<String>,
    pattern: Seq<char>,
)
    ensures
        forall|i: int|
            0 <= i < txs.len() && operation_podpings(txs[i].operations@, pattern).len() > 0
                ==> podping_transactions(txs, ids, pattern).contains(
                (ids[i]@, #[trigger] operation_podpings(txs[i].operations@, pattern)),
            ),
        forall|k: int|
            0 <= k < podping_transactions(txs, ids, pattern).len() ==> exists|i: int|
                0 <= i < txs.len() && operation_podpings(txs[i].operations@, pattern).len() > 0
                    && #[trigger] podping_transactions(txs, ids, pattern)[k] == (
                    ids[i]@,
                    operation_podpings(txs[i].operations@, pattern),
                ),
    decreases txs.len(),
{
    if txs.len() > 0 {
        let rest = txs.drop_last();
        lemma_kept_exactly_the_podping_transactions(rest, ids, pattern);
        let prefix = podping_transactions(rest, ids, pattern);
        let all = podping_transactions(txs, ids, pattern);
        let last = txs.len() - 1;
        assert(txs.last() == txs[last]);
        assert forall|i: int|
            0 <= i < txs.len() && operation_podpings(txs[i].operations@, pattern).len() > 0
                implies all.contains(
                (ids[i]@, #[trigger] operation_podpings(txs[i].operations@, pattern)),
            ) by {
            let pair = (ids[i]@, operation_podpings(txs[i].operations@, pattern));
            if i < last {
                assert(rest[i] == txs[i]);
                assert(prefix.contains(pair));
                let k = choose|k: int| 0 <= k < prefix.len() && prefix[k] == pair;
                assert(all[k] == pair);
            } else {
                assert(all[all.len() - 1] == pair);
            }
        }
        assert forall|k: int| 0 <= k < all.len() implies exists|i: int|
            0 <= i < txs.len() && operation_podpings(txs[i].operations@, pattern).len() > 0
                && #[trigger] all[k] == (ids[i]@, operation_podpings(txs[i].operations@, pattern)) by {
            if k < prefix.len() {
                assert(all[k] == prefix[k]);
                let i = choose|i: int|
                    0 <= i < rest.len() && operation_podpings(rest[i].operations@, pattern).len() > 0
                        && #[trigger] prefix[k] == (ids[i]@, operation_podpings(
                        rest[i].operations@,
                        pattern,
                    ));
                assert(rest[i] == txs[i]);
            } else {
                assert(all[k] == (ids[last]@, operation_podpings(txs[last].operations@, pattern)));
            }
        }
    }
}

/// Every transaction that a block keeps carries at least one podping, and a
/// block keeps no more transactions than it has.
pub proof fn lemma_kept_transactions_carry_podpings(
    txs: Seq<HiveTransaction>,
    ids: Seq<String>,
    pattern: Seq<char>,
)
    ensures
        forall|i: int|
            0 <= i < podping_transactions(txs, ids, pattern).len() ==> (#[trigger] podping_transactions(
                txs,
                ids,
                pattern,
            )[i]).1.len() > 0,
        podping_transactions(txs, ids, pattern).len() <= txs.len(),
    decreases txs.len(),
{
    if txs.len() > 0 {
        lemma_kept_transactions_carry_podpings(txs.drop_last(), ids, pattern);
        let prefix = podping_transactions(txs.drop_last(), ids, pattern);
        let all = podping_transactions(txs, ids, pattern);
        assert forall|i: int| 0 <= i < all.len() implies (#[trigger] all[i]).1.len() > 0 by {
            if i < prefix.len() {
                assert(all[i] == prefix[i]);
            }
        }
    }
}

/// Operation `k` of `ops` is a podping operation whose payload is `p`.
pub open spec fn podping_at(ops: Seq<HiveOperation>, k: int, p: Podping, pattern: Seq<char>) -> bool {
    &&& 0 <= k < ops.len()
    &&& is_podping_operation(ops[k], pattern)
    &&& ops[k].value->0.json->0 == p
}

/// Some operation of `ops` is a podping operation whose payload is `p`.
pub open spec fn payload_of_some_operation(ops: Seq<HiveOperation>, p: Podping, pattern: Seq<char>) -> bool {
    exists|k: int| #[trigger] podping_at(ops, k, p, pattern)
}

/// Every podping that a block keeps is the payload of an operation that is a
/// podping, and a transaction keeps no more podpings than it has operations.
pub proof fn lemma_kept_podpings_come_from_podping_operations(
    ops: Seq<HiveOperation>,
    pattern: Seq<char>,
)
    ensures
        forall|i: int|
            0 <= i < operation_podpings(ops, pattern).len() ==> payload_of_some_operation(
                ops,
                #[trigger] operation_podpings(ops, pattern)[i],
                pattern,
            ),
        operation_podpings(ops, pattern).len() <= ops.len(),
    decreases ops.len(),
{
    if ops.len() > 0 {
        let rest = ops.drop_last();
        lemma_kept_podpings_come_from_podping_operations(rest, pattern);
        assert forall|i: int|
            0 <= i < operation_podpings(ops, pattern).len() implies payload_of_some_operation(
                ops,
                #[trigger] operation_podpings(ops, pattern)[i],
                pattern,
            ) by {
            if i < operation_podpings(rest, pattern).len() {
                assert(operation_podpings(ops, pattern)[i] == operation_podpings(rest, pattern)[i]);
                assert(payload_of_some_operation(rest, operation_podpings(rest, pattern)[i], pattern));
                let k = choose|k: int|
                    #[trigger] podping_at(rest, k, operation_podpings(rest, pattern)[i], pattern);
                assert(rest[k] == ops[k]);
                assert(podping_at(ops, k, operation_podpings(ops, pattern)[i], pattern));
            } else {
                let k = ops.len() - 1;
                assert(ops[k] == ops.last());
                assert(podping_at(ops, k, operation_podpings(ops, pattern)[i], pattern));
            }
        }
    }
}

fn operation_podping(op: &HiveOperation, id_regex: &CompiledRegex) -> (r: Option<Podping>)
    ensures
        if is_podping_operation(*op, id_regex@) {
            r == Some(op.value->0.json->0)
        } else {
            r is None
        },
{
    if !str_eq(op.type_.as_str(), CUSTOM_JSON_OPERATION) {
        return None;
    }
    match &op.value {
        Some(op_value) => match &op_value.id {
            Some(id) => {
                if regex_matches(id_regex, id.as_str()) {
                    match &op_value.json {
                        Some(podping) => Some(podping.duplicate()),
                        None => None,
                    }
                } else {
                    None
                }
            },
            None => None,
        },
        None => None,
    }
}

fn transaction_podpings(tx: &HiveTransaction, id_regex: &CompiledRegex) -> (r: Vec<Podping>)
    ensures
        r@ == operation_podpings(tx.operations@, id_regex@),
{
    let ghost pattern = id_regex@;
    let mut podpings: Vec<Podping> = Vec::new();
    let n = tx.operations.len();
    let mut i: usize = 0;
    while i < n
        invariant
            i <= n,
            n == tx.operations@.len(),
            pattern == id_regex@,
            podpings@ == operation_podpings(tx.operations@.take(i as int), pattern),
        decreases n - i,
    {
        let ghost ops = tx.operations@.take(i + 1);
        assert(ops.drop_last() =~= tx.operations@.take(i as int));
        assert(ops.last() == tx.operations@[i as int]);
        match operation_podping(&tx.operations[i], id_regex) {
            Some(p) => podpings.push(p),
            None => {},
        }
        i = i + 1;
    }
    assert(tx.operations@.take(n as int) =~= tx.operations@);
    podpings
}

/// Reduces a block to the transactions that carry podpings.  A podping is the
/// payload of a custom JSON operation whose id matches `id_regex`; each
/// transaction keeps the id at its own position in the block's
/// `transaction_ids`.
pub fn block_response_to_hive_block(
    block_num: u64,
    id_regex: &CompiledRegex,
    response: GetBlockResponse,
) -> (r: HiveBlockWithNum)
    requires
        response.block.transaction_ids.len() >= response.block.transactions.len(),
    ensures
        r.block_num == block_num,
        r.timestamp == response.block.timestamp,
        transactions_view(r.transactions@) == podping_transactions(
            response.block.transactions@,
            response.block.transaction_ids@,
            id_regex@,
        ),
{
    let ghost pattern = id_regex@;
    let ghost ids = response.block.transaction_ids@;
    let ghost txs = response.block.transactions@;
    let mut transactions: Vec<HiveTransactionWithTxId> = Vec::new();
    let n = response.block.transactions.len();
    let mut i: usize = 0;
    while i < n
        invariant
            i <= n,
            n == txs.len(),
            ids.len() >= txs.len(),
            txs == response.block.transactions@,
            ids == response.block.transaction_ids@,
            pattern == id_regex@,
            transactions_view(transactions@) == podping_transactions(
                txs.take(i as int),
                ids,
                pattern,
            ),
        decreases n - i,
    {
        let ghost pre = txs.take(i as int);
        let ghost next = txs.take(i + 1);
        assert(next.drop_last() =~= pre);
        assert(next.last() == txs[i as int]);
        let podpings = transaction_podpings(&response.block.transactions[i], id_regex);
        if podpings.len() > 0 {
            let tx_id = response.block.transaction_ids[i].clone();
            let ghost before = transactions@;
            transactions.push(HiveTransactionWithTxId { tx_id, podpings });
            assert(transactions_view(transactions@) =~= transactions_view(before).push(
                (ids[i as int]@, podpings@),
            ));
        }
        i = i + 1;
    }
    assert(txs.take(n as int) =~= txs);
    HiveBlockWithNum { block_num, timestamp: response.block.timestamp, transactions }
}


/// The number of blocks that a catch-up asks for in one batch request.
pub const CATCHUP_BATCH_SIZE: u64 = 100;

/// The range and batch size of a catch-up over `start_block..=end_block`.
pub open spec fn catchup_chunks_spec(start_block: u64, end_block: u64) -> BlockRangeChunks {
    BlockRangeChunks { start_block, end_block, batch_size: CATCHUP_BATCH_SIZE }
}

/// The batches of a catch-up over `start_block..=end_block`.
pub fn catchup_chunks(start_block: u64, end_block: u64) -> (c: BlockRangeChunks)
    ensures
        c == catchup_chunks_spec(start_block, end_block),
{
    BlockRangeChunks { start_block, end_block, batch_size: CATCHUP_BATCH_SIZE }
}

/// A catch-up over a range of blocks, batch by batch.
pub struct CatchupScanner {
    /// The range and the batch size.
    pub chunks: BlockRangeChunks,
    /// Where the next batch starts.
    pub next_start: u64,
}

impl CatchupScanner {
    /// The batches of a catch-up over `start_block..=end_block`, of
    /// `CATCHUP_BATCH_SIZE` blocks each.
    pub fn new(start_block: u64, end_block: u64) -> (r: CatchupScanner)
        ensures
            r.chunks == catchup_chunks_spec(start_block, end_block),
            r.next_start == start_block,
            r.remaining() == batches_from(start_block as int, end_block as int, CATCHUP_BATCH_SIZE as int),
    {
        CatchupScanner { chunks: catchup_chunks(start_block, end_block), next_start: start_block }
    }

    /// The batches that the catch-up has yet to ask for.
    pub open spec fn remaining(&self) -> Seq<Seq<u64>> {
        batches_from(self.next_start as int, self.chunks.end_block as int, self.chunks.batch_size as int)
    }

    /// Whether the next batch can be computed without overflow.
    pub open spec fn advance_in_range(&self) -> bool {
        self.next_start > self.chunks.end_block || (self.next_start + self.chunks.batch_size
            <= u64::MAX && (self.next_start + self.chunks.batch_size <= self.chunks.end_block
            || self.chunks.end_block < u64::MAX))
    }

    /// Whether `next_batch` can compute the next batch without overflow.
    pub fn can_advance(&self) -> (b: bool)
        ensures
            b == self.advance_in_range(),
    {
        self.next_start > self.chunks.end_block || (self.chunks.batch_size <= u64::MAX
            - self.next_start && (self.next_start + self.chunks.batch_size <= self.chunks.end_block
            || self.chunks.end_block < u64::MAX))
    }

    /// The next batch to ask for, as `BlockRangeChunksIterator::next` gives
    /// it: the first of those that remain.
    pub fn next_batch(&mut self) -> (r: Option<Vec<u64>>)
        requires
            old(self).advance_in_range(),
        ensures
            final(self).chunks == old(self).chunks,
            old(self).next_start > old(self).chunks.end_block ==> r is None && final(self).next_start
                == old(self).next_start,
            old(self).next_start <= old(self).chunks.end_block ==> {
                let end = batch_end(
                    old(self).next_start as int,
                    old(self).chunks.end_block as int,
                    old(self).chunks.batch_size as int,
                );
                &&& r matches Some(v) && v@ == block_range(old(self).next_start as int, end)
                &&& final(self).next_start == end
            },
            old(self).chunks.batch_size > 0 ==> match r {
                Some(v) => old(self).remaining() == seq![v@] + final(self).remaining(),
                None => old(self).remaining().len() == 0,
            },
    {
        let mut it = BlockRangeChunksIterator { chunks: &self.chunks, next_start: self.next_start };
        let r = it.next();
        let next_start = it.next_start;
        self.next_start = next_start;
        r
    }

    /// The blocks of a batch that was answered, as `blocks_from_batch` gives
    /// them.
    pub fn on_batch(&self, chunk: &Vec<u64>, responses: Vec<Option<GetBlockResponse>>, id_regex: &CompiledRegex) -> (r:
        Option<Vec<HiveBlockWithNum>>)
        ensures
            r is Some <==> batch_readable(chunk@, responses@),
            r matches Some(blocks) ==> {
                &&& blocks.len() == if chunk.len() <= responses.len() {
                    chunk.len()
                } else {
                    responses.len()
                }
                &&& forall|i: int|
                    0 <= i < blocks.len() ==> block_from_answer(
                        #[trigger] blocks@[i],
                        chunk@[i],
                        responses@[i],
                        id_regex@,
                    )
            },
    {
        blocks_from_batch(chunk, responses, id_regex)
    }

    /// After a failed batch request the catch-up moves to the next RPC node
    /// and goes on with the next batch: the failed batch is not asked again,
    /// since what remains stays as it is.  Returns the node now in use.
    pub fn on_failure(&self, nodes: &mut NodeRotation) -> (node: String)
        ensures
            final(nodes).nodes() == old(nodes).nodes(),
            final(nodes).index() == next_node_index(old(nodes).index(), old(nodes).nodes().len() as int),
            node == final(nodes).nodes()[final(nodes).index()],
    {
        nodes.rotate_node()
    }
}

/// A range of block numbers, `start_block..=end_block`, to be fetched in
/// batches of at most `batch_size` blocks.
pub struct BlockRangeChunks {
    pub start_block: u64,
    pub end_block: u64,
    pub batch_size: u64,
}

/// Walks the batches of a `BlockRangeChunks`.
pub struct BlockRangeChunksIterator<'a> {
    pub chunks: &'a BlockRangeChunks,
    pub next_start: u64,
}

/// The numbers `start..end`, in order.
pub open spec fn block_range(start: int, end: int) -> Seq<u64> {
    Seq::new((end - start) as nat, |k: int| (start + k) as u64)
}

/// Where the batch that starts at `start` ends (exclusive).
pub open spec fn batch_end(start: int, end_block: int, batch_size: int) -> int {
    if start + batch_size <= end_block {
        start + batch_size
    } else {
        end_block + 1
    }
}

/// The batches that remain from `start` on, in order.
pub open spec fn batches_from(start: int, end_block: int, batch_size: int) -> Seq<Seq<u64>>
    decreases end_block + 1 - start,
{
    if start > end_block || batch_size <= 0 {
        seq![]
    } else {
        seq![block_range(start, batch_end(start, end_block, batch_size))] + batches_from(
            batch_end(start, end_block, batch_size),
            end_block,
            batch_size,
        )
    }
}

impl BlockRangeChunks {
    /// Starts walking the batches at `start_block`.
    pub fn iter(&self) -> (it: BlockRangeChunksIterator<'_>)
        ensures
            it.chunks == self,
            it.next_start == self.start_block,
    {
        BlockRangeChunksIterator { chunks: self, next_start: self.start_block }
    }
}

impl<'a> BlockRangeChunksIterator<'a> {
    /// The batches that the iterator has yet to hand out.
    pub open spec fn remaining(&self) -> Seq<Seq<u64>> {
        batches_from(self.next_start as int, self.chunks.end_block as int, self.chunks.batch_size as int)
    }

    /// Whether the next batch can be computed without overflow.
    pub open spec fn advance_in_range(&self) -> bool {
        self.next_start > self.chunks.end_block || (self.next_start + self.chunks.batch_size
            <= u64::MAX && (self.next_start + self.chunks.batch_size <= self.chunks.end_block
            || self.chunks.end_block < u64::MAX))
    }

    /// Whether `next` can compute the next batch without overflow.
    pub fn can_advance(&self) -> (b: bool)
        ensures
            b == self.advance_in_range(),
    {
        self.next_start > self.chunks.end_block || (self.chunks.batch_size <= u64::MAX
            - self.next_start && (self.next_start + self.chunks.batch_size <= self.chunks.end_block
            || self.chunks.end_block < u64::MAX))
    }

    /// The next batch: the block numbers from `next_start` up to `batch_size`
    /// of them, not past `end_block`; `None` once `next_start` is past
    /// `end_block`.
    pub fn next(&mut self) -> (r: Option<Vec<u64>>)
        requires
            old(self).advance_in_range(),
        ensures
            final(self).chunks == old(self).chunks,
            old(self).next_start > old(self).chunks.end_block ==> r is None && final(self).next_start
                == old(self).next_start,
            old(self).next_start <= old(self).chunks.end_block ==> {
                let end = batch_end(
                    old(self).next_start as int,
                    old(self).chunks.end_block as int,
                    old(self).chunks.batch_size as int,
                );
                &&& r matches Some(v) && v@ == block_range(old(self).next_start as int, end)
                &&& final(self).next_start == end
            },
            old(self).chunks.batch_size > 0 ==> match r {
                Some(v) => old(self).remaining() == seq![v@] + final(self).remaining(),
                None => old(self).remaining().len() == 0,
            },
    {
        if self.next_start > self.chunks.end_block {
            return None;
        }
        let range_start = self.next_start;
        let range_end = if range_start + self.chunks.batch_size <= self.chunks.end_block {
            range_start + self.chunks.batch_size
        } else {
            self.chunks.end_block + 1
        };
        self.next_start = range_end;
        let mut blocks: Vec<u64> = Vec::new();
        let mut b = range_start;
        while b < range_end
            invariant
                range_start <= b <= range_end,
                blocks@ == block_range(range_start as int, b as int),
            decreases range_end - b,
        {
            blocks.push(b);
            b = b + 1;
            assert(blocks@ =~= block_range(range_start as int, b as int));
        }
        Some(blocks)
    }
}

/// The batches of a range, put back together, are the range itself: every
/// block from `start` to `end_block` once, in order.
pub proof fn lemma_batches_cover_range(start: int, end_block: int, batch_size: int)
    requires
        batch_size > 0,
        start <= end_block + 1,
    ensures
        batches_from(start, end_block, batch_size).flatten() == block_range(start, end_block + 1),
    decreases end_block + 1 - start,
{
    let bs = batches_from(start, end_block, batch_size);
    if start > end_block {
        assert(block_range(start, end_block + 1) =~= Seq::<u64>::empty());
    } else {
        let e = batch_end(start, end_block, batch_size);
        lemma_batches_cover_range(e, end_block, batch_size);
        assert(bs.first() == block_range(start, e));
        assert(bs.drop_first() =~= batches_from(e, end_block, batch_size));
        assert(block_range(start, e) + block_range(e, end_block + 1) =~= block_range(
            start,
            end_block + 1,
        ));
    }
}

/// There are `(end_block - start) / batch_size + 1` batches of a non-empty
/// range and none of an empty one, and every batch but the last is full.
pub proof fn lemma_batch_count(start: int, end_block: int, batch_size: int)
    requires
        batch_size > 0,
    ensures
        batches_from(start, end_block, batch_size).len() == if start > end_block {
            0
        } else {
            (end_block - start) / batch_size + 1
        },
        forall|i: int|
            0 <= i < batches_from(start, end_block, batch_size).len() - 1 ==> (
            #[trigger] batches_from(start, end_block, batch_size)[i]).len() == batch_size,
    decreases end_block + 1 - start,
{
    if start <= end_block {
        let e = batch_end(start, end_block, batch_size);
        lemma_batch_count(e, end_block, batch_size);
        let bs = batches_from(start, end_block, batch_size);
        let rest = batches_from(e, end_block, batch_size);
        if start + batch_size <= end_block {
            vstd::arithmetic::div_mod::lemma_div_plus_one(end_block - start - batch_size, batch_size);
            assert(batch_size + (end_block - start - batch_size) == end_block - start);
        } else {
            vstd::arithmetic::div_mod::lemma_basic_div(end_block - start, batch_size);
        }
        assert forall|i: int| 0 <= i < bs.len() - 1 implies (#[trigger] bs[i]).len() == batch_size by {
            if i > 0 {
                assert(bs[i] == rest[i - 1]);
            } else {
                assert(start + batch_size <= end_block);
            }
        }
    }
}

/// Every batch holds at least one and at most `batch_size` blocks.
pub proof fn lemma_batch_sizes(start: int, end_block: int, batch_size: int)
    requires
        batch_size > 0,
    ensures
        forall|i: int|
            0 <= i < batches_from(start, end_block, batch_size).len() ==> {
                let b = #[trigger] batches_from(start, end_block, batch_size)[i];
                0 < b.len() <= batch_size
            },
    decreases end_block + 1 - start,
{
    if start <= end_block {
        let e = batch_end(start, end_block, batch_size);
        lemma_batch_sizes(e, end_block, batch_size);
        let bs = batches_from(start, end_block, batch_size);
        assert forall|i: int| 0 <= i < bs.len() implies {
            let b = #[trigger] bs[i];
            0 < b.len() <= batch_size
        } by {
            if i > 0 {
                assert(bs[i] == batches_from(e, end_block, batch_size)[i - 1]);
            }
        }
    }
}


/// `block` is what the answer `answer` gives for block number `block_num`.
pub open spec fn block_from_answer(
    block: HiveBlockWithNum,
    block_num: u64,
    answer: Option<GetBlockResponse>,
    pattern: Seq<char>,
) -> bool {
    &&& answer matches Some(resp)
    &&& resp.block.transaction_ids.len() >= resp.block.transactions.len()
    &&& block.block_num == block_num
    &&& block.timestamp == resp.block.timestamp
    &&& transactions_view(block.transactions@) == podping_transactions(
        resp.block.transactions@,
        resp.block.transaction_ids@,
        pattern,
    )
}

/// Whether every answer of a batch, up to the shorter of the batch and its
/// answers, is a block that can be read.
pub open spec fn batch_readable(chunk: Seq<u64>, responses: Seq<Option<GetBlockResponse>>) -> bool {
    forall|i: int|
        0 <= i < chunk.len() && 0 <= i < responses.len() ==> (#[trigger] responses[i] matches Some(
            r,
        ) && r.block.transaction_ids.len() >= r.block.transactions.len())
}

/// The blocks of a batch: each block number of `chunk` with the answer at
/// the same position, for as many as both have; `None` where one of those
/// answers is an error or a block whose transactions outnumber its ids.
pub fn blocks_from_batch(
    chunk: &Vec<u64>,
    responses: Vec<Option<GetBlockResponse>>,
    id_regex: &CompiledRegex,
) -> (r: Option<Vec<HiveBlockWithNum>>)
    ensures
        r is Some <==> batch_readable(chunk@, responses@),
        r matches Some(blocks) ==> {
            &&& blocks.len() == if chunk.len() <= responses.len() {
                chunk.len()
            } else {
                responses.len()
            }
            &&& forall|i: int|
                0 <= i < blocks.len() ==> block_from_answer(
                    #[trigger] blocks@[i],
                    chunk@[i],
                    responses@[i],
                    id_regex@,
                )
        },
{
    let ghost resp_seq = responses@;
    let mut blocks: Vec<HiveBlockWithNum> = Vec::new();
    let n = chunk.len();
    let mut i: usize = 0;
    for entry in it: responses.into_iter()
        invariant
            i == blocks.len(),
            i <= n,
            n == chunk.len(),
            it.seq() == resp_seq,
            i == if it.index() <= n { it.index() } else { n as int },
            forall|k: int| 0 <= k < i ==> block_from_answer(#[trigger] blocks@[k], chunk@[k], resp_seq[k], id_regex@),
    {
        if i < n {
            assert(entry == resp_seq[i as int]);
            match entry {
                Some(response) => {
                    if response.block.transaction_ids.len() < response.block.transactions.len() {
                        return None;
                    }
                    let ghost before = blocks@;
                    let block = block_response_to_hive_block(chunk[i], id_regex, response);
                    blocks.push(block);
                    assert forall|k: int| 0 <= k < i + 1 implies block_from_answer(#[trigger] blocks@[k], chunk@[k], resp_seq[k], id_regex@) by {
                        if k < i {
                            assert(blocks@[k] == before[k]);
                        }
                    }
                },
                None => {
                    return None;
                },
            }
            assert(blocks@.len() == i + 1);
            i = i + 1;
        }
    }
    assert(i == n || i == resp_seq.len());
    assert forall|k: int|
        0 <= k < chunk@.len() && 0 <= k < resp_seq.len() implies (#[trigger] resp_seq[k] matches Some(
        r,
    ) && r.block.transaction_ids.len() >= r.block.transactions.len()) by {
        assert(block_from_answer(blocks@[k], chunk@[k], resp_seq[k], id_regex@));
    }
    Some(blocks)
}


/// Hive produces a block every three seconds.
pub const BLOCK_INTERVAL_NANOS: i128 = 3_000_000_000;

/// Following the head of the chain one block at a time.
pub struct ChainScanner {
    /// The block to fetch next.
    pub block_num: u64,
}

impl ChainScanner {
    pub fn new(start_block: u64) -> (r: ChainScanner)
        ensures
            r.block_num == start_block,
    {
        ChainScanner { block_num: start_block }
    }

    /// After a failed request the scan moves to the next RPC node and asks
    /// for the same block again: the block to fetch stays as it is.  Returns
    /// the node now in use.
    pub fn on_failure(&self, nodes: &mut NodeRotation) -> (node: String)
        ensures
            final(nodes).nodes() == old(nodes).nodes(),
            final(nodes).index() == next_node_index(old(nodes).index(), old(nodes).nodes().len() as int),
            node == final(nodes).nodes()[final(nodes).index()],
    {
        nodes.rotate_node()
    }

    /// Takes the answer for the block to fetch, reduces it as
    /// `block_response_to_hive_block` does and moves on to the next block.
    /// Only an answer moves the scan on: after an error the same block is
    /// fetched again.
    pub fn on_block(&mut self, response: GetBlockResponse, id_regex: &CompiledRegex) -> (r:
        HiveBlockWithNum)
        requires
            old(self).block_num < u64::MAX,
            response.block.transaction_ids.len() >= response.block.transactions.len(),
        ensures
            r.block_num == old(self).block_num,
            r.timestamp == response.block.timestamp,
            transactions_view(r.transactions@) == podping_transactions(
                response.block.transactions@,
                response.block.transaction_ids@,
                id_regex@,
            ),
            final(self).block_num == old(self).block_num + 1,
    {
        let block = block_response_to_hive_block(self.block_num, id_regex, response);
        self.block_num = self.block_num + 1;
        block
    }
}

/// How long the scan waits before it fetches the next block: when the block
/// just handled is less than a block interval old at `end_time`, and handling
/// it (from `start_time` to `end_time`) took less than a block interval, the
/// rest of the interval; otherwise no wait.
pub open spec fn spec_pacing_delay(
    start_time: UtcInstant,
    end_time: UtcInstant,
    block_timestamp: UtcInstant,
) -> Option<int> {
    let time_since_block = delta_nanos(end_time, block_timestamp);
    let loop_time = delta_nanos(end_time, start_time);
    if time_since_block < BLOCK_INTERVAL_NANOS && loop_time < BLOCK_INTERVAL_NANOS {
        Some(BLOCK_INTERVAL_NANOS - loop_time)
    } else {
        None
    }
}

/// The wait before the next block, in nanoseconds, as `spec_pacing_delay`
/// states it.
pub fn pacing_delay(start_time: UtcInstant, end_time: UtcInstant, block_timestamp: UtcInstant) -> (r:
    Option<u128>)
    ensures
        match spec_pacing_delay(start_time, end_time, block_timestamp) {
            Some(d) => r == Some(d as u128),
            None => r is None,
        },
{
    let (since_block_secs, since_block_nanos) = chrono_signed_duration_since(
        &end_time,
        &block_timestamp,
    );
    let time_since_block: i128 = since_block_secs as i128 * NANOS_PER_SEC
        + since_block_nanos as i128;
    if time_since_block < BLOCK_INTERVAL_NANOS {
        let (loop_secs, loop_nanos) = chrono_signed_duration_since(&end_time, &start_time);
        let loop_time: i128 = loop_secs as i128 * NANOS_PER_SEC + loop_nanos as i128;
        if loop_time < BLOCK_INTERVAL_NANOS {
            return Some((BLOCK_INTERVAL_NANOS - loop_time) as u128);
        }
    }
    None
}

/// The scan waits only after a block that is less than one block interval
/// old when its handling ends, and only when the handling took less than an
/// interval; the wait is then the rest of the interval after the handling.
/// A block at least an interval old, or a handling of an interval or more,
/// never makes the scan wait.
pub proof fn lemma_pacing_waits_only_for_fresh_blocks(
    start_time: UtcInstant,
    end_time: UtcInstant,
    block_timestamp: UtcInstant,
)
    ensures
        delta_nanos(end_time, block_timestamp) >= 3_000_000_000 ==> spec_pacing_delay(
            start_time,
            end_time,
            block_timestamp,
        ) is None,
        delta_nanos(end_time, start_time) >= 3_000_000_000 ==> spec_pacing_delay(
            start_time,
            end_time,
            block_timestamp,
        ) is None,
        delta_nanos(end_time, block_timestamp) < 3_000_000_000 && delta_nanos(end_time, start_time)
            < 3_000_000_000 ==> spec_pacing_delay(start_time, end_time, block_timestamp) == Some(
            3_000_000_000 - delta_nanos(end_time, start_time),
        ),
{
}

/// A wait never takes more than a block interval once handling took no
/// negative time, and handling plus waiting make exactly one interval.
pub proof fn lemma_pacing_fills_interval(
    start_time: UtcInstant,
    end_time: UtcInstant,
    block_timestamp: UtcInstant,
)
    requires
        !end_time.before(start_time),
        start_time@.1 < 1_000_000_000,
        end_time@.1 < 1_000_000_000,
    ensures
        spec_pacing_delay(start_time, end_time, block_timestamp) matches Some(d) ==> {
            &&& 0 < d <= BLOCK_INTERVAL_NANOS
            &&& delta_nanos(end_time, start_time) + d == BLOCK_INTERVAL_NANOS
        },
{
    start_time.lemma_view_bounds();
    end_time.lemma_view_bounds();
}

} // verus!

use vstd::prelude::*;
use crate::encoding::{TableField, decimal, hex_lower, hex_string, u64_text};
use crate::events::{BlockTime, block_time_text, rfc3339_of};
use crate::table::{DatabaseChanges, Operation, TableChange, creates_only, field, key, key_view, writes_view};

verus! {

/// The header fields recorded for a block.
#[derive(Debug)]
pub struct BlockHeader {
    pub parent_hash: Vec<u8>,
    pub gas_limit: u64,
    pub gas_used: u64,
    /// Big-endian unsigned bytes, when present.
    pub difficulty: Option<Vec<u8>>,
    pub total_difficulty: Option<Vec<u8>>,
    pub nonce: u64,
    pub base_fee_per_gas: Option<Vec<u8>>,
}

/// A balance change, with the numeric code of its reason.
#[derive(Debug)]
pub struct BalanceChange {
    pub address: Vec<u8>,
    pub reason: i32,
}

/// The fields recorded for a transaction.
#[derive(Debug)]
pub struct TxTrace {
    pub hash: Vec<u8>,
    /// The numeric code of the execution status.
    pub status: i32,
    pub value: Option<Vec<u8>>,
    pub gas_used: u64,
    pub gas_limit: u64,
    pub gas_price: Option<Vec<u8>>,
    pub max_fee_per_gas: Option<Vec<u8>>,
    pub max_priority_fee_per_gas: Option<Vec<u8>>,
    pub nonce: u64,
    pub index: u32,
    pub from: Vec<u8>,
    pub to: Vec<u8>,
    pub return_data: Vec<u8>,
    /// The numeric code of the transaction type.
    pub tx_type: i32,
    pub begin_ordinal: u64,
}

/// A block with the parts that its block and transaction rows are made of.
#[derive(Debug)]
pub struct ChainBlock {
    pub number: u64,
    pub hash: Vec<u8>,
    pub timestamp: BlockTime,
    pub header: Option<BlockHeader>,
    pub balance_changes: Vec<BalanceChange>,
    pub transaction_traces: Vec<TxTrace>,
}

/// The number that big-endian unsigned bytes denote.
pub open spec fn be_value(b: Seq<u8>) -> nat
    decreases b.len(),
{
    if b.len() == 0 {
        0
    } else {
        be_value(b.drop_last()) * 256 + b.last() as nat
    }
}

/// Relies on substreams' `BigInt::from_unsigned_bytes_be` and its `Display`: the decimal
/// digits of the number that big-endian unsigned bytes denote.
#[verifier::external_body]
fn unsigned_be_text(bytes: &Vec<u8>) -> (r: String)
    ensures
        r@ == decimal(be_value(bytes@)),
{
    substreams::scalar::BigInt::from_unsigned_bytes_be(bytes.as_slice()).to_string()
}

/// The decimal text of an optional big-endian amount, `0` when absent.
pub open spec fn amount_text(b: Option<Vec<u8>>) -> Seq<char> {
    match b {
        Some(b) => decimal(be_value(b@)),
        None => "0"@,
    }
}

/// The decimal text of an optional big-endian amount, `0` when absent.
pub fn big_int_to_string(big_int: &Option<Vec<u8>>) -> (r: String)
    ensures
        r@ == amount_text(*big_int),
{
    match big_int {
        Some(b) => unsigned_be_text(b),
        None => String::from_str("0"),
    }
}

/// The name of an execution status code, if it is one.
pub open spec fn status_name(code: i32) -> Option<Seq<char>> {
    if code == 0 {
        Some("UNKNOWN"@)
    } else if code == 1 {
        Some("SUCCEEDED"@)
    } else if code == 2 {
        Some("FAILED"@)
    } else if code == 3 {
        Some("REVERTED"@)
    } else {
        None
    }
}

/// Relies on substreams-ethereum's `TransactionTraceStatus::from_i32` and `as_str_name`: the
/// protobuf names of the four status codes.
#[verifier::external_body]
fn status_text(code: i32) -> (r: Option<String>)
    ensures
        r matches Some(s) ==> status_name(code) == Some(s@),
        r is None ==> status_name(code) is None,
{
    substreams_ethereum::pb::eth::v2::TransactionTraceStatus::from_i32(code).map(|s| s.as_str_name().to_string())
}

/// The protobuf name of a transaction type code, if it is one.
pub uninterp spec fn trx_type_name(code: i32) -> Option<Seq<char>>;

/// Relies on substreams-ethereum's `transaction_trace::Type::from_i32` and `as_str_name`: the
/// protobuf name of a transaction type code, which depends on the code alone.
#[verifier::external_body]
fn trx_type_text(code: i32) -> (r: Option<String>)
    ensures
        r matches Some(s) ==> trx_type_name(code) == Some(s@),
        r is None ==> trx_type_name(code) is None,
{
    substreams_ethereum::pb::eth::v2::transaction_trace::Type::from_i32(code).map(|t| t.as_str_name().to_string())
}

/// The code of the balance change reason that pays the block reward.
pub const REWARD_MINE_BLOCK: i32 = 2;

/// The position of the first balance change that pays the block reward.
pub open spec fn reward_change(cs: Seq<BalanceChange>) -> Option<int>
    decreases cs.len(),
{
    if cs.len() == 0 {
        None
    } else {
        match reward_change(cs.drop_last()) {
            Some(i) => Some(i),
            None => if cs.last().reason == REWARD_MINE_BLOCK {
                Some(cs.len() - 1)
            } else {
                None
            },
        }
    }
}

proof fn lemma_reward_change_prefix(cs: Seq<BalanceChange>, k: nat)
    requires
        k <= cs.len(),
        reward_change(cs.subrange(0, k as int)) is Some,
    ensures
        reward_change(cs) == reward_change(cs.subrange(0, k as int)),
    decreases cs.len() - k,
{
    if k < cs.len() {
        assert(cs.subrange(0, k + 1 as int).drop_last() =~= cs.subrange(0, k as int));
        lemma_reward_change_prefix(cs, k + 1);
    } else {
        assert(cs.subrange(0, k as int) =~= cs);
    }
}

/// The miner: the recipient of the block reward, or the zero address when no balance change
/// pays it.
pub open spec fn miner_text(cs: Seq<BalanceChange>) -> Seq<char> {
    match reward_change(cs) {
        Some(i) => hex_lower(cs[i].address@),
        None => "0000000000000000000000000000000000000000"@,
    }
}

fn miner(cs: &Vec<BalanceChange>) -> (r: String)
    ensures
        r@ == miner_text(cs@),
{
    let mut i: usize = 0;
    while i < cs.len()
        invariant
            i <= cs.len(),
            reward_change(cs@.subrange(0, i as int)) is None,
        decreases cs.len() - i,
    {
        proof {
            assert(cs@.subrange(0, i + 1).drop_last() =~= cs@.subrange(0, i as int));
        }
        if cs[i].reason == REWARD_MINE_BLOCK {
            proof {
                lemma_reward_change_prefix(cs@, (i + 1) as nat);
            }
            return hex_string(&cs[i].address);
        }
        i = i + 1;
    }
    proof {
        assert(cs@.subrange(0, cs.len() as int) =~= cs@);
    }
    String::from_str("0000000000000000000000000000000000000000")
}

/// The composite key of a block's row.
pub open spec fn block_key(b: ChainBlock) -> Seq<(Seq<char>, Seq<char>)> {
    seq![
        ("time"@, rfc3339_of(b.timestamp.seconds as int, b.timestamp.nanos as int)),
        ("number"@, decimal(b.number as nat)),
        ("hash"@, hex_lower(b.hash@)),
    ]
}

/// The columns of a block's row.
pub open spec fn block_columns(b: ChainBlock, h: BlockHeader) -> Seq<(Seq<char>, Seq<char>)> {
    seq![
        ("parent_hash"@, hex_lower(h.parent_hash@)),
        ("gas_limit"@, decimal(h.gas_limit as nat)),
        ("gas_used"@, decimal(h.gas_used as nat)),
        ("miner"@, miner_text(b.balance_changes@)),
        ("difficulty"@, amount_text(h.difficulty)),
        ("total_difficulty"@, amount_text(h.total_difficulty)),
        ("nonce"@, decimal(h.nonce as nat)),
        ("base_fee_per_gas"@, amount_text(h.base_fee_per_gas)),
    ]
}

/// A change is the row of a block.
pub open spec fn block_row(tc: TableChange, b: ChainBlock, h: BlockHeader) -> bool {
    &&& tc.table@ == "blocks"@
    &&& key_view(tc.keys@) == block_key(b)
    &&& tc.ordinal == 0
    &&& tc.operation == Operation::Create
    &&& creates_only(tc.fields@)
    &&& writes_view(tc.fields@) == block_columns(b, h)
}

/// Appends the row of a block when it has a header; a block without one gets no row.
pub fn create_block_change(database_changes: &mut DatabaseChanges, block: &ChainBlock)
    requires
        block.timestamp.wf(),
    ensures
        block.header is None ==> final(database_changes).table_changes@ == old(
            database_changes,
        ).table_changes@,
        block.header matches Some(h) ==> {
            &&& final(database_changes).table_changes@.drop_last() == old(
                database_changes,
            ).table_changes@
            &&& final(database_changes).table_changes@.len() == old(database_changes).table_changes@.len()
                + 1
            &&& block_row(final(database_changes).table_changes@.last(), *block, h)
        },
{
    let header = match &block.header {
        Some(h) => h,
        None => return,
    };
    let keys = vec![
        key("time", block_time_text(&block.timestamp)),
        key("number", u64_text(block.number)),
        key("hash", hex_string(&block.hash)),
    ];
    let fields = vec![
        field("parent_hash", hex_string(&header.parent_hash)),
        field("gas_limit", u64_text(header.gas_limit)),
        field("gas_used", u64_text(header.gas_used)),
        field("miner", miner(&block.balance_changes)),
        field("difficulty", big_int_to_string(&header.difficulty)),
        field("total_difficulty", big_int_to_string(&header.total_difficulty)),
        field("nonce", u64_text(header.nonce)),
        field("base_fee_per_gas", big_int_to_string(&header.base_fee_per_gas)),
    ];
    let tc = TableChange {
        table: String::from_str("blocks"),
        keys,
        ordinal: 0,
        operation: Operation::Create,
        fields,
    };
    proof {
        assert(key_view(tc.keys@) =~= block_key(*block));
        assert(writes_view(tc.fields@) =~= block_columns(*block, *header));
    }
    let ghost before = database_changes.table_changes@;
    database_changes.table_changes.push(tc);
    proof {
        assert(database_changes.table_changes@.drop_last() =~= before);
    }
}

/// The composite key of a transaction's row.
pub open spec fn transaction_key(tx: TxTrace, b: ChainBlock) -> Seq<(Seq<char>, Seq<char>)> {
    seq![
        ("hash"@, hex_lower(tx.hash@)),
        ("block_number"@, decimal(b.number as nat)),
        ("block_time"@, rfc3339_of(b.timestamp.seconds as int, b.timestamp.nanos as int)),
        ("block_hash"@, hex_lower(b.hash@)),
    ]
}

/// The columns of a transaction's row.
pub open spec fn transaction_columns(tx: TxTrace) -> Seq<(Seq<char>, Seq<char>)> {
    seq![
        ("status"@, status_name(tx.status)->Some_0),
        ("value"@, amount_text(tx.value)),
        ("success"@, (tx.status == 1).encoding()),
        ("gas_used"@, decimal(tx.gas_used as nat)),
        ("gas_limit"@, decimal(tx.gas_limit as nat)),
        ("gas_price"@, amount_text(tx.gas_price)),
        ("max_fee_per_gas"@, amount_text(tx.max_fee_per_gas)),
        ("max_priority_fee_per_gas"@, amount_text(tx.max_priority_fee_per_gas)),
        ("nonce"@, decimal(tx.nonce as nat)),
        ("index"@, decimal(tx.index as nat)),
        ("from"@, hex_lower(tx.from@)),
        ("to"@, hex_lower(tx.to@)),
        ("data"@, hex_lower(tx.return_data@)),
        ("type"@, trx_type_name(tx.tx_type)->Some_0),
    ]
}

/// A change is the row of a transaction of a block.
pub open spec fn transaction_row(tc: TableChange, tx: TxTrace, b: ChainBlock) -> bool {
    &&& tc.table@ == "transactions"@
    &&& key_view(tc.keys@) == transaction_key(tx, b)
    &&& tc.ordinal == tx.begin_ordinal
    &&& tc.operation == Operation::Create
    &&& creates_only(tc.fields@)
    &&& writes_view(tc.fields@) == transaction_columns(tx)
}

/// Why a transaction could not be recorded.
#[derive(Clone, Copy, Debug, PartialEq, Eq)]
pub enum TxError {
    /// The status code names no known status.
    UnknownStatus,
    /// The type code names no known transaction type.
    UnknownType,
}

/// The codes of a transaction name a known status and type.
pub open spec fn codes_known(tx: TxTrace) -> bool {
    status_name(tx.status) is Some && trx_type_name(tx.tx_type) is Some
}

/// Appends the row of a transaction; fails, appending nothing, when its status or type code
/// is unknown.
pub fn create_transaction_change(database_changes: &mut DatabaseChanges, tx: &TxTrace, block: &ChainBlock) -> (r:
    Result<(), TxError>)
    requires
        block.timestamp.wf(),
    ensures
        r is Ok <==> codes_known(*tx),
        r is Err ==> final(database_changes).table_changes@ == old(database_changes).table_changes@,
        r is Ok ==> {
            &&& final(database_changes).table_changes@.drop_last() == old(
                database_changes,
            ).table_changes@
            &&& final(database_changes).table_changes@.len() == old(database_changes).table_changes@.len()
                + 1
            &&& transaction_row(final(database_changes).table_changes@.last(), *tx, *block)
        },
{
    let status = match status_text(tx.status) {
        Some(s) => s,
        None => return Err(TxError::UnknownStatus),
    };
    let tx_type = match trx_type_text(tx.tx_type) {
        Some(t) => t,
        None => return Err(TxError::UnknownType),
    };
    let keys = vec![
        key("hash", hex_string(&tx.hash)),
        key("block_number", u64_text(block.number)),
        key("block_time", block_time_text(&block.timestamp)),
        key("block_hash", hex_string(&block.hash)),
    ];
    let success = tx.status == 1;
    let fields = vec![
        field("status", status),
        field("value", big_int_to_string(&tx.value)),
        field("success", success.get_value()),
        field("gas_used", u64_text(tx.gas_used)),
        field("gas_limit", u64_text(tx.gas_limit)),
        field("gas_price", big_int_to_string(&tx.gas_price)),
        field("max_fee_per_gas", big_int_to_string(&tx.max_fee_per_gas)),
        field("max_priority_fee_per_gas", big_int_to_string(&tx.max_priority_fee_per_gas)),
        field("nonce", u64_text(tx.nonce)),
        field("index", u64_text(tx.index as u64)),
        field("from", hex_string(&tx.from)),
        field("to", hex_string(&tx.to)),
        field("data", hex_string(&tx.return_data)),
        field("type", tx_type),
    ];
    let tc = TableChange {
        table: String::from_str("transactions"),
        keys,
        ordinal: tx.begin_ordinal,
        operation: Operation::Create,
        fields,
    };
    proof {
        assert(key_view(tc.keys@) =~= transaction_key(*tx, *block));
        assert(writes_view(tc.fields@) =~= transaction_columns(*tx));
    }
    let ghost before = database_changes.table_changes@;
    database_changes.table_changes.push(tc);
    proof {
        assert(database_changes.table_changes@.drop_last() =~= before);
    }
    Ok(())
}

/// The rows of a block: the block's own row when it has a header, then one row per
/// transaction, in order.
///
/// Fails when a transaction's status or type code is unknown.
pub fn db_out(block: &ChainBlock) -> (r: Result<DatabaseChanges, TxError>)
    requires
        block.timestamp.wf(),
    ensures
        r is Ok <==> forall|i: int|
            0 <= i < block.transaction_traces@.len() ==> codes_known(#[trigger] block.transaction_traces@[i]),
        r matches Ok(changes) ==> {
            let head: int = if block.header is Some {
                1
            } else {
                0
            };
            &&& changes.table_changes@.len() == head + block.transaction_traces@.len()
            &&& block.header matches Some(h) ==> block_row(changes.table_changes@[0], *block, h)
            &&& forall|i: int|
                0 <= i < block.transaction_traces@.len() ==> transaction_row(
                    #[trigger] changes.table_changes@[head + i],
                    block.transaction_traces@[i],
                    *block,
                )
        },
{
    let mut changes = DatabaseChanges::new();
    create_block_change(&mut changes, block);
    let ghost head: int = if block.header is Some {
        1
    } else {
        0
    };
    let ghost first = changes.table_changes@;
    let mut i: usize = 0;
    while i < block.transaction_traces.len()
        invariant
            i <= block.transaction_traces.len(),
            block.timestamp.wf(),
            first.len() == head,
            changes.table_changes@.len() == head + i,
            changes.table_changes@.subrange(0, head) == first,
            block.header matches Some(h) ==> block_row(first[0], *block, h),
            forall|j: int| 0 <= j < i ==> codes_known(#[trigger] block.transaction_traces@[j]),
            forall|j: int|
                0 <= j < i ==> transaction_row(
                    #[trigger] changes.table_changes@[head + j],
                    block.transaction_traces@[j],
                    *block,
                ),
        decreases block.transaction_traces.len() - i,
    {
        let ghost before = changes.table_changes@;
        match create_transaction_change(&mut changes, &block.transaction_traces[i], block) {
            Ok(()) => {},
            Err(e) => return Err(e),
        }
        proof {
            assert(changes.table_changes@ =~= before.push(changes.table_changes@.last()));
            assert(changes.table_changes@.subrange(0, head) =~= before.subrange(0, head));
        }
        i = i + 1;
    }
    proof {
        if block.header is Some {
            assert(changes.table_changes@[0] == changes.table_changes@.subrange(0, head)[0]);
        }
    }
    Ok(changes)
}

} // verus!

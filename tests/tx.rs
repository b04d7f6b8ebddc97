use chain_tables::events::BlockTime;
use chain_tables::table::TableChange;
use chain_tables::tx::{big_int_to_string, db_out, BalanceChange, BlockHeader, ChainBlock, TxError, TxTrace};

fn trace(status: i32) -> TxTrace {
    TxTrace {
        hash: vec![0xAB; 32],
        status,
        value: Some(vec![0x01, 0x00]),
        gas_used: 21000,
        gas_limit: 30000,
        gas_price: None,
        max_fee_per_gas: Some(vec![0x3B, 0x9A, 0xCA, 0x00]),
        max_priority_fee_per_gas: None,
        nonce: 7,
        index: 2,
        from: vec![0x01; 20],
        to: vec![0x02; 20],
        return_data: vec![],
        tx_type: 2,
        begin_ordinal: 11,
    }
}

fn block(header: bool, txs: Vec<TxTrace>, changes: Vec<BalanceChange>) -> ChainBlock {
    ChainBlock {
        number: 5,
        hash: vec![0xCD; 32],
        timestamp: BlockTime { seconds: 1_620_000_000, nanos: 0 },
        header: if header {
            Some(BlockHeader {
                parent_hash: vec![0xEF; 32],
                gas_limit: 100,
                gas_used: 50,
                difficulty: Some(vec![0x02]),
                total_difficulty: None,
                nonce: 0,
                base_fee_per_gas: Some(vec![0x07]),
            })
        } else {
            None
        },
        balance_changes: changes,
        transaction_traces: txs,
    }
}

fn column<'a>(tc: &'a TableChange, name: &str) -> &'a str {
    tc.fields.iter().find(|f| f.name == name).map(|f| f.new_value.as_str()).unwrap()
}

#[test]
fn amounts_render_in_decimal() {
    assert_eq!(big_int_to_string(&None), "0");
    assert_eq!(big_int_to_string(&Some(vec![0x01, 0x00])), "256");
    assert_eq!(big_int_to_string(&Some(vec![])), "0");
}

#[test]
fn block_and_transaction_rows() {
    let b = block(true, vec![trace(1)], vec![
        BalanceChange { address: vec![0x09; 20], reason: 1 },
        BalanceChange { address: vec![0x0A; 20], reason: 2 },
    ]);
    let changes = db_out(&b).unwrap();
    assert_eq!(changes.table_changes.len(), 2);
    let blk = &changes.table_changes[0];
    assert_eq!(blk.table, "blocks");
    assert_eq!(column(blk, "miner"), "0a".repeat(20));
    assert_eq!(column(blk, "difficulty"), "2");
    assert_eq!(column(blk, "total_difficulty"), "0");
    assert_eq!(blk.keys[0], ("time".to_string(), "2021-05-03T00:00:00Z".to_string()));
    let tx = &changes.table_changes[1];
    assert_eq!(tx.table, "transactions");
    assert_eq!(tx.ordinal, 11);
    assert_eq!(column(tx, "status"), "SUCCEEDED");
    assert_eq!(column(tx, "success"), "true");
    assert_eq!(column(tx, "value"), "256");
    assert_eq!(column(tx, "max_fee_per_gas"), "1000000000");
    assert_eq!(column(tx, "type"), "TRX_TYPE_DYNAMIC_FEE");
    assert_eq!(column(tx, "data"), "");
}

#[test]
fn block_without_reward_has_zero_miner() {
    let changes = db_out(&block(true, vec![trace(3)], vec![])).unwrap();
    assert_eq!(column(&changes.table_changes[0], "miner"), "0".repeat(40));
    assert_eq!(column(&changes.table_changes[1], "success"), "false");
    assert_eq!(column(&changes.table_changes[1], "status"), "REVERTED");
}

#[test]
fn block_without_header_has_no_block_row() {
    let changes = db_out(&block(false, vec![trace(1)], vec![])).unwrap();
    assert_eq!(changes.table_changes.len(), 1);
    assert_eq!(changes.table_changes[0].table, "transactions");
}

#[test]
fn unknown_status_is_an_error() {
    assert_eq!(db_out(&block(true, vec![trace(9)], vec![])).unwrap_err(), TxError::UnknownStatus);
    let mut t = trace(1);
    t.tx_type = 77;
    assert_eq!(db_out(&block(true, vec![t], vec![])).unwrap_err(), TxError::UnknownType);
}

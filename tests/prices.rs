use chain_tables::prices::{
    db_out_inner, pool_windows_id_fields, store_token_info_inner, DeltaOperation, Pool, PriceDelta, PriceError,
    TokenDelta, TokenInfo,
};

fn token(address: &str) -> TokenInfo {
    TokenInfo { address: address.to_string(), name: "Wrapped Ether".to_string(), symbol: "WETH".to_string(), decimals: 18 }
}

#[test]
fn windowed_key_fields() {
    let key = "TokenHourData:123:0xabc".to_string();
    assert_eq!(pool_windows_id_fields(&key), ("TokenHourData", "123", "0xabc"));
    let key = "a::b:c".to_string();
    assert_eq!(pool_windows_id_fields(&key), ("a", "", "b"));
}

#[test]
fn both_tokens_of_each_pool_are_stored() {
    let pools = vec![
        Pool { log_ordinal: 4, token0: Some(token("0x01")), token1: Some(token("0x02")) },
        Pool { log_ordinal: 9, token0: Some(token("0x03")), token1: Some(token("0x01")) },
    ];
    let writes = store_token_info_inner(&pools);
    let keys: Vec<(u64, &str)> = writes.iter().map(|w| (w.ordinal, w.key.as_str())).collect();
    assert_eq!(keys, vec![(4, "0x01"), (4, "0x02"), (9, "0x03"), (9, "0x01")]);
    assert_eq!(writes[1].token.symbol, "WETH");
}

#[test]
fn token_and_price_rows() {
    let tokens = vec![
        TokenDelta { operation: DeltaOperation::Create, ordinal: 1, new_value: token("0x01") },
        TokenDelta { operation: DeltaOperation::Update, ordinal: 2, new_value: token("0x02") },
    ];
    let prices = vec![
        PriceDelta { operation: DeltaOperation::Delete, ordinal: 5, key: "TokenHourData:10:0xabc".to_string(), old_value: "1.5".to_string() },
        PriceDelta { operation: DeltaOperation::Create, ordinal: 6, key: "TokenHourData:11:0xabc".to_string(), old_value: "0".to_string() },
        PriceDelta { operation: DeltaOperation::Delete, ordinal: 7, key: "PoolDayData:10:0xabc".to_string(), old_value: "3".to_string() },
    ];
    let changes = db_out_inner(&prices, &tokens).unwrap();
    assert_eq!(changes.table_changes.len(), 2);
    let t = &changes.table_changes[0];
    assert_eq!(t.table, "tokens");
    assert_eq!(t.ordinal, 1);
    assert_eq!(t.fields[0].name, "decimals");
    assert_eq!(t.fields[0].new_value, "18");
    let p = &changes.table_changes[1];
    assert_eq!(p.table, "values");
    assert_eq!(p.keys[1], ("hour".to_string(), "36000".to_string()));
    assert_eq!(p.keys[2], ("contract_address".to_string(), "0xabc".to_string()));
    assert_eq!(p.fields[0].new_value, "1.5");
}

#[test]
fn malformed_hour_keys_are_errors() {
    let bad = |key: &str| vec![PriceDelta { operation: DeltaOperation::Delete, ordinal: 0, key: key.to_string(), old_value: "1".to_string() }];
    assert_eq!(db_out_inner(&bad("TokenHourData:10"), &vec![]).unwrap_err(), PriceError::MalformedKey);
    assert_eq!(db_out_inner(&bad("TokenHourData:x:0xabc"), &vec![]).unwrap_err(), PriceError::BadTimeWindow);
    assert_eq!(
        db_out_inner(&bad("TokenHourData:18446744073709551615:0xabc"), &vec![]).unwrap_err(),
        PriceError::BadTimeWindow
    );
}

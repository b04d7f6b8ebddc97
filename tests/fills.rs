use chain_tables::amount::U256;
use chain_tables::fills::{
    classify_selector, db_out, decode_call_orders, map_fills, CallError, FillCall, FillError, FillsConfig,
    Selector,
};
use chain_tables::order::{ExclusiveDutchOrder, OrderError};
use chain_tables::pb;
use chain_tables::encoding::TableField;
use ethabi::Token;

const EXECUTE: [u8; 4] = [0x3F, 0x62, 0x19, 0x2E];
const EXECUTE_WITH_CALLBACK: [u8; 4] = [0x0D, 0x33, 0x58, 0x84];
const EXECUTE_BATCH: [u8; 4] = [0x0D, 0x7A, 0x16, 0xC3];
const EXECUTE_BATCH_WITH_CALLBACK: [u8; 4] = [0x13, 0xFB, 0x72, 0xC7];

fn addr(b: u8) -> Token {
    Token::Address(ethabi::Address::from([b; 20]))
}

fn uint(x: u64) -> Token {
    Token::Uint(ethabi::Uint::from(x))
}

fn fee_recipient() -> Vec<u8> {
    vec![0x37; 20]
}

/// An encoded order with decay window [100, 200], an input of 1000 -> 2000 and the given
/// output legs (recipient byte, start, end).
fn order_bytes(outputs: &[(u8, u64, u64)], start: u64, end: u64) -> Vec<u8> {
    order_bytes_with_deadline(outputs, start, end, 1_700_000_000)
}

fn order_bytes_with_deadline(outputs: &[(u8, u64, u64)], start: u64, end: u64, deadline: u64) -> Vec<u8> {
    let info = Token::Tuple(vec![addr(0x11), addr(0x22), uint(5), uint(deadline), addr(0x33), Token::Bytes(vec![1, 2])]);
    let input = Token::Tuple(vec![addr(0x44), uint(1000), uint(2000)]);
    let outs = outputs
        .iter()
        .map(|(r, s, e)| Token::Tuple(vec![addr(0x55), uint(*s), uint(*e), Token::Address(ethabi::Address::from([*r; 20]))]))
        .collect();
    ethabi::encode(&[Token::Tuple(vec![
        info,
        uint(start),
        uint(end),
        addr(0x66),
        uint(0),
        input,
        Token::Array(outs),
    ])])
}

fn signed(order: Vec<u8>) -> Token {
    Token::Tuple(vec![Token::Bytes(order), Token::Bytes(vec![9; 65])])
}

fn call(selector: [u8; 4], args: &[Token]) -> Vec<u8> {
    let mut input = selector.to_vec();
    input.extend(ethabi::encode(args));
    input
}

fn config() -> FillsConfig {
    FillsConfig { tracked_contract: vec![0x60; 20], fill_topic: vec![0x78; 32], fee_recipient: fee_recipient() }
}

fn fill_call(input: Vec<u8>, log_index: u32) -> FillCall {
    FillCall {
        log_address: vec![0x60; 20],
        log_topics: vec![vec![0x78; 32]],
        log_index,
        from: vec![0xF1; 20],
        to: vec![0x60; 20],
        caller: vec![0xC1; 20],
        tx_hash: vec![0xBE; 32],
        input,
    }
}

#[test]
fn selectors_are_classified() {
    assert_eq!(classify_selector(&EXECUTE.to_vec()), Some(Selector::Execute));
    assert_eq!(classify_selector(&EXECUTE_WITH_CALLBACK.to_vec()), Some(Selector::ExecuteWithCallback));
    assert_eq!(classify_selector(&EXECUTE_BATCH.to_vec()), Some(Selector::ExecuteBatch));
    assert_eq!(
        classify_selector(&EXECUTE_BATCH_WITH_CALLBACK.to_vec()),
        Some(Selector::ExecuteBatchWithCallback)
    );
    assert_eq!(classify_selector(&vec![1, 2, 3, 4, 5]), None);
    assert_eq!(classify_selector(&vec![0x3F, 0x62]), None);
}

#[test]
fn single_execute_decodes_one_order() {
    let order = order_bytes(&[(0x77, 500, 400)], 100, 200);
    let input = call(EXECUTE, &[signed(order.clone())]);
    let orders = decode_call_orders(&input).unwrap();
    assert_eq!(orders, vec![order.clone()]);
    let input = call(EXECUTE_WITH_CALLBACK, &[signed(order.clone()), Token::Bytes(vec![7])]);
    assert_eq!(decode_call_orders(&input).unwrap(), vec![order]);
}

#[test]
fn batch_execute_decodes_every_order() {
    let a = order_bytes(&[(0x77, 500, 400)], 100, 200);
    let b = order_bytes(&[(0x78, 50, 40)], 100, 300);
    let input = call(EXECUTE_BATCH, &[Token::Array(vec![signed(a.clone()), signed(b.clone())])]);
    assert_eq!(decode_call_orders(&input).unwrap(), vec![a.clone(), b.clone()]);
    let input = call(
        EXECUTE_BATCH_WITH_CALLBACK,
        &[Token::Array(vec![signed(a.clone()), signed(b.clone())]), Token::Bytes(vec![])],
    );
    assert_eq!(decode_call_orders(&input).unwrap(), vec![a, b]);
}

#[test]
fn unknown_selector_and_malformed_arguments() {
    assert_eq!(decode_call_orders(&vec![1, 2, 3, 4]), Err(CallError::UnknownSelector));
    assert_eq!(decode_call_orders(&EXECUTE.to_vec()), Err(CallError::Malformed));
}

#[test]
fn order_decodes_its_terms() {
    let order = ExclusiveDutchOrder::try_from(&order_bytes(&[(0x77, 500, 400), (0x37, 5, 4)], 100, 200)).unwrap();
    assert_eq!(order.order_info.reactor, vec![0x11; 20]);
    assert_eq!(order.order_info.nonce.get_value(), "5");
    assert_eq!(order.decay_start_timer.get_value(), "100");
    assert_eq!(order.decay_end_timer.get_value(), "200");
    assert_eq!(order.input.start_amount.get_value(), "1000");
    assert_eq!(order.outputs.len(), 2);
    assert_eq!(order.outputs[1].recipient, fee_recipient());
    assert!(matches!(ExclusiveDutchOrder::try_from(&vec![0u8; 3]), Err(OrderError::Malformed)));
}

#[test]
fn batch_orders_share_one_transaction_context() {
    let a = order_bytes(&[(0x77, 500, 400)], 100, 200);
    let b = order_bytes(&[(0x78, 50, 40)], 100, 300);
    let input = call(EXECUTE_BATCH, &[Token::Array(vec![signed(a), signed(b)])]);
    let res = map_fills(&config(), 150, 42, &vec![fill_call(input, 3)]).unwrap();
    assert_eq!(res.orders.len(), 2);
    for o in &res.orders {
        let tx = o.tx_info.as_ref().unwrap();
        assert_eq!(tx.block_time, 150);
        assert_eq!(tx.block_number, 42);
        assert_eq!(tx.log_index, 3);
        assert_eq!(tx.tx_hash, vec![0xBE; 32]);
        assert_eq!(tx.caller, vec![0xC1; 20]);
    }
    assert_eq!(res.orders[0].input.as_ref().unwrap().decayed_amount, "1500");
    assert_eq!(res.orders[0].outputs[0].decayed_amount, "450");
    assert_eq!(res.orders[1].outputs[0].decayed_amount, "48");
    assert_eq!(res.orders[0].info.as_ref().unwrap().deadline, "1700000000");
}

#[test]
fn map_fills_skips_other_logs_and_unknown_calls() {
    let order = order_bytes(&[(0x77, 500, 400)], 100, 200);
    let mut other = fill_call(call(EXECUTE, &[signed(order.clone())]), 1);
    other.log_address = vec![0x01; 20];
    let unknown = fill_call(vec![0xAA, 0xBB, 0xCC, 0xDD], 2);
    let res = map_fills(&config(), 150, 1, &vec![other, unknown]).unwrap();
    assert_eq!(res.orders.len(), 0);
}

#[test]
fn map_fills_reports_malformed_calls_and_windows() {
    let bad_call = fill_call(EXECUTE.to_vec(), 1);
    assert_eq!(map_fills(&config(), 150, 1, &vec![bad_call]).unwrap_err(), FillError::MalformedCall);
    let bad_order = fill_call(call(EXECUTE, &[signed(vec![1, 2, 3])]), 1);
    assert_eq!(map_fills(&config(), 150, 1, &vec![bad_order]).unwrap_err(), FillError::MalformedOrder);
    let backwards = fill_call(call(EXECUTE, &[signed(order_bytes(&[(0x77, 5, 4)], 200, 100))]), 1);
    assert_eq!(map_fills(&config(), 150, 1, &vec![backwards]).unwrap_err(), FillError::InvalidDecayWindow);
}

fn orders_for(outputs: &[(u8, u64, u64)]) -> pb::Orders {
    let input = call(EXECUTE, &[signed(order_bytes(outputs, 100, 200))]);
    map_fills(&config(), 150, 7, &vec![fill_call(input, 0)]).unwrap()
}

fn column<'a>(tc: &'a chain_tables::table::TableChange, name: &str) -> &'a str {
    tc.fields.iter().find(|f| f.name == name).map(|f| f.new_value.as_str()).unwrap()
}

#[test]
fn fee_leg_is_reported_apart() {
    let rows = db_out(&config(), &orders_for(&[(0x37, 10, 20), (0x77, 500, 400)]));
    assert_eq!(rows.len(), 1);
    let tc = &rows[0];
    assert_eq!(tc.table, "exclusive_dutch_auction_fills");
    assert_eq!(column(tc, "output_recipient"), "77".repeat(20));
    assert_eq!(column(tc, "output_decayed_amount"), "450");
    assert_eq!(column(tc, "fee_decayed_amount"), "15");
    assert_eq!(column(tc, "input_decayed_amount"), "1500");
    assert_eq!(tc.keys[0], ("tx_block_time".to_string(), "150".to_string()));
    assert_eq!(tc.keys[2], ("tx_hash".to_string(), "be".repeat(32)));
}

#[test]
fn order_without_fee_leg_reports_zero_fee() {
    let rows = db_out(&config(), &orders_for(&[(0x77, 500, 400)]));
    assert_eq!(rows.len(), 1);
    assert_eq!(column(&rows[0], "fee_decayed_amount"), "0");
}

#[test]
fn order_paying_only_the_fee_recipient_is_skipped() {
    let rows = db_out(&config(), &orders_for(&[(0x37, 10, 20)]));
    assert_eq!(rows.len(), 0);
}

#[test]
fn large_deadline_is_clamped() {
    let order = order_bytes_with_deadline(&[(0x77, 500, 400)], 100, 200, 1u64 << 40);
    let input = call(EXECUTE, &[signed(order)]);
    let res = map_fills(&config(), 150, 7, &vec![fill_call(input, 0)]).unwrap();
    assert_eq!(res.orders[0].info.as_ref().unwrap().deadline, "4294967295");
    assert_eq!(U256::from_u64(u64::MAX).get_value(), "18446744073709551615");
}

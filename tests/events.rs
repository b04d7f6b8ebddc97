use chain_tables::abi::AbiType;
use chain_tables::events::{get_events, transform, Block, BlockTime, LogInTx, RegisteredEvent, ToTableChange};
use chain_tables::registry::{ContractDef, EventDef, EventParam, Log, Registry};
use chain_tables::table::TableChange;
use ethabi::Token;

fn pool_created_topic() -> Vec<u8> {
    vec![0x78; 32]
}

fn param(name: &str, kind: AbiType, indexed: bool) -> EventParam {
    EventParam { name: name.to_string(), kind, indexed }
}

fn pool_created(prefix: Option<&str>, address: Option<Vec<u8>>) -> ContractDef {
    ContractDef {
        name: "factory".to_string(),
        table_prefix: prefix.map(|p| p.to_string()),
        address,
        events: vec![EventDef {
            name: "PoolCreated".to_string(),
            topic: pool_created_topic(),
            params: vec![
                param("token0", AbiType::Address, true),
                param("fee", AbiType::Uint(24), true),
                param("tick_spacing", AbiType::Int(24), false),
                param("pool", AbiType::Address, false),
            ],
        }],
    }
}

fn transfer_contract() -> ContractDef {
    ContractDef {
        name: "erc20".to_string(),
        table_prefix: None,
        address: None,
        events: vec![EventDef {
            name: "Transfer".to_string(),
            topic: vec![0xdd; 32],
            params: vec![
                param("from", AbiType::Address, true),
                param("to", AbiType::Address, true),
                param("value", AbiType::Uint(256), false),
            ],
        }],
    }
}

fn word(t: Token) -> Vec<u8> {
    ethabi::encode(&[t])
}

fn pool_created_log() -> Log {
    Log {
        address: vec![0xAA; 20],
        topics: vec![
            pool_created_topic(),
            word(Token::Address(ethabi::Address::from([0x11; 20]))),
            word(Token::Uint(ethabi::Uint::from(3000u64))),
        ],
        data: ethabi::encode(&[
            Token::Int(ethabi::Int::MAX - ethabi::Int::from(59u64) + ethabi::Int::from(0u64)),
            Token::Address(ethabi::Address::from([0x22; 20])),
        ]),
        index: 3,
    }
}

fn block_with(logs: Vec<Log>) -> Block {
    Block {
        number: 100,
        timestamp: BlockTime { seconds: 1_620_000_000, nanos: 0 },
        logs: logs
            .into_iter()
            .map(|log| LogInTx { log, tx_hash: [0xBE, 0xEF].repeat(16), tx_from: vec![0xF1; 20], tx_to: vec![0xF2; 20] })
            .collect(),
    }
}

fn column<'a>(tc: &'a TableChange, name: &str) -> &'a str {
    tc.fields.iter().find(|f| f.name == name).map(|f| f.new_value.as_str()).unwrap()
}

#[test]
fn pool_created_log_becomes_one_change() {
    let reg = Registry { contracts: vec![transfer_contract(), pool_created(None, Some(vec![0xAA; 20]))] };
    let changes = transform(&reg, &block_with(vec![pool_created_log()]));
    assert_eq!(changes.table_changes.len(), 1);
    let tc = &changes.table_changes[0];
    assert_eq!(tc.table, "poolcreated");
    assert_eq!(tc.ordinal, 0);
    let keys: Vec<(&str, &str)> = tc.keys.iter().map(|(k, v)| (k.as_str(), v.as_str())).collect();
    let hash = "beef".repeat(16);
    assert_eq!(
        keys,
        vec![
            ("evt_tx_hash", hash.as_str()),
            ("evt_index", "3"),
            ("evt_block_number", "100"),
            ("evt_block_time", "2021-05-03T00:00:00Z"),
        ]
    );
    let names: Vec<&str> = tc.fields.iter().map(|f| f.name.as_str()).collect();
    assert_eq!(
        names,
        vec![
            "evt_index", "evt_tx_hash", "tx_from", "tx_to", "evt_block_time", "evt_block_number",
            "token0", "fee", "tick_spacing", "pool",
        ]
    );
    assert_eq!(column(tc, "token0"), "11".repeat(20));
    assert_eq!(column(tc, "fee"), "3000");
    assert_eq!(column(tc, "tick_spacing"), "-60");
    assert_eq!(column(tc, "pool"), "22".repeat(20));
    assert_eq!(column(tc, "tx_from"), "f1".repeat(20));
    assert!(tc.fields.iter().all(|f| f.old_value.is_empty()));
}

#[test]
fn table_prefix_is_prepended() {
    let reg = Registry { contracts: vec![pool_created(Some("uni_"), None)] };
    let changes = transform(&reg, &block_with(vec![pool_created_log()]));
    assert_eq!(changes.table_changes[0].table, "uni_poolcreated");
}

#[test]
fn unmatched_logs_are_dropped() {
    let reg = Registry { contracts: vec![pool_created(None, Some(vec![0xBB; 20]))] };
    let mut other = pool_created_log();
    other.topics[0] = vec![0x01; 32];
    let block = block_with(vec![pool_created_log(), other]);
    assert_eq!(transform(&reg, &block).table_changes.len(), 0);
    assert_eq!(get_events(&reg, &block).len(), 0);
}

#[test]
fn dispatch_does_not_depend_on_registration_order() {
    let log = pool_created_log();
    let a = Registry { contracts: vec![transfer_contract(), pool_created(None, None)] };
    let b = Registry { contracts: vec![pool_created(None, None), transfer_contract()] };
    let da = a.match_and_decode(&log).unwrap();
    let db = b.match_and_decode(&log).unwrap();
    assert_eq!((da.contract, da.event), (1, 0));
    assert_eq!((db.contract, db.event), (0, 0));
    assert_eq!(a.get_table_name(&da), b.get_table_name(&db));
    assert_eq!(a.get_contract_name(&da), "factory");
    let va: Vec<String> = da.fields.iter().map(chain_tables::encoding::TableField::get_value).collect();
    let vb: Vec<String> = db.fields.iter().map(chain_tables::encoding::TableField::get_value).collect();
    assert_eq!(va, vb);
}

#[test]
fn malformed_data_is_no_match() {
    let reg = Registry { contracts: vec![pool_created(None, None)] };
    let mut log = pool_created_log();
    log.data = vec![1, 2, 3];
    assert!(reg.match_and_decode(&log).is_none());
}

#[test]
fn block_time_is_rfc3339() {
    let reg = Registry { contracts: vec![pool_created(None, None)] };
    let mut block = block_with(vec![pool_created_log()]);
    block.timestamp = BlockTime { seconds: 0, nanos: 0 };
    assert_eq!(transform(&reg, &block).table_changes[0].keys[3].1, "1970-01-01T00:00:00Z");
    block.timestamp = BlockTime { seconds: 1_620_000_000, nanos: 500_000_000 };
    assert_eq!(transform(&reg, &block).table_changes[0].keys[3].1, "2021-05-03T00:00:00.500Z");
}

#[test]
fn registered_event_maps_its_own_fields() {
    let reg = Registry { contracts: vec![pool_created(Some("v3_"), None)] };
    let event = reg.match_and_decode(&pool_created_log()).unwrap();
    let record = RegisteredEvent { registry: &reg, event: &event };
    assert_eq!(record.get_table_name(), "v3_poolcreated");
    assert_eq!(record.get_contract_name(), "factory");
    let mut tc = chain_tables::table::TableChange::new_composite("t".to_string(), vec![], 0, chain_tables::table::Operation::Create);
    tc.change("first", "x".to_string());
    record.add_table_changes(&mut tc);
    let names: Vec<&str> = tc.fields.iter().map(|f| f.name.as_str()).collect();
    assert_eq!(names, vec!["first", "token0", "fee", "tick_spacing", "pool"]);
}

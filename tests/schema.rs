use chain_tables::abi::AbiType;
use chain_tables::codegen::{render_manifest, CodeGeneration, CodegenError};
use chain_tables::events::{push_create, BlockTime, EventWithInfo, EvtTxInfo};
use chain_tables::registry::{ContractDef, DecodedEvent, EventDef, EventParam, Registry};
use chain_tables::schema::{create_table_sql, database_sql, schema_sql, sql_type_text, table_columns};
use chain_tables::table::DatabaseChanges;
use chain_tables::abi::FieldValue;
use chain_tables::amount::U256;
use std::collections::BTreeSet;

fn swap_contract() -> ContractDef {
    ContractDef {
        name: "pool".to_string(),
        table_prefix: Some("v3_".to_string()),
        address: None,
        events: vec![EventDef {
            name: "Swap".to_string(),
            topic: vec![0xc4; 32],
            params: vec![
                EventParam { name: "sender".to_string(), kind: AbiType::Address, indexed: true },
                EventParam { name: "amount0".to_string(), kind: AbiType::Int(256), indexed: false },
                EventParam { name: "ok".to_string(), kind: AbiType::Bool, indexed: false },
            ],
        }],
    }
}

#[test]
fn sql_types_follow_the_mapping() {
    assert_eq!(sql_type_text(&AbiType::String), "String");
    assert_eq!(sql_type_text(&AbiType::Bytes), "String");
    assert_eq!(sql_type_text(&AbiType::Address), "FixedString(40)");
    assert_eq!(sql_type_text(&AbiType::FixedBytes(32)), "FixedString(64)");
    assert_eq!(sql_type_text(&AbiType::Int(24)), "Int24");
    assert_eq!(sql_type_text(&AbiType::Uint(256)), "UInt256");
    assert_eq!(sql_type_text(&AbiType::Bool), "Boolean");
    assert_eq!(sql_type_text(&AbiType::Array(Box::new(AbiType::Address))), "Array(FixedString(40))");
    assert_eq!(sql_type_text(&AbiType::FixedArray(Box::new(AbiType::Uint(8)), 3)), "Array(UInt8)");
    assert_eq!(
        sql_type_text(&AbiType::Tuple(vec![AbiType::Bool, AbiType::Int(8), AbiType::Array(Box::new(AbiType::Bytes))])),
        "Tuple(Boolean,Int8,Array(String))"
    );
}

#[test]
fn table_declaration_text() {
    let c = swap_contract();
    let sql = create_table_sql("chain", &c, &c.events[0]);
    assert_eq!(
        sql,
        "\nCREATE TABLE IF NOT EXISTS chain.v3_swap (\n\t`sender` FixedString(40),\n\t`amount0` Int256,\n\t`ok` Boolean,\n\t`evt_block_number` UInt64,\n\t`evt_tx_hash` FixedString(64),\n\t`evt_index` UInt32,\n\t`evt_block_time` DateTime,\n\t`tx_to` FixedString(40),\n\t`tx_from` FixedString(40),\n)\nENGINE = MergeTree\nPRIMARY KEY (evt_block_time,\n\tevt_block_number,\n\tevt_tx_hash,\n\tevt_index)\nORDER BY (evt_block_time,\n\tevt_block_number,\n\tevt_tx_hash,\n\tevt_index);\n"
    );
}

#[test]
fn database_declaration_text() {
    assert_eq!(
        database_sql("chain"),
        "CREATE DATABASE IF NOT EXISTS chain;\n\nCREATE TABLE IF NOT EXISTS chain.cursors (\n\tid String,\n\tcursor String,\n\tblock_num Int64,\n\tblock_id String\n)\nENGINE = ReplacingMergeTree\nORDER BY id;\n"
    );
}

#[test]
fn mapped_columns_match_schema_columns() {
    let reg = Registry { contracts: vec![swap_contract()] };
    let event = EventWithInfo {
        event: DecodedEvent {
            contract: 0,
            event: 0,
            fields: vec![FieldValue::Address(vec![1; 20]), FieldValue::Int(U256::from_u64(4)), FieldValue::Bool(true)],
        },
        info: EvtTxInfo {
            contract_address: vec![2; 20],
            evt_tx_hash: vec![3; 32],
            tx_from: vec![4; 20],
            tx_to: vec![5; 20],
            evt_block_number: 9,
            evt_block_time: BlockTime { seconds: 10, nanos: 0 },
            evt_index: 1,
        },
    };
    let mut changes = DatabaseChanges::new();
    push_create(&mut changes, &reg, "v3_swap".to_string(), vec![], 0, &event);
    let written: BTreeSet<String> = changes.table_changes[0].fields.iter().map(|f| f.name.clone()).collect();
    let declared: BTreeSet<String> = table_columns(&reg.contracts[0].events[0]).into_iter().map(|c| c.0).collect();
    assert_eq!(written, declared);
    assert_eq!(written.len(), 9);
}

#[test]
fn schema_generation_is_deterministic() {
    let reg = Registry { contracts: vec![swap_contract()] };
    let a = schema_sql("chain", &reg);
    let b = schema_sql("chain", &reg);
    assert_eq!(a, b);
    assert!(a.starts_with("CREATE DATABASE IF NOT EXISTS chain;\n"));
    assert!(a.contains("CREATE TABLE IF NOT EXISTS chain.v3_swap ("));
}

#[test]
fn dispatcher_generation() {
    let gen = CodeGeneration::new(vec!["uniswap_v3".to_string(), "erc20".to_string()]);
    let code = gen.generate_code().unwrap();
    let again = gen.generate_code().unwrap();
    assert_eq!(code.code(), again.code());
    assert_eq!(
        code.code().as_str(),
        "use to_table_derive::ToTableChange;\n\npub mod uniswap_v3;\npub mod erc20;\n\n#[derive(ToTableChange)]\npub enum Events {\n    UniswapV3(uniswap_v3::events::Events),\n    Erc20(erc20::events::Events),\n}\n\nimpl Events {\n    pub fn match_and_decode(log: &substreams_ethereum::pb::eth::v2::Log) -> Option<Events> {\n        if let Some(event) = uniswap_v3::events::Events::match_and_decode(log) {\n            return Some(Events::UniswapV3(event));\n        }\n        if let Some(event) = erc20::events::Events::match_and_decode(log) {\n            return Some(Events::Erc20(event));\n        }\n        return None;\n    }\n}\n"
    );
}

#[test]
fn dispatcher_rejects_names_that_are_not_identifiers() {
    assert!(matches!(CodeGeneration::new(vec!["my-pool".to_string()]).generate_code(), Err(CodegenError::InvalidName)));
    assert!(matches!(CodeGeneration::new(vec!["1pool".to_string()]).generate_code(), Err(CodegenError::InvalidName)));
    assert!(CodeGeneration::new(vec![]).generate_code().is_ok());
}

#[test]
fn manifest_placeholders_are_filled() {
    let template = "name: {{NAME}}\nversion: {{VERSION}}\nnetwork: {{NETWORK}}\nalias: {{NAME}}\n";
    assert_eq!(
        render_manifest(template, "events", "v0.1.0", "mainnet"),
        "name: events\nversion: v0.1.0\nnetwork: mainnet\nalias: events\n"
    );
}

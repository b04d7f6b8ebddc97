use vstd::prelude::*;
use crate::abi::{AbiType, TypeModel, types_model};
use crate::amount::{U256, limb_base, u256_add, u256_bound};
use crate::encoding::{decimal, enclose_parts, enclosed, u256_decimal, u64_text};
use crate::events::{EventWithInfo, change_records, def_of, event_columns, event_table_name, table_name_of};
use crate::table::{TableChange, column_names};
use crate::registry::{ContractDef, EventDef, EventParam, Registry};

verus! {

/// The column type that stores values of an ABI type.
pub open spec fn sql_type(t: TypeModel) -> Seq<char>
    decreases t,
{
    match t {
        TypeModel::String | TypeModel::Bytes => "String"@,
        TypeModel::Address => "FixedString(40)"@,
        TypeModel::FixedBytes(n) => "FixedString"@ + enclosed('(', seq![decimal(2 * n)], ')'),
        TypeModel::Int(n) => "Int"@ + decimal(n),
        TypeModel::Uint(n) => "UInt"@ + decimal(n),
        TypeModel::Bool => "Boolean"@,
        TypeModel::Array(inner) => "Array"@ + enclosed('(', seq![sql_type(*inner)], ')'),
        TypeModel::FixedArray(inner, _) => "Array"@ + enclosed('(', seq![sql_type(*inner)], ')'),
        TypeModel::Tuple(ts) => "Tuple"@ + enclosed('(', sql_types(ts), ')'),
    }
}

/// The column types of a sequence of ABI types, in order.
pub open spec fn sql_types(ts: Seq<TypeModel>) -> Seq<Seq<char>>
    decreases ts,
{
    if ts.len() == 0 {
        Seq::empty()
    } else {
        sql_types(ts.drop_last()).push(sql_type(ts.last()))
    }
}

proof fn lemma_sql_types(ts: Seq<TypeModel>)
    ensures
        sql_types(ts).len() == ts.len(),
        forall|j: int| 0 <= j < ts.len() ==> sql_types(ts)[j] == sql_type(ts[j]),
    decreases ts.len(),
{
    if ts.len() > 0 {
        lemma_sql_types(ts.drop_last());
    }
}

/// One part between parentheses.
fn parenthesized(inner: String) -> (r: String)
    ensures
        r@ == enclosed('(', seq![inner@], ')'),
{
    let parts = vec![inner];
    let r = enclose_parts(&parts, false);
    proof {
        assert(parts@.map_values(|p: String| p@) =~= seq![parts@[0]@]);
    }
    r
}

/// `head` followed by `tail`.
fn concat(head: &str, tail: String) -> (r: String)
    ensures
        r@ == head@ + tail@,
{
    let mut r = String::from_str(head);
    r.append(tail.as_str());
    r
}

/// The column type that stores values of an ABI type.
pub fn sql_type_text(t: &AbiType) -> (r: String)
    ensures
        r@ == sql_type(t.model()),
    decreases t,
{
    match t {
        AbiType::String | AbiType::Bytes => String::from_str("String"),
        AbiType::Address => String::from_str("FixedString(40)"),
        AbiType::FixedBytes(n) => {
            let size = U256::from_u64(*n as u64);
            proof {
                assert(2 * (*n as nat) < u256_bound()) by (nonlinear_arith)
                    requires
                        (*n as nat) < limb_base(),
                        u256_bound() == limb_base() * limb_base() * limb_base() * limb_base(),
                        limb_base() > 2,
                ;
            }
            let doubled = u256_add(size, size);
            proof {
                assert(doubled.value() == 2 * (*n as nat));
            }
            concat("FixedString", parenthesized(u256_decimal(doubled)))
        },
        AbiType::Int(n) => concat("Int", u64_text(*n as u64)),
        AbiType::Uint(n) => concat("UInt", u64_text(*n as u64)),
        AbiType::Bool => String::from_str("Boolean"),
        AbiType::Array(inner) => concat("Array", parenthesized(sql_type_text(&**inner))),
        AbiType::FixedArray(inner, _) => concat("Array", parenthesized(sql_type_text(&**inner))),
        AbiType::Tuple(ts) => concat("Tuple", sql_tuple_text(ts)),
    }
}

/// The column types of the members of a tuple, between parentheses.
pub fn sql_tuple_text(ts: &Vec<AbiType>) -> (r: String)
    ensures
        r@ == enclosed('(', sql_types(types_model(ts@)), ')'),
    decreases ts,
{
    let mut parts: Vec<String> = Vec::new();
    let mut i: usize = 0;
    proof {
        crate::abi::lemma_types_model(ts@);
        lemma_sql_types(types_model(ts@));
    }
    while i < ts.len()
        invariant
            i <= ts.len(),
            parts@.len() == i,
            types_model(ts@).len() == ts@.len(),
            forall|j: int| 0 <= j < ts.len() ==> types_model(ts@)[j] == ts@[j].model(),
            forall|j: int| 0 <= j < i ==> #[trigger] parts@[j]@ == sql_type(ts@[j].model()),
        decreases ts.len() - i,
    {
        let text = sql_type_text(&ts[i]);
        parts.push(text);
        i = i + 1;
    }
    proof {
        assert(parts@.map_values(|p: String| p@) =~= sql_types(types_model(ts@)));
    }
    enclose_parts(&parts, false)
}

/// The standard columns that every event table carries, with their types, in order.
pub open spec fn trailer_schema() -> Seq<(Seq<char>, Seq<char>)> {
    seq![
        ("evt_block_number"@, "UInt64"@),
        ("evt_tx_hash"@, "FixedString(64)"@),
        ("evt_index"@, "UInt32"@),
        ("evt_block_time"@, "DateTime"@),
        ("tx_to"@, "FixedString(40)"@),
        ("tx_from"@, "FixedString(40)"@),
    ]
}

/// The columns of an event's table, with their types: one per parameter, then the standard
/// columns.
pub open spec fn schema_columns(e: EventDef) -> Seq<(Seq<char>, Seq<char>)> {
    e.params@.map_values(|p: EventParam| (p.name@, sql_type(p.kind.model()))) + trailer_schema()
}

/// The names of the columns of an event's table.
pub open spec fn schema_column_names(e: EventDef) -> Seq<Seq<char>> {
    schema_columns(e).map_values(|c: (Seq<char>, Seq<char>)| c.0)
}

/// The columns of an event's table, with their types.
pub fn table_columns(e: &EventDef) -> (r: Vec<(String, String)>)
    ensures
        r@.map_values(|c: (String, String)| (c.0@, c.1@)) == schema_columns(*e),
{
    let mut r: Vec<(String, String)> = Vec::new();
    let mut i: usize = 0;
    while i < e.params.len()
        invariant
            i <= e.params.len(),
            r@.len() == i,
            forall|j: int|
                0 <= j < i ==> (#[trigger] r@[j]).0@ == e.params@[j].name@ && r@[j].1@ == sql_type(
                    e.params@[j].kind.model(),
                ),
        decreases e.params.len() - i,
    {
        let p = &e.params[i];
        r.push((p.name.clone(), sql_type_text(&p.kind)));
        i = i + 1;
    }
    let mut trailer = vec![
        (String::from_str("evt_block_number"), String::from_str("UInt64")),
        (String::from_str("evt_tx_hash"), String::from_str("FixedString(64)")),
        (String::from_str("evt_index"), String::from_str("UInt32")),
        (String::from_str("evt_block_time"), String::from_str("DateTime")),
        (String::from_str("tx_to"), String::from_str("FixedString(40)")),
        (String::from_str("tx_from"), String::from_str("FixedString(40)")),
    ];
    r.append(&mut trailer);
    proof {
        assert(r@.map_values(|c: (String, String)| (c.0@, c.1@)) =~= schema_columns(*e));
    }
    r
}

/// The columns that the mapping writes for an event are exactly the columns that the schema
/// declares for its table.
pub proof fn lemma_schema_mapping_parity(e: EventDef)
    ensures
        event_columns(e).to_set() == schema_column_names(e).to_set(),
{
    let a = event_columns(e);
    let b = schema_column_names(e);
    let n = e.params@.len() as int;
    assert(b.len() == n + 6);
    assert forall|i: int| 0 <= i < n implies #[trigger] b[i] == e.params@[i].name@ && a[6 + i]
        == e.params@[i].name@ by {}
    assert(b[n] == "evt_block_number"@ && b[n + 1] == "evt_tx_hash"@ && b[n + 2] == "evt_index"@ && b[n
        + 3] == "evt_block_time"@ && b[n + 4] == "tx_to"@ && b[n + 5] == "tx_from"@);
    assert(a[0] == "evt_index"@ && a[1] == "evt_tx_hash"@ && a[2] == "tx_from"@ && a[3] == "tx_to"@
        && a[4] == "evt_block_time"@ && a[5] == "evt_block_number"@);
    assert forall|x: Seq<char>| a.contains(x) implies b.contains(x) by {
        let i = choose|i: int| 0 <= i < a.len() && a[i] == x;
        if i >= 6 {
            assert(b[i - 6] == x);
        } else if i == 0 {
            assert(b[n + 2] == x);
        } else if i == 1 {
            assert(b[n + 1] == x);
        } else if i == 2 {
            assert(b[n + 5] == x);
        } else if i == 3 {
            assert(b[n + 4] == x);
        } else if i == 4 {
            assert(b[n + 3] == x);
        } else {
            assert(b[n] == x);
        }
    }
    assert forall|x: Seq<char>| b.contains(x) implies a.contains(x) by {
        let i = choose|i: int| 0 <= i < b.len() && b[i] == x;
        if i < n {
            assert(a[6 + i] == x);
        } else if i == n {
            assert(a[5] == x);
        } else if i == n + 1 {
            assert(a[1] == x);
        } else if i == n + 2 {
            assert(a[0] == x);
        } else if i == n + 3 {
            assert(a[4] == x);
        } else if i == n + 4 {
            assert(a[3] == x);
        } else {
            assert(a[2] == x);
        }
    }
    assert(a.to_set() =~= b.to_set());
}

/// For every event instance, the columns of the change that records it are exactly the
/// columns that the schema declares for the event's table.
pub proof fn lemma_change_columns_match_schema(
    tc: TableChange,
    reg: Registry,
    v: EventWithInfo,
    table: Seq<char>,
    keys: Seq<(Seq<char>, Seq<char>)>,
    ordinal: u64,
)
    requires
        change_records(tc, reg, v, table, keys, ordinal),
        v.event.fields@.len() == def_of(reg, v.event).params@.len(),
    ensures
        column_names(tc.fields@).to_set() == schema_column_names(def_of(reg, v.event)).to_set(),
{
    let e = def_of(reg, v.event);
    let w = crate::table::writes_view(tc.fields@);
    let names = column_names(tc.fields@);
    assert(names.len() == w.len());
    assert forall|i: int| 0 <= i < names.len() implies names[i] == #[trigger] w[i].0 by {}
    assert(names =~= event_columns(e)) by {
        assert(names.len() == event_columns(e).len());
        assert forall|i: int| 0 <= i < names.len() implies names[i] == event_columns(e)[i] by {
            assert(names[i] == w[i].0);
        }
    }
    lemma_schema_mapping_parity(e);
}

/// The declaration lines of a table's columns, in order.
pub open spec fn column_lines(cols: Seq<(Seq<char>, Seq<char>)>) -> Seq<char>
    decreases cols.len(),
{
    if cols.len() == 0 {
        Seq::empty()
    } else {
        column_lines(cols.drop_last()) + "\t`"@ + cols.last().0 + "` "@ + cols.last().1 + ",\n"@
    }
}

/// What follows the columns of an event table: its engine and its ordering key.
pub open spec fn table_suffix() -> Seq<char> {
    ")\nENGINE = MergeTree\nPRIMARY KEY (evt_block_time,\n\tevt_block_number,\n\tevt_tx_hash,\n\tevt_index)\nORDER BY (evt_block_time,\n\tevt_block_number,\n\tevt_tx_hash,\n\tevt_index);\n"@
}

/// The declaration of an event's table in database `db`.
pub open spec fn create_table_text(db: Seq<char>, c: ContractDef, e: EventDef) -> Seq<char> {
    "\nCREATE TABLE IF NOT EXISTS "@ + db + "."@ + table_name_of(c, e) + " (\n"@ + column_lines(
        schema_columns(e),
    ) + table_suffix()
}

/// The declaration of a database and of its table of stream cursors.
pub open spec fn database_text(db: Seq<char>) -> Seq<char> {
    "CREATE DATABASE IF NOT EXISTS "@ + db + ";\n"@ + "\nCREATE TABLE IF NOT EXISTS "@ + db
        + ".cursors (\n\tid String,\n\tcursor String,\n\tblock_num Int64,\n\tblock_id String\n)\nENGINE = ReplacingMergeTree\nORDER BY id;\n"@
}

/// The declarations of the tables of a contract's events, in order.
pub open spec fn contract_text(db: Seq<char>, c: ContractDef, es: Seq<EventDef>) -> Seq<char>
    decreases es.len(),
{
    if es.len() == 0 {
        Seq::empty()
    } else {
        contract_text(db, c, es.drop_last()) + create_table_text(db, c, es.last())
    }
}

/// The declarations of the tables of every contract, in order.
pub open spec fn contracts_text(db: Seq<char>, cs: Seq<ContractDef>) -> Seq<char>
    decreases cs.len(),
{
    if cs.len() == 0 {
        Seq::empty()
    } else {
        contracts_text(db, cs.drop_last()) + contract_text(db, cs.last(), cs.last().events@)
    }
}

/// The whole schema: the database, its cursor table, then one table per registered event.
pub open spec fn schema_text(db: Seq<char>, reg: Registry) -> Seq<char> {
    database_text(db) + contracts_text(db, reg.contracts@)
}

/// Appends `b` to `a`.
fn append_text(a: &mut String, b: &str)
    ensures
        final(a)@ == old(a)@ + b@,
{
    a.append(b);
}

/// The declaration of an event's table in database `database`.
pub fn create_table_sql(database: &str, contract: &ContractDef, event: &EventDef) -> (r: String)
    ensures
        r@ == create_table_text(database@, *contract, *event),
{
    let mut r = String::from_str("\nCREATE TABLE IF NOT EXISTS ");
    append_text(&mut r, database);
    append_text(&mut r, ".");
    let table = event_table_name(contract, event);
    append_text(&mut r, table.as_str());
    append_text(&mut r, " (\n");
    let ghost head = r@;
    let cols = table_columns(event);
    let ghost cv = cols@.map_values(|c: (String, String)| (c.0@, c.1@));
    let mut i: usize = 0;
    while i < cols.len()
        invariant
            i <= cols.len(),
            cv == cols@.map_values(|c: (String, String)| (c.0@, c.1@)),
            r@ == head + column_lines(cv.subrange(0, i as int)),
        decreases cols.len() - i,
    {
        append_text(&mut r, "\t`");
        append_text(&mut r, cols[i].0.as_str());
        append_text(&mut r, "` ");
        append_text(&mut r, cols[i].1.as_str());
        append_text(&mut r, ",\n");
        proof {
            let sub = cv.subrange(0, i + 1);
            assert(sub.drop_last() =~= cv.subrange(0, i as int));
            assert(sub.last() == (cols@[i as int].0@, cols@[i as int].1@));
            assert(r@ =~= head + column_lines(sub));
        }
        i = i + 1;
    }
    proof {
        assert(cv.subrange(0, cols.len() as int) =~= cv);
    }
    append_text(&mut r, ")\nENGINE = MergeTree\nPRIMARY KEY (evt_block_time,\n\tevt_block_number,\n\tevt_tx_hash,\n\tevt_index)\nORDER BY (evt_block_time,\n\tevt_block_number,\n\tevt_tx_hash,\n\tevt_index);\n");
    proof {
        assert(r@ =~= create_table_text(database@, *contract, *event));
    }
    r
}

/// The declaration of a database and of its table of stream cursors.
pub fn database_sql(database: &str) -> (r: String)
    ensures
        r@ == database_text(database@),
{
    let mut r = String::from_str("CREATE DATABASE IF NOT EXISTS ");
    append_text(&mut r, database);
    append_text(&mut r, ";\n");
    append_text(&mut r, "\nCREATE TABLE IF NOT EXISTS ");
    append_text(&mut r, database);
    append_text(&mut r, ".cursors (\n\tid String,\n\tcursor String,\n\tblock_num Int64,\n\tblock_id String\n)\nENGINE = ReplacingMergeTree\nORDER BY id;\n");
    proof {
        assert(r@ =~= database_text(database@));
    }
    r
}

/// The declarations of the tables of a contract's events, in order.
pub fn contract_sql(database: &str, contract: &ContractDef) -> (r: String)
    ensures
        r@ == contract_text(database@, *contract, contract.events@),
{
    let mut r = String::new();
    let mut i: usize = 0;
    while i < contract.events.len()
        invariant
            i <= contract.events.len(),
            r@ == contract_text(database@, *contract, contract.events@.subrange(0, i as int)),
        decreases contract.events.len() - i,
    {
        let table = create_table_sql(database, contract, &contract.events[i]);
        append_text(&mut r, table.as_str());
        proof {
            let sub = contract.events@.subrange(0, i + 1);
            assert(sub.drop_last() =~= contract.events@.subrange(0, i as int));
        }
        i = i + 1;
    }
    proof {
        assert(contract.events@.subrange(0, contract.events.len() as int) =~= contract.events@);
    }
    r
}

/// The whole schema of a registry in database `database`.
pub fn schema_sql(database: &str, reg: &Registry) -> (r: String)
    ensures
        r@ == schema_text(database@, *reg),
{
    let mut r = database_sql(database);
    let ghost head = r@;
    let mut i: usize = 0;
    while i < reg.contracts.len()
        invariant
            i <= reg.contracts.len(),
            head == database_text(database@),
            r@ == head + contracts_text(database@, reg.contracts@.subrange(0, i as int)),
        decreases reg.contracts.len() - i,
    {
        let part = contract_sql(database, &reg.contracts[i]);
        append_text(&mut r, part.as_str());
        proof {
            let sub = reg.contracts@.subrange(0, i + 1);
            assert(sub.drop_last() =~= reg.contracts@.subrange(0, i as int));
            assert(r@ =~= head + contracts_text(database@, sub));
        }
        i = i + 1;
    }
    proof {
        assert(reg.contracts@.subrange(0, reg.contracts.len() as int) =~= reg.contracts@);
    }
    r
}

} // verus!

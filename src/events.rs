use vstd::prelude::*;
use crate::abi::{FieldValue, value_encoding};
use crate::encoding::{TableField, decimal, hex_lower, hex_string, u64_text};
use crate::registry::{
    ContractDef, DecodedEvent, EventDef, EventParam, Log, Registry, decoded_event, lemma_decoded_event_len,
    matches_at,
};
use crate::table::{DatabaseChanges, Operation, TableChange, creates_only, field, key, key_view, writes_view};

verus! {

/// A block time: seconds and nanoseconds since the Unix epoch.
#[derive(Clone, Copy, Debug, PartialEq, Eq)]
pub struct BlockTime {
    pub seconds: i64,
    pub nanos: i32,
}

impl BlockTime {
    /// A time between the epoch and the end of year 9999, with a nanosecond part below one
    /// second.
    pub open spec fn wf(self) -> bool {
        &&& 0 <= self.seconds <= 253_402_300_799
        &&& 0 <= self.nanos < 1_000_000_000
    }
}

/// The RFC 3339 text, in UTC, of a time given in seconds and nanoseconds.
pub uninterp spec fn rfc3339_of(seconds: int, nanos: int) -> Seq<char>;

/// Relies on the `Display` of prost-types' `Timestamp`: RFC 3339 text in UTC, which depends on
/// the two fields alone.
#[verifier::external_body]
pub(crate) fn block_time_text(t: &BlockTime) -> (r: String)
    requires
        t.wf(),
    ensures
        r@ == rfc3339_of(t.seconds as int, t.nanos as int),
{
    prost_types::Timestamp { seconds: t.seconds, nanos: t.nanos }.to_string()
}

/// The lowercase form of a text.
pub uninterp spec fn lower_of(s: Seq<char>) -> Seq<char>;

/// Relies on `str::to_lowercase`: the result depends on the characters alone.
#[verifier::external_body]
pub(crate) fn lowercase(s: &str) -> (r: String)
    ensures
        r@ == lower_of(s@),
{
    s.to_lowercase()
}

/// The table of an event: the contract's prefix, if any, then the event's name in lowercase.
pub open spec fn table_name_of(c: ContractDef, e: EventDef) -> Seq<char> {
    match c.table_prefix {
        Some(p) => p@ + lower_of(e.name@),
        None => lower_of(e.name@),
    }
}

/// The context in which an event was emitted.
#[derive(Debug)]
pub struct EvtTxInfo {
    pub contract_address: Vec<u8>,
    pub evt_tx_hash: Vec<u8>,
    pub tx_from: Vec<u8>,
    pub tx_to: Vec<u8>,
    pub evt_block_number: u64,
    pub evt_block_time: BlockTime,
    pub evt_index: u32,
}

/// A decoded event with its context.
#[derive(Debug)]
pub struct EventWithInfo {
    pub event: DecodedEvent,
    pub info: EvtTxInfo,
}

/// The names of the standard columns that every event table carries.
pub open spec fn trailer_columns() -> Seq<Seq<char>> {
    seq![
        "evt_index"@,
        "evt_tx_hash"@,
        "tx_from"@,
        "tx_to"@,
        "evt_block_time"@,
        "evt_block_number"@,
    ]
}

/// The writes of the standard columns.
pub open spec fn trailer_writes(info: EvtTxInfo) -> Seq<(Seq<char>, Seq<char>)> {
    seq![
        ("evt_index"@, decimal(info.evt_index as nat)),
        ("evt_tx_hash"@, hex_lower(info.evt_tx_hash@)),
        ("tx_from"@, hex_lower(info.tx_from@)),
        ("tx_to"@, hex_lower(info.tx_to@)),
        (
            "evt_block_time"@,
            rfc3339_of(info.evt_block_time.seconds as int, info.evt_block_time.nanos as int),
        ),
        ("evt_block_number"@, decimal(info.evt_block_number as nat)),
    ]
}

/// The writes of an event's own parameters: each parameter's name with its value's text.
pub open spec fn event_writes(params: Seq<EventParam>, fields: Seq<FieldValue>) -> Seq<
    (Seq<char>, Seq<char>),
> {
    Seq::new(params.len(), |i: int| (params[i].name@, value_encoding(fields[i])))
}

/// The names of an event's parameters, in order.
pub open spec fn param_names(params: Seq<EventParam>) -> Seq<Seq<char>> {
    params.map_values(|p: EventParam| p.name@)
}

/// The columns that a change for an event of this definition writes, in order.
pub open spec fn event_columns(e: EventDef) -> Seq<Seq<char>> {
    trailer_columns() + param_names(e.params@)
}

/// The composite key of an event's row.
pub open spec fn event_key(info: EvtTxInfo) -> Seq<(Seq<char>, Seq<char>)> {
    seq![
        ("evt_tx_hash"@, hex_lower(info.evt_tx_hash@)),
        ("evt_index"@, decimal(info.evt_index as nat)),
        ("evt_block_number"@, decimal(info.evt_block_number as nat)),
        (
            "evt_block_time"@,
            rfc3339_of(info.evt_block_time.seconds as int, info.evt_block_time.nanos as int),
        ),
    ]
}

/// A decoded event names a registered event and carries one value per parameter.
pub open spec fn event_ok(reg: Registry, ev: DecodedEvent) -> bool {
    &&& ev.contract < reg.contracts@.len()
    &&& ev.event < reg.contracts@[ev.contract as int].events@.len()
    &&& ev.fields@.len() == reg.contracts@[ev.contract as int].events@[ev.event as int].params@.len()
}

/// The definition a decoded event was decoded under.
pub open spec fn def_of(reg: Registry, ev: DecodedEvent) -> EventDef {
    reg.contracts@[ev.contract as int].events@[ev.event as int]
}

/// A change records the event `v` in table `table` under key `keys`.
pub open spec fn change_records(
    tc: TableChange,
    reg: Registry,
    v: EventWithInfo,
    table: Seq<char>,
    keys: Seq<(Seq<char>, Seq<char>)>,
    ordinal: u64,
) -> bool {
    &&& tc.table@ == table
    &&& key_view(tc.keys@) == keys
    &&& tc.ordinal == ordinal
    &&& tc.operation == Operation::Create
    &&& creates_only(tc.fields@)
    &&& writes_view(tc.fields@) == trailer_writes(v.info) + event_writes(
        def_of(reg, v.event).params@,
        v.event.fields@,
    )
}

/// The table of an event of a contract.
pub fn event_table_name(contract: &ContractDef, event: &EventDef) -> (r: String)
    ensures
        r@ == table_name_of(*contract, *event),
{
    let name = lowercase(event.name.as_str());
    match &contract.table_prefix {
        Some(prefix) => {
            let mut r = prefix.clone();
            r.append(name.as_str());
            r
        },
        None => name,
    }
}

impl Registry {
    /// The table that an event is recorded in.
    pub fn get_table_name(&self, ev: &DecodedEvent) -> (r: String)
        requires
            event_ok(*self, *ev),
        ensures
            r@ == table_name_of(self.contracts@[ev.contract as int], def_of(*self, *ev)),
    {
        let contract = &self.contracts[ev.contract];
        event_table_name(contract, &contract.events[ev.event])
    }

    /// The name of the contract that emitted an event.
    pub fn get_contract_name(&self, ev: &DecodedEvent) -> (r: String)
        requires
            event_ok(*self, *ev),
        ensures
            r@ == self.contracts@[ev.contract as int].name@,
    {
        self.contracts[ev.contract].name.clone()
    }

    /// Writes each parameter of an event into its own column, after the columns already
    /// written.
    pub fn add_table_changes(&self, ev: &DecodedEvent, table_change: &mut TableChange)
        requires
            event_ok(*self, *ev),
        ensures
            final(table_change).table == old(table_change).table,
            final(table_change).keys == old(table_change).keys,
            final(table_change).ordinal == old(table_change).ordinal,
            final(table_change).operation == old(table_change).operation,
            creates_only(old(table_change).fields@) ==> creates_only(final(table_change).fields@),
            writes_view(final(table_change).fields@) == writes_view(old(table_change).fields@)
                + event_writes(def_of(*self, *ev).params@, ev.fields@),
    {
        let params = &self.contracts[ev.contract].events[ev.event].params;
        let ghost start = table_change.fields@;
        let mut i: usize = 0;
        while i < params.len()
            invariant
                i <= params.len(),
                params@ == def_of(*self, *ev).params@,
                ev.fields@.len() == params@.len(),
                table_change.table == old(table_change).table,
                table_change.keys == old(table_change).keys,
                table_change.ordinal == old(table_change).ordinal,
                table_change.operation == old(table_change).operation,
                start == old(table_change).fields@,
                creates_only(start) ==> creates_only(table_change.fields@),
                writes_view(table_change.fields@) == writes_view(start) + event_writes(
                    params@,
                    ev.fields@,
                ).subrange(0, i as int),
            decreases params.len() - i,
        {
            let ghost before = table_change.fields@;
            let value = ev.fields[i].get_value();
            table_change.change(params[i].name.as_str(), value);
            proof {
                let w = event_writes(params@, ev.fields@);
                assert(w.subrange(0, i + 1) =~= w.subrange(0, i as int).push(w[i as int]));
                assert(table_change.fields@ =~= before.push(table_change.fields@.last()));
                assert(writes_view(table_change.fields@) =~= writes_view(before).push(
                    writes_view(table_change.fields@).last(),
                ));
                if creates_only(start) {
                    assert(creates_only(table_change.fields@)) by {
                        assert forall|j: int| 0 <= j < table_change.fields@.len() implies (#[trigger] table_change.fields@[j]).old_value@
                            == Seq::<char>::empty() by {
                            if j < before.len() {
                                assert(table_change.fields@[j] == before[j]);
                            }
                        }
                    }
                }
            }
            i = i + 1;
        }
        proof {
            let w = event_writes(params@, ev.fields@);
            assert(w.subrange(0, params.len() as int) =~= w);
        }
    }
}

/// What a record contributes to a table change: where it goes and what it writes.
pub trait ToTableChange {
    /// The record can be mapped.
    spec fn mappable(&self) -> bool;

    /// The table the record is written to.
    spec fn table_name(&self) -> Seq<char>;

    /// The contract the record comes from.
    spec fn contract_name(&self) -> Seq<char>;

    /// The record's own column writes, in order.
    spec fn writes(&self) -> Seq<(Seq<char>, Seq<char>)>;

    /// Appends the record's own column writes after those already in the change.
    fn add_table_changes(&self, table_change: &mut TableChange)
        requires
            self.mappable(),
        ensures
            final(table_change).table == old(table_change).table,
            final(table_change).keys == old(table_change).keys,
            final(table_change).ordinal == old(table_change).ordinal,
            final(table_change).operation == old(table_change).operation,
            creates_only(old(table_change).fields@) ==> creates_only(final(table_change).fields@),
            writes_view(final(table_change).fields@) == writes_view(old(table_change).fields@)
                + self.writes(),
    ;

    fn get_table_name(&self) -> (r: String)
        requires
            self.mappable(),
        ensures
            r@ == self.table_name(),
    ;

    fn get_contract_name(&self) -> (r: String)
        requires
            self.mappable(),
        ensures
            r@ == self.contract_name(),
    ;
}

/// A decoded event together with the registry it was decoded by, which says which of the
/// registered events, and so which contract and table, it belongs to.
pub struct RegisteredEvent<'a> {
    pub registry: &'a Registry,
    pub event: &'a DecodedEvent,
}

impl<'a> ToTableChange for RegisteredEvent<'a> {
    open spec fn mappable(&self) -> bool {
        event_ok(*self.registry, *self.event)
    }

    open spec fn table_name(&self) -> Seq<char> {
        table_name_of(self.registry.contracts@[self.event.contract as int], def_of(*self.registry, *self.event))
    }

    open spec fn contract_name(&self) -> Seq<char> {
        self.registry.contracts@[self.event.contract as int].name@
    }

    open spec fn writes(&self) -> Seq<(Seq<char>, Seq<char>)> {
        event_writes(def_of(*self.registry, *self.event).params@, self.event.fields@)
    }

    fn add_table_changes(&self, table_change: &mut TableChange) {
        self.registry.add_table_changes(self.event, table_change)
    }

    fn get_table_name(&self) -> (r: String) {
        self.registry.get_table_name(self.event)
    }

    fn get_contract_name(&self) -> (r: String) {
        self.registry.get_contract_name(self.event)
    }
}

/// Appends the change that records an event: the standard columns, then the event's own.
pub fn push_create(
    changes: &mut DatabaseChanges,
    reg: &Registry,
    table_name: String,
    keys: Vec<(String, String)>,
    ordinal: u64,
    value: &EventWithInfo,
)
    requires
        event_ok(*reg, value.event),
        value.info.evt_block_time.wf(),
    ensures
        final(changes).table_changes@.len() == old(changes).table_changes@.len() + 1,
        final(changes).table_changes@.drop_last() == old(changes).table_changes@,
        change_records(
            final(changes).table_changes@.last(),
            *reg,
            *value,
            table_name@,
            key_view(keys@),
            ordinal,
        ),
{
    let info = &value.info;
    let fields = vec![
        field("evt_index", u64_text(info.evt_index as u64)),
        field("evt_tx_hash", hex_string(&info.evt_tx_hash)),
        field("tx_from", hex_string(&info.tx_from)),
        field("tx_to", hex_string(&info.tx_to)),
        field("evt_block_time", block_time_text(&info.evt_block_time)),
        field("evt_block_number", u64_text(info.evt_block_number)),
    ];
    let mut table_change = TableChange { table: table_name, keys, ordinal, operation: Operation::Create, fields };
    proof {
        assert(writes_view(table_change.fields@) =~= trailer_writes(value.info));
    }
    let record = RegisteredEvent { registry: reg, event: &value.event };
    record.add_table_changes(&mut table_change);
    let ghost old_changes = changes.table_changes@;
    changes.table_changes.push(table_change);
    proof {
        assert(changes.table_changes@.drop_last() =~= old_changes);
    }
}

/// A log with the transaction that emitted it.
#[derive(Debug)]
pub struct LogInTx {
    pub log: Log,
    pub tx_hash: Vec<u8>,
    pub tx_from: Vec<u8>,
    pub tx_to: Vec<u8>,
}

/// The parts of a block that events are read from.
#[derive(Debug)]
pub struct Block {
    pub number: u64,
    pub timestamp: BlockTime,
    /// Every log of the block, in order.
    pub logs: Vec<LogInTx>,
}

/// Some registered event matches the log.
pub open spec fn has_match(reg: Registry, log: Log) -> bool {
    exists|c: int, e: int| matches_at(reg, c, e, log)
}

/// Event `e` of contract `c` is the first registered event that matches the log.
pub open spec fn first_match(reg: Registry, log: Log, c: int, e: int) -> bool {
    &&& matches_at(reg, c, e, log)
    &&& forall|c2: int, e2: int| #[trigger] matches_at(reg, c2, e2, log) ==> c < c2 || (c == c2 && e <= e2)
}

/// The positions of the logs that some registered event matches, in order.
pub open spec fn matched_logs(reg: Registry, logs: Seq<LogInTx>) -> Seq<int>
    decreases logs.len(),
{
    if logs.len() == 0 {
        Seq::empty()
    } else if has_match(reg, logs.last().log) {
        matched_logs(reg, logs.drop_last()).push(logs.len() - 1)
    } else {
        matched_logs(reg, logs.drop_last())
    }
}

/// `v` is the event that the first matching registered event decodes from log `i` of the
/// block, with that log's context.
pub open spec fn event_from_log(v: EventWithInfo, reg: Registry, block: Block, i: int) -> bool {
    let lt = block.logs@[i];
    &&& first_match(reg, lt.log, v.event.contract as int, v.event.event as int)
    &&& decoded_event(def_of(reg, v.event), lt.log) == Some(v.event.fields@)
    &&& event_ok(reg, v.event)
    &&& v.info.contract_address@ == lt.log.address@
    &&& v.info.evt_tx_hash@ == lt.tx_hash@
    &&& v.info.tx_from@ == lt.tx_from@
    &&& v.info.tx_to@ == lt.tx_to@
    &&& v.info.evt_block_number == block.number
    &&& v.info.evt_block_time == block.timestamp
    &&& v.info.evt_index == lt.log.index
}

/// Decodes every log of a block that a registered event matches, with its context; logs that
/// no registered event matches are skipped.
pub fn get_events(reg: &Registry, block: &Block) -> (r: Vec<EventWithInfo>)
    ensures
        r@.len() == matched_logs(*reg, block.logs@).len(),
        forall|k: int|
            0 <= k < r@.len() ==> event_from_log(
                #[trigger] r@[k],
                *reg,
                *block,
                matched_logs(*reg, block.logs@)[k],
            ),
{
    let mut r: Vec<EventWithInfo> = Vec::new();
    let mut i: usize = 0;
    while i < block.logs.len()
        invariant
            i <= block.logs.len(),
            r@.len() == matched_logs(*reg, block.logs@.subrange(0, i as int)).len(),
            forall|k: int|
                0 <= k < r@.len() ==> event_from_log(
                    #[trigger] r@[k],
                    *reg,
                    *block,
                    matched_logs(*reg, block.logs@.subrange(0, i as int))[k],
                ),
        decreases block.logs.len() - i,
    {
        let ghost prefix = block.logs@.subrange(0, i as int);
        let ghost next = block.logs@.subrange(0, i + 1);
        proof {
            assert(next.drop_last() =~= prefix);
            assert(next.last() == block.logs@[i as int]);
        }
        let lt = &block.logs[i];
        match reg.match_and_decode(&lt.log) {
            Some(event) => {
                proof {
                    lemma_decoded_event_len(def_of(*reg, event), lt.log);
                    assert(has_match(*reg, lt.log));
                }
                let info = EvtTxInfo {
                    contract_address: lt.log.address.clone(),
                    evt_tx_hash: lt.tx_hash.clone(),
                    tx_from: lt.tx_from.clone(),
                    tx_to: lt.tx_to.clone(),
                    evt_block_number: block.number,
                    evt_block_time: block.timestamp,
                    evt_index: lt.log.index,
                };
                r.push(EventWithInfo { event, info });
            },
            None => {
                proof {
                    assert(!has_match(*reg, lt.log));
                }
            },
        }
        i = i + 1;
    }
    proof {
        assert(block.logs@.subrange(0, block.logs.len() as int) =~= block.logs@);
    }
    r
}

/// The table that an event is recorded in.
pub open spec fn event_table(reg: Registry, v: EventWithInfo) -> Seq<char> {
    table_name_of(reg.contracts@[v.event.contract as int], def_of(reg, v.event))
}

/// Appends one change per event, in order: in the event's table, keyed by its transaction
/// hash, log index, block number and block time, with ordinal 0.
pub fn transform_events_to_database_changes(
    reg: &Registry,
    changes: &mut DatabaseChanges,
    events: &Vec<EventWithInfo>,
)
    requires
        forall|k: int|
            0 <= k < events@.len() ==> event_ok(*reg, (#[trigger] events@[k]).event)
                && events@[k].info.evt_block_time.wf(),
    ensures
        final(changes).table_changes@.len() == old(changes).table_changes@.len() + events@.len(),
        final(changes).table_changes@.subrange(0, old(changes).table_changes@.len() as int)
            == old(changes).table_changes@,
        forall|k: int|
            0 <= k < events@.len() ==> change_records(
                #[trigger] final(changes).table_changes@[old(changes).table_changes@.len() + k],
                *reg,
                events@[k],
                event_table(*reg, events@[k]),
                event_key(events@[k].info),
                0,
            ),
{
    let ghost base = changes.table_changes@;
    let mut i: usize = 0;
    while i < events.len()
        invariant
            i <= events.len(),
            forall|k: int|
                0 <= k < events@.len() ==> event_ok(*reg, (#[trigger] events@[k]).event)
                    && events@[k].info.evt_block_time.wf(),
            base == old(changes).table_changes@,
            changes.table_changes@.len() == base.len() + i,
            changes.table_changes@.subrange(0, base.len() as int) == base,
            forall|k: int|
                0 <= k < i ==> change_records(
                    #[trigger] changes.table_changes@[base.len() + k],
                    *reg,
                    events@[k],
                    event_table(*reg, events@[k]),
                    event_key(events@[k].info),
                    0,
                ),
        decreases events.len() - i,
    {
        let evt = &events[i];
        let table_name = RegisteredEvent { registry: reg, event: &evt.event }.get_table_name();
        let info = &evt.info;
        let keys = vec![
            key("evt_tx_hash", hex_string(&info.evt_tx_hash)),
            key("evt_index", u64_text(info.evt_index as u64)),
            key("evt_block_number", u64_text(info.evt_block_number)),
            key("evt_block_time", block_time_text(&info.evt_block_time)),
        ];
        proof {
            assert(key_view(keys@) =~= event_key(evt.info));
        }
        let ghost before = changes.table_changes@;
        push_create(changes, reg, table_name, keys, 0, evt);
        proof {
            assert(changes.table_changes@ =~= before.push(changes.table_changes@.last()));
            assert(changes.table_changes@.subrange(0, base.len() as int) =~= before.subrange(
                0,
                base.len() as int,
            ));
        }
        i = i + 1;
    }
}

/// The change records the event that log `i` of the block decodes to.
pub open spec fn change_for_log(tc: TableChange, reg: Registry, block: Block, i: int) -> bool {
    exists|v: EventWithInfo|
        event_from_log(v, reg, block, i) && change_records(
            tc,
            reg,
            v,
            event_table(reg, v),
            event_key(v.info),
            0,
        )
}

/// The changes of a block: one per log that a registered event matches, in order, recording
/// the decoded event with its context.
pub fn transform(reg: &Registry, block: &Block) -> (r: DatabaseChanges)
    requires
        block.timestamp.wf(),
    ensures
        r.table_changes@.len() == matched_logs(*reg, block.logs@).len(),
        forall|k: int|
            0 <= k < r.table_changes@.len() ==> change_for_log(
                #[trigger] r.table_changes@[k],
                *reg,
                *block,
                matched_logs(*reg, block.logs@)[k],
            ),
{
    let mut database_changes = DatabaseChanges::new();
    let events = get_events(reg, block);
    transform_events_to_database_changes(reg, &mut database_changes, &events);
    proof {
        assert forall|k: int| 0 <= k < database_changes.table_changes@.len() implies change_for_log(
            #[trigger] database_changes.table_changes@[k],
            *reg,
            *block,
            matched_logs(*reg, block.logs@)[k],
        ) by {
            assert(event_from_log(events@[k], *reg, *block, matched_logs(*reg, block.logs@)[k]));
            assert(database_changes.table_changes@[0 + k] == database_changes.table_changes@[k]);
        }
    }
    database_changes
}

} // verus!

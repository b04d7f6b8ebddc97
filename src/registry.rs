use vstd::prelude::*;
use crate::abi::{AbiType, FieldValue, TypeModel, abi_decode, abi_decoded, types_model};

verus! {

/// One parameter of a contract event.
#[derive(Debug)]
pub struct EventParam {
    pub name: String,
    pub kind: AbiType,
    /// Whether the value travels in a topic rather than in the data.
    pub indexed: bool,
}

/// A contract event: its name, its signature topic and its parameters in declaration order.
#[derive(Debug)]
pub struct EventDef {
    pub name: String,
    pub topic: Vec<u8>,
    pub params: Vec<EventParam>,
}

/// A registered contract with the events it emits.
#[derive(Debug)]
pub struct ContractDef {
    pub name: String,
    /// Prepended to the lowercased event name to form table names.
    pub table_prefix: Option<String>,
    /// When present, only logs emitted from this address match.
    pub address: Option<Vec<u8>>,
    pub events: Vec<EventDef>,
}

/// The registered contracts, in registration order.
#[derive(Debug)]
pub struct Registry {
    pub contracts: Vec<ContractDef>,
}

/// A raw event log.
#[derive(Debug)]
pub struct Log {
    pub address: Vec<u8>,
    pub topics: Vec<Vec<u8>>,
    pub data: Vec<u8>,
    pub index: u32,
}

/// A log decoded by event `event` of contract `contract`, with one value per parameter.
#[derive(Debug)]
pub struct DecodedEvent {
    pub contract: usize,
    pub event: usize,
    pub fields: Vec<FieldValue>,
}

/// Whether a value of this type is encoded out of line, so that an indexed one is hashed.
pub open spec fn is_dynamic(t: TypeModel) -> bool
    decreases t,
{
    match t {
        TypeModel::Bytes | TypeModel::String | TypeModel::Array(_) => true,
        TypeModel::FixedArray(inner, _) => is_dynamic(*inner),
        TypeModel::Tuple(ts) => any_dynamic(ts),
        _ => false,
    }
}

pub open spec fn any_dynamic(ts: Seq<TypeModel>) -> bool
    decreases ts,
{
    if ts.len() == 0 {
        false
    } else {
        any_dynamic(ts.drop_last()) || is_dynamic(ts.last())
    }
}

impl AbiType {
    /// Whether a value of this type is encoded out of line.
    pub fn is_dynamic(&self) -> (r: bool)
        ensures
            r == is_dynamic(self.model()),
        decreases self,
    {
        match self {
            AbiType::Bytes | AbiType::String | AbiType::Array(_) => true,
            AbiType::FixedArray(inner, _) => (**inner).is_dynamic(),
            AbiType::Tuple(ts) => any_is_dynamic(ts),
            _ => false,
        }
    }
}

/// Whether any of the types is encoded out of line.
pub fn any_is_dynamic(ts: &Vec<AbiType>) -> (r: bool)
    ensures
        r == any_dynamic(types_model(ts@)),
    decreases ts,
{
    let mut i: usize = 0;
    let mut any = false;
    proof {
        crate::abi::lemma_types_model(ts@);
    }
    while i < ts.len()
        invariant
            i <= ts.len(),
            types_model(ts@).len() == ts@.len(),
            forall|j: int| 0 <= j < ts.len() ==> types_model(ts@)[j] == ts@[j].model(),
            any == any_dynamic(types_model(ts@).subrange(0, i as int)),
        decreases ts.len() - i,
    {
        proof {
            let m = types_model(ts@);
            assert(m.subrange(0, i + 1).drop_last() =~= m.subrange(0, i as int));
        }
        let d = ts[i].is_dynamic();
        any = any || d;
        i = i + 1;
    }
    proof {
        assert(types_model(ts@).subrange(0, ts.len() as int) =~= types_model(ts@));
    }
    any
}

/// The layout of an indexed value in its topic: the value itself, or the hash of an
/// out-of-line value.
pub open spec fn topic_layout(kind: TypeModel) -> Seq<TypeModel> {
    if is_dynamic(kind) {
        seq![TypeModel::FixedBytes(32)]
    } else {
        seq![kind]
    }
}

/// The value an indexed parameter takes from its topic.
pub open spec fn topic_value(kind: TypeModel, topic: Seq<u8>) -> Option<FieldValue> {
    match abi_decoded(topic_layout(kind), topic) {
        Some(vs) => if vs.len() == 1 {
            Some(vs[0])
        } else {
            None
        },
        None => None,
    }
}

/// The types of the parameters that travel in the data, in order.
pub open spec fn data_layout(params: Seq<EventParam>) -> Seq<TypeModel>
    decreases params.len(),
{
    if params.len() == 0 {
        Seq::empty()
    } else if params.last().indexed {
        data_layout(params.drop_last())
    } else {
        data_layout(params.drop_last()).push(params.last().kind.model())
    }
}

/// The value of each parameter, taking indexed ones from the topics and the others from the
/// decoded data, in order; `None` unless both are used up exactly.
pub open spec fn event_fields(params: Seq<EventParam>, data: Seq<FieldValue>, topics: Seq<Seq<u8>>) -> Option<
    Seq<FieldValue>,
>
    decreases params.len(),
{
    if params.len() == 0 {
        if data.len() == 0 && topics.len() == 0 {
            Some(Seq::empty())
        } else {
            None
        }
    } else if params[0].indexed {
        if topics.len() == 0 {
            None
        } else {
            match (
                topic_value(params[0].kind.model(), topics[0]),
                event_fields(params.drop_first(), data, topics.drop_first()),
            ) {
                (Some(v), Some(rest)) => Some(seq![v] + rest),
                _ => None,
            }
        }
    } else {
        if data.len() == 0 {
            None
        } else {
            match event_fields(params.drop_first(), data.drop_first(), topics) {
                Some(rest) => Some(seq![data[0]] + rest),
                None => None,
            }
        }
    }
}

/// The views of a sequence of byte strings.
pub open spec fn topic_views(ts: Seq<Vec<u8>>) -> Seq<Seq<u8>> {
    ts.map_values(|t: Vec<u8>| t@)
}

/// The parameter values of a log under an event definition, if it decodes.
pub open spec fn decoded_event(e: EventDef, log: Log) -> Option<Seq<FieldValue>> {
    if log.topics@.len() == 0 {
        None
    } else {
        match abi_decoded(data_layout(e.params@), log.data@) {
            Some(data) => event_fields(e.params@, data, topic_views(log.topics@).drop_first()),
            None => None,
        }
    }
}

/// The log comes from the contract's address, if it has one, and carries the event's topic.
pub open spec fn selects(c: ContractDef, e: EventDef, log: Log) -> bool {
    &&& (c.address matches Some(a) ==> a@ == log.address@)
    &&& log.topics@.len() >= 1
    &&& log.topics@[0]@ == e.topic@
}

/// The log selects and decodes under event `ei` of contract `ci`.
pub open spec fn matches_at(reg: Registry, ci: int, ei: int, log: Log) -> bool {
    &&& 0 <= ci < reg.contracts@.len()
    &&& 0 <= ei < reg.contracts@[ci].events@.len()
    &&& selects(reg.contracts@[ci], reg.contracts@[ci].events@[ei], log)
    &&& decoded_event(reg.contracts@[ci].events@[ei], log) is Some
}

/// Two registered events could be selected by the same log.
pub open spec fn may_collide(c1: ContractDef, e1: EventDef, c2: ContractDef, e2: EventDef) -> bool {
    &&& e1.topic@ == e2.topic@
    &&& (c1.address matches Some(a1) ==> (c2.address matches Some(a2) ==> a1@ == a2@))
}

impl Registry {
    /// No two registered events can be selected by the same log.
    pub open spec fn wf(self) -> bool {
        forall|c1: int, e1: int, c2: int, e2: int|
            0 <= c1 < self.contracts@.len() && 0 <= e1 < self.contracts@[c1].events@.len() && 0 <= c2
                < self.contracts@.len() && 0 <= e2 < self.contracts@[c2].events@.len() && (c1 != c2 || e1
                != e2) ==> !may_collide(
                self.contracts@[c1],
                #[trigger] self.contracts@[c1].events@[e1],
                self.contracts@[c2],
                #[trigger] self.contracts@[c2].events@[e2],
            )
    }
}

/// The types of the parameters that travel in the data, in order.
pub fn data_params(params: &Vec<EventParam>) -> (r: Vec<AbiType>)
    ensures
        types_model(r@) == data_layout(params@),
{
    let mut r: Vec<AbiType> = Vec::new();
    let mut i: usize = 0;
    while i < params.len()
        invariant
            i <= params.len(),
            types_model(r@) == data_layout(params@.subrange(0, i as int)),
        decreases params.len() - i,
    {
        proof {
            assert(params@.subrange(0, i + 1).drop_last() =~= params@.subrange(0, i as int));
            assert(params@.subrange(0, i + 1).last() == params@[i as int]);
        }
        if !params[i].indexed {
            let ghost prev = r@;
            r.push(params[i].kind.duplicate());
            proof {
                assert(r@.drop_last() =~= prev);
            }
        }
        i = i + 1;
    }
    proof {
        assert(params@.subrange(0, params.len() as int) =~= params@);
    }
    r
}

/// The value an indexed parameter takes from its topic.
pub fn decode_topic(kind: &AbiType, topic: &Vec<u8>) -> (r: Option<FieldValue>)
    ensures
        r == topic_value(kind.model(), topic@),
{
    let layout = if kind.is_dynamic() {
        vec![AbiType::FixedBytes(32)]
    } else {
        vec![kind.duplicate()]
    };
    proof {
        reveal_with_fuel(types_model, 2);
        assert(types_model(layout@) =~= topic_layout(kind.model()));
    }
    match abi_decode(&layout, topic) {
        Some(vs) => {
            let mut vs = vs;
            if vs.len() == 1 {
                Some(vs.remove(0))
            } else {
                None
            }
        },
        None => None,
    }
}

/// Decodes a log under an event definition: indexed parameters from the topics after the
/// first, the others from the data.
pub fn decode_event(e: &EventDef, log: &Log) -> (r: Option<Vec<FieldValue>>)
    ensures
        r matches Some(v) ==> decoded_event(*e, *log) == Some(v@),
        r is None ==> decoded_event(*e, *log) is None,
{
    if log.topics.len() == 0 {
        return None;
    }
    let layout = data_params(&e.params);
    let mut data = match abi_decode(&layout, &log.data) {
        Some(d) => d,
        None => return None,
    };
    let ghost params = e.params@;
    let ghost tv = topic_views(log.topics@);
    let ghost whole = event_fields(params, data@, tv.drop_first());
    proof {
        assert(params.subrange(0, params.len() as int) =~= params);
        assert(tv.subrange(1, tv.len() as int) =~= tv.drop_first());
        assert(whole == decoded_event(*e, *log));
    }
    let mut fields: Vec<FieldValue> = Vec::new();
    let mut ti: usize = 1;
    let mut i: usize = 0;
    while i < e.params.len()
        invariant
            i <= e.params.len(),
            1 <= ti <= log.topics.len(),
            params == e.params@,
            tv == topic_views(log.topics@),
            whole == decoded_event(*e, *log),
            whole == match event_fields(
                params.subrange(i as int, params.len() as int),
                data@,
                tv.subrange(ti as int, tv.len() as int),
            ) {
                Some(rest) => Some(fields@ + rest),
                None => None,
            },
        decreases e.params.len() - i,
    {
        let ghost ps = params.subrange(i as int, params.len() as int);
        let ghost ts = tv.subrange(ti as int, tv.len() as int);
        proof {
            assert(ps[0] == params[i as int]);
            assert(ps.drop_first() =~= params.subrange(i + 1, params.len() as int));
        }
        if e.params[i].indexed {
            if ti >= log.topics.len() {
                proof {
                    assert(ts.len() == 0);
                }
                return None;
            }
            proof {
                assert(ts[0] == log.topics@[ti as int]@);
                assert(ts.drop_first() =~= tv.subrange(ti + 1, tv.len() as int));
            }
            match decode_topic(&e.params[i].kind, &log.topics[ti]) {
                Some(v) => {
                    let ghost prev = fields@;
                    fields.push(v);
                    proof {
                        let tail = event_fields(ps.drop_first(), data@, ts.drop_first());
                        if tail is Some {
                            assert(prev + (seq![v] + tail->Some_0) =~= fields@ + tail->Some_0);
                        }
                    }
                    ti = ti + 1;
                },
                None => {
                    return None;
                },
            }
        } else {
            if data.len() == 0 {
                return None;
            }
            let ghost before = data@;
            let v = data.remove(0);
            proof {
                assert(data@ =~= before.drop_first());
            }
            let ghost prev = fields@;
            fields.push(v);
            proof {
                let tail = event_fields(ps.drop_first(), data@, ts);
                if tail is Some {
                    assert(prev + (seq![v] + tail->Some_0) =~= fields@ + tail->Some_0);
                }
            }
        }
        i = i + 1;
    }
    if data.len() != 0 || ti != log.topics.len() {
        return None;
    }
    proof {
        assert(fields@ + Seq::<FieldValue>::empty() =~= fields@);
    }
    Some(fields)
}

/// Decoding yields one value per parameter.
pub proof fn lemma_event_fields_len(params: Seq<EventParam>, data: Seq<FieldValue>, topics: Seq<Seq<u8>>)
    ensures
        event_fields(params, data, topics) matches Some(v) ==> v.len() == params.len(),
    decreases params.len(),
{
    if params.len() > 0 {
        if params[0].indexed {
            if topics.len() > 0 {
                lemma_event_fields_len(params.drop_first(), data, topics.drop_first());
            }
        } else if data.len() > 0 {
            lemma_event_fields_len(params.drop_first(), data.drop_first(), topics);
        }
    }
}

/// Decoding a log yields one value per parameter of the event.
pub proof fn lemma_decoded_event_len(e: EventDef, log: Log)
    ensures
        decoded_event(e, log) matches Some(v) ==> v.len() == e.params@.len(),
{
    if log.topics@.len() > 0 {
        if let Some(data) = abi_decoded(data_layout(e.params@), log.data@) {
            lemma_event_fields_len(e.params@, data, topic_views(log.topics@).drop_first());
        }
    }
}

/// Only one registered event can match a log of a well-formed registry.
pub proof fn lemma_dispatch_unique(reg: Registry, log: Log, c1: int, e1: int, c2: int, e2: int)
    requires
        reg.wf(),
        matches_at(reg, c1, e1, log),
        matches_at(reg, c2, e2, log),
    ensures
        c1 == c2 && e1 == e2,
{
    if c1 != c2 || e1 != e2 {
        assert(may_collide(
            reg.contracts@[c1],
            reg.contracts@[c1].events@[e1],
            reg.contracts@[c2],
            reg.contracts@[c2].events@[e2],
        ));
    }
}

impl Registry {
    /// Tries each registered event on the log, contract by contract in registration order,
    /// and returns the first that selects and decodes it.
    ///
    /// In a well-formed registry at most one event can match, so the result does not depend
    /// on the order in which the others are tried.
    pub fn match_and_decode(&self, log: &Log) -> (r: Option<DecodedEvent>)
        ensures
            r matches Some(d) ==> {
                &&& matches_at(*self, d.contract as int, d.event as int, *log)
                &&& decoded_event(self.contracts@[d.contract as int].events@[d.event as int], *log)
                    == Some(d.fields@)
                &&& forall|c: int, e: int|
                    #[trigger] matches_at(*self, c, e, *log) ==> d.contract < c || (d.contract == c
                        && d.event <= e)
            },
            r is None ==> forall|c: int, e: int| !#[trigger] matches_at(*self, c, e, *log),
            self.wf() ==> forall|c: int, e: int|
                #[trigger] matches_at(*self, c, e, *log) ==> (r matches Some(d) && d.contract == c
                    && d.event == e),
    {
        let mut ci: usize = 0;
        while ci < self.contracts.len()
            invariant
                ci <= self.contracts.len(),
                forall|c: int, e: int| 0 <= c < ci ==> !#[trigger] matches_at(*self, c, e, *log),
            decreases self.contracts.len() - ci,
        {
            let contract = &self.contracts[ci];
            let from_contract = match &contract.address {
                Some(a) => crate::fills::bytes_eq(a, &log.address),
                None => true,
            };
            let mut ei: usize = 0;
            while ei < contract.events.len()
                invariant
                    ci < self.contracts.len(),
                    ei <= contract.events.len(),
                    *contract == self.contracts@[ci as int],
                    from_contract == (contract.address matches Some(a) ==> a@ == log.address@),
                    forall|c: int, e: int| 0 <= c < ci ==> !#[trigger] matches_at(*self, c, e, *log),
                    forall|e: int| 0 <= e < ei ==> !#[trigger] matches_at(*self, ci as int, e, *log),
                decreases contract.events.len() - ei,
            {
                let event = &contract.events[ei];
                if from_contract && log.topics.len() >= 1 && crate::fills::bytes_eq(&log.topics[0], &event.topic) {
                    match decode_event(event, log) {
                        Some(fields) => {
                            let d = DecodedEvent { contract: ci, event: ei, fields };
                            proof {
                                assert forall|c: int, e: int| #[trigger] matches_at(*self, c, e, *log) implies d.contract
                                    < c || (d.contract == c && d.event <= e) by {
                                    if c < ci as int || (c == ci as int && e < ei as int) {
                                        assert(!matches_at(*self, c, e, *log));
                                    }
                                }
                                if self.wf() {
                                    assert forall|c: int, e: int| #[trigger] matches_at(*self, c, e, *log) implies (d.contract
                                        == c && d.event == e) by {
                                        lemma_dispatch_unique(*self, *log, c, e, ci as int, ei as int);
                                    }
                                }
                            }
                            return Some(d);
                        },
                        None => {},
                    }
                }
                ei = ei + 1;
            }
            proof {
                assert forall|c: int, e: int| 0 <= c < ci + 1 implies !#[trigger] matches_at(*self, c, e, *log) by {
                    if c == ci as int && 0 <= e < contract.events.len() {
                        assert(!matches_at(*self, ci as int, e, *log));
                    }
                }
            }
            ci = ci + 1;
        }
        None
    }
}

} // verus!

use vstd::prelude::*;
use crate::abi::{AbiType, FieldValue, TypeModel, abi_decode, abi_decoded, types_model};
use crate::amount::{U256, u256_lt};
use crate::decay::{DecayInformation, decay, decay_value};
use crate::encoding::{decimal, hex_lower, hex_string, u256_decimal, u64_text};
use crate::table::{Operation, TableChange, creates_only, field, key, key_view, writes_view};
use crate::order::{
    DutchInput, DutchOutput, ExclusiveDutchOrder, InputModel, OrderInfo, OrderInfoModel, OrderModel,
    OutputModel, array_of, as_array, as_bytes, as_tuple, bytes_of, decoded_order, tuple_of,
};
use crate::pb;
use crate::pb::TransactionInfoModel;

verus! {

/// The four reactor functions that fill orders.
#[derive(Clone, Copy, Debug, PartialEq, Eq)]
pub enum Selector {
    Execute,
    ExecuteWithCallback,
    ExecuteBatch,
    ExecuteBatchWithCallback,
}

/// The function a call's first four bytes select, if it is one of the four.
pub open spec fn selector_of(input: Seq<u8>) -> Option<Selector> {
    if input.len() < 4 {
        None
    } else {
        let s = input.subrange(0, 4);
        if s == seq![63u8, 98u8, 25u8, 46u8] {
            Some(Selector::Execute)
        } else if s == seq![13u8, 51u8, 88u8, 132u8] {
            Some(Selector::ExecuteWithCallback)
        } else if s == seq![13u8, 122u8, 22u8, 195u8] {
            Some(Selector::ExecuteBatch)
        } else if s == seq![19u8, 251u8, 114u8, 199u8] {
            Some(Selector::ExecuteBatchWithCallback)
        } else {
            None
        }
    }
}

/// Classifies a call by its function selector.
pub fn classify_selector(input: &Vec<u8>) -> (r: Option<Selector>)
    ensures
        r == selector_of(input@),
{
    if input.len() < 4 {
        return None;
    }
    let (a, b, c, d) = (input[0], input[1], input[2], input[3]);
    proof {
        let s = input@.subrange(0, 4);
        assert(s =~= seq![a, b, c, d]);
    }
    if a == 63 && b == 98 && c == 25 && d == 46 {
        Some(Selector::Execute)
    } else if a == 13 && b == 51 && c == 88 && d == 132 {
        Some(Selector::ExecuteWithCallback)
    } else if a == 13 && b == 122 && c == 22 && d == 195 {
        Some(Selector::ExecuteBatch)
    } else if a == 19 && b == 251 && c == 114 && d == 199 {
        Some(Selector::ExecuteBatchWithCallback)
    } else {
        None
    }
}

/// The ABI layout of a signed order: the encoded order and its signature.
pub open spec fn signed_order_layout() -> TypeModel {
    TypeModel::Tuple(seq![TypeModel::Bytes, TypeModel::Bytes])
}

/// The ABI layout of the arguments of each reactor function.
pub open spec fn call_layout(sel: Selector) -> Seq<TypeModel> {
    match sel {
        Selector::Execute => seq![signed_order_layout()],
        Selector::ExecuteWithCallback => seq![signed_order_layout(), TypeModel::Bytes],
        Selector::ExecuteBatch => seq![TypeModel::Array(Box::new(signed_order_layout()))],
        Selector::ExecuteBatchWithCallback => seq![
            TypeModel::Array(Box::new(signed_order_layout())),
            TypeModel::Bytes,
        ],
    }
}

pub open spec fn is_batch(sel: Selector) -> bool {
    sel == Selector::ExecuteBatch || sel == Selector::ExecuteBatchWithCallback
}

fn signed_order_params() -> (r: AbiType)
    ensures
        r.model() == signed_order_layout(),
{
    let r = AbiType::Tuple(vec![AbiType::Bytes, AbiType::Bytes]);
    proof {
        reveal_with_fuel(types_model, 3);
        assert(types_model(seq![AbiType::Bytes, AbiType::Bytes]) =~= seq![
            TypeModel::Bytes,
            TypeModel::Bytes,
        ]);
    }
    r
}

/// The ABI layout of the arguments of a reactor function.
pub fn call_params(sel: Selector) -> (r: Vec<AbiType>)
    ensures
        types_model(r@) == call_layout(sel),
{
    let r = match sel {
        Selector::Execute => vec![signed_order_params()],
        Selector::ExecuteWithCallback => vec![signed_order_params(), AbiType::Bytes],
        Selector::ExecuteBatch => vec![AbiType::Array(Box::new(signed_order_params()))],
        Selector::ExecuteBatchWithCallback => vec![
            AbiType::Array(Box::new(signed_order_params())),
            AbiType::Bytes,
        ],
    };
    proof {
        reveal_with_fuel(types_model, 3);
        assert(types_model(r@) =~= call_layout(sel));
    }
    r
}

/// The encoded order of a signed order.
pub open spec fn signed_order_bytes(v: FieldValue) -> Option<Seq<u8>> {
    match as_tuple(v) {
        Some(items) => if items.len() == 2 && as_bytes(items[0]) is Some && as_bytes(items[1]) is Some {
            as_bytes(items[0])
        } else {
            None
        },
        None => None,
    }
}

/// The encoded orders of a sequence of signed orders; `None` if any is malformed.
pub open spec fn signed_orders_bytes(vs: Seq<FieldValue>) -> Option<Seq<Seq<u8>>>
    decreases vs.len(),
{
    if vs.len() == 0 {
        Some(Seq::empty())
    } else {
        match (signed_orders_bytes(vs.drop_last()), signed_order_bytes(vs.last())) {
            (Some(init), Some(last)) => Some(init.push(last)),
            _ => None,
        }
    }
}

/// Why a call could not be read as a fill.
#[derive(Clone, Copy, Debug, PartialEq, Eq)]
pub enum CallError {
    /// The call is not to one of the four reactor functions.
    UnknownSelector,
    /// The selector is known but its arguments do not decode.
    Malformed,
}

/// The encoded orders that a call's input carries.
pub open spec fn call_order_bytes(input: Seq<u8>) -> Result<Seq<Seq<u8>>, CallError> {
    match selector_of(input) {
        None => Err(CallError::UnknownSelector),
        Some(sel) => match abi_decoded(call_layout(sel), input.subrange(4, input.len() as int)) {
            None => Err(CallError::Malformed),
            Some(vals) => if vals.len() != call_layout(sel).len() {
                Err(CallError::Malformed)
            } else if is_batch(sel) {
                match as_array(vals[0]) {
                    Some(items) => match signed_orders_bytes(items) {
                        Some(bs) => Ok(bs),
                        None => Err(CallError::Malformed),
                    },
                    None => Err(CallError::Malformed),
                }
            } else {
                match signed_order_bytes(vals[0]) {
                    Some(b) => Ok(seq![b]),
                    None => Err(CallError::Malformed),
                }
            },
        },
    }
}

/// The views of a sequence of byte strings.
pub open spec fn bytes_views(bs: Seq<Vec<u8>>) -> Seq<Seq<u8>> {
    bs.map_values(|b: Vec<u8>| b@)
}

fn signed_order_of(v: &FieldValue) -> (r: Option<Vec<u8>>)
    ensures
        r matches Some(b) ==> signed_order_bytes(*v) == Some(b@),
        r is None ==> signed_order_bytes(*v) is None,
{
    match tuple_of(v) {
        Some(items) => {
            if items.len() != 2 {
                return None;
            }
            match (bytes_of(&items[0]), bytes_of(&items[1])) {
                (Some(order), Some(_signature)) => Some(order),
                _ => None,
            }
        },
        None => None,
    }
}

/// A malformed entry in a prefix makes the whole sequence malformed.
proof fn lemma_signed_orders_none(vs: Seq<FieldValue>, k: nat)
    requires
        k <= vs.len(),
        signed_orders_bytes(vs.subrange(0, k as int)) is None,
    ensures
        signed_orders_bytes(vs) is None,
    decreases vs.len() - k,
{
    if k < vs.len() {
        assert(vs.subrange(0, k + 1 as int).drop_last() =~= vs.subrange(0, k as int));
        lemma_signed_orders_none(vs, k + 1);
    } else {
        assert(vs.subrange(0, k as int) =~= vs);
    }
}

fn signed_orders_of(vs: &Vec<FieldValue>) -> (r: Option<Vec<Vec<u8>>>)
    ensures
        r matches Some(bs) ==> signed_orders_bytes(vs@) == Some(bytes_views(bs@)),
        r is None ==> signed_orders_bytes(vs@) is None,
{
    let mut bs: Vec<Vec<u8>> = Vec::new();
    let mut i: usize = 0;
    while i < vs.len()
        invariant
            i <= vs.len(),
            signed_orders_bytes(vs@.subrange(0, i as int)) == Some(bytes_views(bs@)),
        decreases vs.len() - i,
    {
        proof {
            assert(vs@.subrange(0, i + 1).drop_last() =~= vs@.subrange(0, i as int));
            assert(vs@.subrange(0, i + 1).last() == vs@[i as int]);
        }
        let ghost prev = bs@;
        match signed_order_of(&vs[i]) {
            Some(b) => {
                bs.push(b);
                proof {
                    assert(bytes_views(bs@) =~= bytes_views(prev).push(b@));
                }
            },
            None => {
                proof {
                    lemma_signed_orders_none(vs@, (i + 1) as nat);
                }
                return None;
            },
        }
        i = i + 1;
    }
    proof {
        assert(vs@.subrange(0, vs.len() as int) =~= vs@);
    }
    Some(bs)
}

/// The bytes of `input` from `start` on.
fn tail_bytes(input: &Vec<u8>, start: usize) -> (r: Vec<u8>)
    requires
        start <= input.len(),
    ensures
        r@ == input@.subrange(start as int, input.len() as int),
{
    let mut r: Vec<u8> = Vec::new();
    let mut i: usize = start;
    while i < input.len()
        invariant
            start <= i <= input.len(),
            r@ == input@.subrange(start as int, i as int),
        decreases input.len() - i,
    {
        r.push(input[i]);
        proof {
            assert(r@ =~= input@.subrange(start as int, i + 1));
        }
        i = i + 1;
    }
    r
}

/// Reads the encoded orders that a call to the reactor carries.
///
/// An unknown selector means the call fills no order; a known selector whose arguments do not
/// decode is malformed.
pub fn decode_call_orders(input: &Vec<u8>) -> (r: Result<Vec<Vec<u8>>, CallError>)
    ensures
        r matches Ok(bs) ==> call_order_bytes(input@) == Ok::<Seq<Seq<u8>>, CallError>(bytes_views(bs@)),
        r matches Err(e) ==> call_order_bytes(input@) == Err::<Seq<Seq<u8>>, CallError>(e),
{
    let sel = match classify_selector(input) {
        Some(sel) => sel,
        None => return Err(CallError::UnknownSelector),
    };
    let params = call_params(sel);
    proof {
        crate::abi::lemma_types_model(params@);
    }
    let data = tail_bytes(input, 4);
    let vals = match abi_decode(&params, &data) {
        Some(vals) => vals,
        None => return Err(CallError::Malformed),
    };
    if vals.len() != params.len() {
        return Err(CallError::Malformed);
    }
    match sel {
        Selector::ExecuteBatch | Selector::ExecuteBatchWithCallback => {
            match array_of(&vals[0]) {
                Some(items) => match signed_orders_of(items) {
                    Some(bs) => Ok(bs),
                    None => Err(CallError::Malformed),
                },
                None => Err(CallError::Malformed),
            }
        },
        _ => match signed_order_of(&vals[0]) {
            Some(b) => {
                let r = vec![b];
                proof {
                    assert(bytes_views(r@) =~= seq![b@]);
                }
                Ok(r)
            },
            None => Err(CallError::Malformed),
        },
    }
}

/// The deadline as recorded: its value, or the largest 32-bit value where it is larger.
pub open spec fn clamped_deadline(d: nat) -> nat {
    if d > 0xffff_ffff {
        0xffff_ffff
    } else {
        d
    }
}

/// A record of general terms states the terms `m`.
pub open spec fn info_proto_matches(p: pb::OrderInfo, m: OrderInfoModel) -> bool {
    &&& p.reactor@ == m.reactor
    &&& p.swapper@ == m.swapper
    &&& p.nonce@ == decimal(m.nonce.value())
    &&& p.deadline@ == decimal(clamped_deadline(m.deadline.value()))
    &&& p.additional_validation_contract@ == m.additional_validation_contract
    &&& p.additional_validation_data@ == m.additional_validation_data
}

/// The amount of a leg with amounts `s` and `e` under `info`.
pub open spec fn decayed(info: DecayInformation, s: U256, e: U256) -> nat {
    decay_value(
        info.now.value(),
        info.decay_start_time.value(),
        info.decay_end_time.value(),
        s.value(),
        e.value(),
    )
}

/// An input record states the leg `m` and its amount under `info`.
pub open spec fn input_proto_matches(p: pb::DutchInput, m: InputModel, info: DecayInformation) -> bool {
    &&& p.token@ == m.token
    &&& p.start_amount@ == decimal(m.start_amount.value())
    &&& p.end_amount@ == decimal(m.end_amount.value())
    &&& p.decayed_amount@ == decimal(decayed(info, m.start_amount, m.end_amount))
}

/// An output record states the leg `m` and its amount under `info`.
pub open spec fn output_proto_matches(p: pb::DutchOutput, m: OutputModel, info: DecayInformation) -> bool {
    &&& p.token@ == m.token
    &&& p.recipient@ == m.recipient
    &&& p.start_amount@ == decimal(m.start_amount.value())
    &&& p.end_amount@ == decimal(m.end_amount.value())
    &&& p.decayed_amount@ == decimal(decayed(info, m.start_amount, m.end_amount))
}

/// The decay window of order `m` evaluated at the block time of `tx`.
pub open spec fn decay_info_of(m: OrderModel, tx: TransactionInfoModel) -> DecayInformation {
    DecayInformation {
        now: U256 { limbs: [tx.block_time as u64, 0, 0, 0] },
        decay_start_time: m.decay_start,
        decay_end_time: m.decay_end,
    }
}

/// An order record states the order `m`, filled in the context `tx`.
pub open spec fn order_proto_matches(p: pb::ExclusiveDutchOrder, m: OrderModel, tx: TransactionInfoModel) -> bool {
    let info = decay_info_of(m, tx);
    &&& p.info matches Some(i) && info_proto_matches(i, m.info)
    &&& p.tx_info matches Some(t) && t.view() == tx
    &&& p.decay_start_time@ == decimal(m.decay_start.value())
    &&& p.decay_end_time@ == decimal(m.decay_end.value())
    &&& p.exclusive_filler@ == m.exclusive_filler
    &&& p.exclusivity_override_bps@ == decimal(m.exclusivity_override_bps.value())
    &&& p.input matches Some(inp) && input_proto_matches(inp, m.input, info)
    &&& p.outputs@.len() == m.outputs.len()
    &&& forall|k: int|
        0 <= k < m.outputs.len() ==> output_proto_matches(#[trigger] p.outputs@[k], m.outputs[k], info)
}

impl OrderInfo {
    /// The general terms in record form; a deadline past 32 bits is recorded as the largest
    /// 32-bit value.
    pub fn to_proto(&self) -> (r: pb::OrderInfo)
        ensures
            info_proto_matches(r, self.view()),
    {
        let max = U256::from_u64(0xffff_ffff);
        let deadline = if u256_lt(max, self.deadline) {
            max
        } else {
            self.deadline
        };
        pb::OrderInfo {
            reactor: self.reactor.clone(),
            swapper: self.swapper.clone(),
            nonce: u256_decimal(self.nonce),
            deadline: u256_decimal(deadline),
            additional_validation_contract: self.additional_validation_contract.clone(),
            additional_validation_data: self.additional_validation_data.clone(),
        }
    }
}

/// The amount of a leg under a valid decay window.
fn decayed_amount(info: DecayInformation, start_amount: U256, end_amount: U256) -> (r: U256)
    requires
        info.decay_start_time.value() <= info.decay_end_time.value(),
    ensures
        r.value() == decayed(info, start_amount, end_amount),
{
    match decay(info, start_amount, end_amount) {
        Ok(v) => v,
        Err(_) => start_amount,
    }
}

impl DutchInput {
    /// The input leg in record form, with its amount under `decay_info`.
    pub fn into_proto(&self, decay_info: DecayInformation) -> (r: pb::DutchInput)
        requires
            decay_info.decay_start_time.value() <= decay_info.decay_end_time.value(),
        ensures
            input_proto_matches(r, self.view(), decay_info),
    {
        pb::DutchInput {
            token: self.token.clone(),
            start_amount: u256_decimal(self.start_amount),
            end_amount: u256_decimal(self.end_amount),
            decayed_amount: u256_decimal(decayed_amount(decay_info, self.start_amount, self.end_amount)),
        }
    }
}

impl DutchOutput {
    /// The output leg in record form, with its amount under `decay_info`.
    pub fn into_proto(&self, decay_info: DecayInformation) -> (r: pb::DutchOutput)
        requires
            decay_info.decay_start_time.value() <= decay_info.decay_end_time.value(),
        ensures
            output_proto_matches(r, self.view(), decay_info),
    {
        pb::DutchOutput {
            token: self.token.clone(),
            start_amount: u256_decimal(self.start_amount),
            end_amount: u256_decimal(self.end_amount),
            recipient: self.recipient.clone(),
            decayed_amount: u256_decimal(decayed_amount(decay_info, self.start_amount, self.end_amount)),
        }
    }
}

/// Why the fills of a block could not be read.
#[derive(Clone, Copy, Debug, PartialEq, Eq)]
pub enum FillError {
    /// A call to a known reactor function whose arguments do not decode.
    MalformedCall,
    /// An encoded order that does not decode.
    MalformedOrder,
    /// An order whose decay window ends before it starts.
    InvalidDecayWindow,
}

impl ExclusiveDutchOrder {
    /// The order in record form, filled in the context `tx_info`, with every leg evaluated at
    /// the block time.
    ///
    /// Fails exactly when the order's decay window ends before it starts.
    pub fn into_proto(&self, tx_info: pb::TransactionInfo) -> (r: Result<pb::ExclusiveDutchOrder, FillError>)
        requires
            tx_info.block_time >= 0,
        ensures
            r is Err <==> self.decay_end_timer.value() < self.decay_start_timer.value(),
            r matches Err(e) ==> e == FillError::InvalidDecayWindow,
            r matches Ok(p) ==> order_proto_matches(p, self.view(), tx_info.view()),
    {
        if u256_lt(self.decay_end_timer, self.decay_start_timer) {
            return Err(FillError::InvalidDecayWindow);
        }
        let now = U256 { limbs: [tx_info.block_time as u64, 0, 0, 0] };
        let decay_info = DecayInformation {
            now,
            decay_start_time: self.decay_start_timer,
            decay_end_time: self.decay_end_timer,
        };
        proof {
            assert(decay_info == decay_info_of(self.view(), tx_info.view()));
        }
        let mut outputs: Vec<pb::DutchOutput> = Vec::new();
        let mut i: usize = 0;
        while i < self.outputs.len()
            invariant
                i <= self.outputs.len(),
                outputs@.len() == i,
                decay_info.decay_start_time.value() <= decay_info.decay_end_time.value(),
                forall|k: int|
                    0 <= k < i ==> output_proto_matches(
                        #[trigger] outputs@[k],
                        self.outputs@[k].view(),
                        decay_info,
                    ),
            decreases self.outputs.len() - i,
        {
            outputs.push(self.outputs[i].into_proto(decay_info));
            i = i + 1;
        }
        Ok(
            pb::ExclusiveDutchOrder {
                info: Some(self.order_info.to_proto()),
                tx_info: Some(tx_info),
                decay_start_time: u256_decimal(self.decay_start_timer),
                decay_end_time: u256_decimal(self.decay_end_timer),
                exclusive_filler: self.exclusive_filler.clone(),
                exclusivity_override_bps: u256_decimal(self.exclusivity_override_bps),
                input: Some(self.input.into_proto(decay_info)),
                outputs,
            },
        )
    }
}

/// A log emitted during a call, paired with that call and its transaction.
#[derive(Debug)]
pub struct FillCall {
    pub log_address: Vec<u8>,
    pub log_topics: Vec<Vec<u8>>,
    pub log_index: u32,
    pub from: Vec<u8>,
    pub to: Vec<u8>,
    pub caller: Vec<u8>,
    pub tx_hash: Vec<u8>,
    pub input: Vec<u8>,
}

/// The deployment that fills are read for.
#[derive(Debug)]
pub struct FillsConfig {
    /// The reactor contract whose fills are read.
    pub tracked_contract: Vec<u8>,
    /// The first topic of the reactor's fill event.
    pub fill_topic: Vec<u8>,
    /// The recipient of protocol fees, whose leg is reported apart.
    pub fee_recipient: Vec<u8>,
}

/// The log is a fill event of the tracked reactor.
pub open spec fn is_fill(cfg: FillsConfig, c: FillCall) -> bool {
    &&& c.log_address@ == cfg.tracked_contract@
    &&& c.log_topics@.len() >= 1
    &&& c.log_topics@[0]@ == cfg.fill_topic@
}

/// The orders that encoded bytes hold; `None` if any does not decode.
pub open spec fn orders_of_bytes(bs: Seq<Seq<u8>>) -> Option<Seq<OrderModel>>
    decreases bs.len(),
{
    if bs.len() == 0 {
        Some(Seq::empty())
    } else {
        match (orders_of_bytes(bs.drop_last()), decoded_order(bs.last())) {
            (Some(init), Some(last)) => Some(init.push(last)),
            _ => None,
        }
    }
}

/// Every order's decay window ends no earlier than it starts.
pub open spec fn windows_valid(ms: Seq<OrderModel>) -> bool {
    forall|k: int| 0 <= k < ms.len() ==> (#[trigger] ms[k]).decay_start.value() <= ms[k].decay_end.value()
}

/// The orders a log and its call fill, or why they cannot be read.
pub open spec fn fill_outcome(cfg: FillsConfig, c: FillCall) -> Result<Seq<OrderModel>, FillError> {
    if !is_fill(cfg, c) {
        Ok(Seq::empty())
    } else {
        match call_order_bytes(c.input@) {
            Err(CallError::UnknownSelector) => Ok(Seq::empty()),
            Err(CallError::Malformed) => Err(FillError::MalformedCall),
            Ok(bs) => match orders_of_bytes(bs) {
                None => Err(FillError::MalformedOrder),
                Some(ms) => if windows_valid(ms) {
                    Ok(ms)
                } else {
                    Err(FillError::InvalidDecayWindow)
                },
            },
        }
    }
}

/// The context recorded with the orders of a call.
pub open spec fn fill_context(c: FillCall, block_time: i64, block_number: u64) -> TransactionInfoModel {
    TransactionInfoModel {
        from: c.from@,
        to: c.to@,
        caller: c.caller@,
        block_time,
        block_number,
        tx_hash: c.tx_hash@,
        log_index: c.log_index,
    }
}

/// The orders filled by a sequence of calls, each with its context, in order.
pub open spec fn flat_fills(cfg: FillsConfig, calls: Seq<FillCall>, block_time: i64, block_number: u64) -> Seq<
    (OrderModel, TransactionInfoModel),
>
    decreases calls.len(),
{
    if calls.len() == 0 {
        Seq::empty()
    } else {
        let c = calls.last();
        flat_fills(cfg, calls.drop_last(), block_time, block_number) + match fill_outcome(cfg, c) {
            Ok(ms) => ms.map_values(
                |m: OrderModel| (m, fill_context(c, block_time, block_number)),
            ),
            Err(_) => Seq::empty(),
        }
    }
}

/// Whether two byte strings are equal.
pub fn bytes_eq(a: &Vec<u8>, b: &Vec<u8>) -> (r: bool)
    ensures
        r == (a@ == b@),
{
    if a.len() != b.len() {
        return false;
    }
    let mut i: usize = 0;
    while i < a.len()
        invariant
            i <= a.len() == b.len(),
            forall|k: int| 0 <= k < i ==> a@[k] == b@[k],
        decreases a.len() - i,
    {
        if a[i] != b[i] {
            return false;
        }
        i = i + 1;
    }
    proof {
        assert(a@ =~= b@);
    }
    true
}

fn is_fill_call(cfg: &FillsConfig, c: &FillCall) -> (r: bool)
    ensures
        r == is_fill(*cfg, *c),
{
    bytes_eq(&c.log_address, &cfg.tracked_contract) && c.log_topics.len() >= 1 && bytes_eq(
        &c.log_topics[0],
        &cfg.fill_topic,
    )
}

/// A malformed order in a prefix makes the whole sequence malformed.
proof fn lemma_orders_none(bs: Seq<Seq<u8>>, k: nat)
    requires
        k <= bs.len(),
        orders_of_bytes(bs.subrange(0, k as int)) is None,
    ensures
        orders_of_bytes(bs) is None,
    decreases bs.len() - k,
{
    if k < bs.len() {
        assert(bs.subrange(0, k + 1 as int).drop_last() =~= bs.subrange(0, k as int));
        lemma_orders_none(bs, k + 1);
    } else {
        assert(bs.subrange(0, k as int) =~= bs);
    }
}

/// The views of a sequence of orders, in order.
pub open spec fn orders_view(os: Seq<ExclusiveDutchOrder>) -> Seq<OrderModel> {
    os.map_values(|o: ExclusiveDutchOrder| o.view())
}

/// Decodes every encoded order; fails if any does not decode.
fn decode_orders(bs: &Vec<Vec<u8>>) -> (r: Option<Vec<ExclusiveDutchOrder>>)
    ensures
        r matches Some(os) ==> orders_of_bytes(bytes_views(bs@)) == Some(orders_view(os@)),
        r is None ==> orders_of_bytes(bytes_views(bs@)) is None,
{
    let ghost views = bytes_views(bs@);
    let mut os: Vec<ExclusiveDutchOrder> = Vec::new();
    let mut i: usize = 0;
    while i < bs.len()
        invariant
            i <= bs.len(),
            views == bytes_views(bs@),
            orders_of_bytes(views.subrange(0, i as int)) == Some(orders_view(os@)),
        decreases bs.len() - i,
    {
        proof {
            assert(views.subrange(0, i + 1).drop_last() =~= views.subrange(0, i as int));
            assert(views.subrange(0, i + 1).last() == bs@[i as int]@);
        }
        let ghost prev = os@;
        match ExclusiveDutchOrder::try_from(&bs[i]) {
            Ok(o) => {
                os.push(o);
                proof {
                    assert(orders_view(os@) =~= orders_view(prev).push(o.view()));
                }
            },
            Err(_) => {
                proof {
                    lemma_orders_none(views, (i + 1) as nat);
                }
                return None;
            },
        }
        i = i + 1;
    }
    proof {
        assert(views.subrange(0, bs.len() as int) =~= views);
    }
    Some(os)
}

/// The context recorded with the orders of a call.
fn context_of(c: &FillCall, block_time: i64, block_number: u64) -> (r: pb::TransactionInfo)
    ensures
        r.view() == fill_context(*c, block_time, block_number),
{
    pb::TransactionInfo {
        from: c.from.clone(),
        to: c.to.clone(),
        caller: c.caller.clone(),
        block_time,
        block_number,
        tx_hash: c.tx_hash.clone(),
        log_index: c.log_index,
    }
}

/// The order records of one log and its call: none unless the log is a fill of the tracked
/// reactor and the call is to one of the four reactor functions.
pub fn fill_orders(cfg: &FillsConfig, c: &FillCall, block_time: i64, block_number: u64) -> (r: Result<
    Vec<pb::ExclusiveDutchOrder>,
    FillError,
>)
    requires
        block_time >= 0,
    ensures
        r is Ok <==> fill_outcome(*cfg, *c) is Ok,
        r matches Err(e) ==> fill_outcome(*cfg, *c) == Err::<Seq<OrderModel>, FillError>(e),
        r matches Ok(ps) ==> ({
            let ms = fill_outcome(*cfg, *c)->Ok_0;
            &&& ps@.len() == ms.len()
            &&& forall|k: int|
                0 <= k < ms.len() ==> order_proto_matches(
                    #[trigger] ps@[k],
                    ms[k],
                    fill_context(*c, block_time, block_number),
                )
        }),
{
    if !is_fill_call(cfg, c) {
        return Ok(Vec::new());
    }
    let bs = match decode_call_orders(&c.input) {
        Ok(bs) => bs,
        Err(CallError::UnknownSelector) => return Ok(Vec::new()),
        Err(CallError::Malformed) => return Err(FillError::MalformedCall),
    };
    let orders = match decode_orders(&bs) {
        Some(orders) => orders,
        None => return Err(FillError::MalformedOrder),
    };
    let ghost ms = orders_view(orders@);
    let mut i: usize = 0;
    while i < orders.len()
        invariant
            i <= orders.len(),
            ms == orders_view(orders@),
            is_fill(*cfg, *c),
            call_order_bytes(c.input@) == Ok::<Seq<Seq<u8>>, CallError>(bytes_views(bs@)),
            orders_of_bytes(bytes_views(bs@)) == Some(ms),
            forall|k: int| 0 <= k < i ==> (#[trigger] ms[k]).decay_start.value() <= ms[k].decay_end.value(),
        decreases orders.len() - i,
    {
        if u256_lt(orders[i].decay_end_timer, orders[i].decay_start_timer) {
            proof {
                assert(ms[i as int] == orders@[i as int].view());
                assert(!windows_valid(ms));
            }
            return Err(FillError::InvalidDecayWindow);
        }
        i = i + 1;
    }
    let mut ps: Vec<pb::ExclusiveDutchOrder> = Vec::new();
    let mut j: usize = 0;
    while j < orders.len()
        invariant
            j <= orders.len(),
            block_time >= 0,
            ms == orders_view(orders@),
            windows_valid(ms),
            ps@.len() == j,
            forall|k: int|
                0 <= k < j ==> order_proto_matches(
                    #[trigger] ps@[k],
                    ms[k],
                    fill_context(*c, block_time, block_number),
                ),
        decreases orders.len() - j,
    {
        assert(ms[j as int].decay_start.value() <= ms[j as int].decay_end.value());
        assert(ms[j as int] == orders@[j as int].view());
        match orders[j].into_proto(context_of(c, block_time, block_number)) {
            Ok(p) => ps.push(p),
            Err(e) => return Err(e),
        }
        j = j + 1;
    }
    Ok(ps)
}

/// Reads the orders filled in a block: for every log of the tracked reactor's fill event, the
/// orders that its enclosing call executes, in order, each with the call's context.
///
/// Fails, with the first failing log's error, when a call to a reactor function is malformed,
/// an order does not decode, or an order's decay window ends before it starts.
pub fn map_fills(config: &FillsConfig, block_time: i64, block_number: u64, calls: &Vec<FillCall>) -> (r:
    Result<pb::Orders, FillError>)
    requires
        block_time >= 0,
    ensures
        r is Ok <==> forall|i: int| 0 <= i < calls.len() ==> (#[trigger] fill_outcome(*config, calls@[i])) is Ok,
        r matches Err(e) ==> exists|i: int|
            0 <= i < calls.len() && fill_outcome(*config, calls@[i]) == Err::<Seq<OrderModel>, FillError>(e),
        r matches Ok(res) ==> ({
            let flat = flat_fills(*config, calls@, block_time, block_number);
            &&& res.orders@.len() == flat.len()
            &&& forall|k: int|
                0 <= k < flat.len() ==> order_proto_matches(#[trigger] res.orders@[k], flat[k].0, flat[k].1)
        }),
{
    let mut orders: Vec<pb::ExclusiveDutchOrder> = Vec::new();
    let mut i: usize = 0;
    while i < calls.len()
        invariant
            i <= calls.len(),
            block_time >= 0,
            forall|j: int| 0 <= j < i ==> (#[trigger] fill_outcome(*config, calls@[j])) is Ok,
            ({
                let flat = flat_fills(*config, calls@.subrange(0, i as int), block_time, block_number);
                &&& orders@.len() == flat.len()
                &&& forall|k: int|
                    0 <= k < flat.len() ==> order_proto_matches(#[trigger] orders@[k], flat[k].0, flat[k].1)
            }),
        decreases calls.len() - i,
    {
        let ghost before = flat_fills(*config, calls@.subrange(0, i as int), block_time, block_number);
        proof {
            assert(calls@.subrange(0, i + 1).drop_last() =~= calls@.subrange(0, i as int));
            assert(calls@.subrange(0, i + 1).last() == calls@[i as int]);
        }
        let ps = match fill_orders(config, &calls[i], block_time, block_number) {
            Ok(ps) => ps,
            Err(e) => return Err(e),
        };
        let ghost ms = fill_outcome(*config, calls@[i as int])->Ok_0;
        let ghost ctx = fill_context(calls@[i as int], block_time, block_number);
        let ghost added = ms.map_values(|m: OrderModel| (m, ctx));
        let ghost after = flat_fills(*config, calls@.subrange(0, i + 1), block_time, block_number);
        proof {
            assert(after == before + added);
        }
        let mut ps = ps;
        let mut j: usize = 0;
        let ghost base = orders@.len();
        let ghost all_ps = ps@;
        let n = ps.len();
        while j < n
            invariant
                n == all_ps.len(),
                0 <= j <= all_ps.len(),
                all_ps.len() == ms.len(),
                ps@ == all_ps.subrange(j as int, all_ps.len() as int),
                orders@.len() == base + j,
                base == before.len(),
                after == before + added,
                added == ms.map_values(|m: OrderModel| (m, ctx)),
                forall|k: int|
                    0 <= k < ms.len() ==> order_proto_matches(#[trigger] all_ps[k], ms[k], ctx),
                forall|k: int|
                    0 <= k < base + j ==> order_proto_matches(#[trigger] orders@[k], after[k].0, after[k].1),
            decreases all_ps.len() - j,
        {
            let p = ps.remove(0);
            proof {
                assert(p == all_ps[j as int]);
                assert(ps@ =~= all_ps.subrange(j + 1, all_ps.len() as int));
                assert(after[base + j] == added[j as int]);
            }
            orders.push(p);
            j = j + 1;
        }
        i = i + 1;
    }
    proof {
        assert(calls@.subrange(0, calls.len() as int) =~= calls@);
    }
    Ok(pb::Orders { orders })
}

/// The position of the first output leg whose recipient is (`to_fee`) or is not (`!to_fee`)
/// the fee recipient.
pub open spec fn first_leg(outs: Seq<pb::DutchOutput>, fee: Seq<u8>, to_fee: bool) -> Option<int>
    decreases outs.len(),
{
    if outs.len() == 0 {
        None
    } else {
        match first_leg(outs.drop_last(), fee, to_fee) {
            Some(i) => Some(i),
            None => if (outs.last().recipient@ == fee) == to_fee {
                Some(outs.len() - 1)
            } else {
                None
            },
        }
    }
}

proof fn lemma_first_leg_bound(outs: Seq<pb::DutchOutput>, fee: Seq<u8>, to_fee: bool)
    ensures
        first_leg(outs, fee, to_fee) matches Some(i) ==> 0 <= i < outs.len() && (outs[i].recipient@
            == fee) == to_fee,
    decreases outs.len(),
{
    if outs.len() > 0 {
        lemma_first_leg_bound(outs.drop_last(), fee, to_fee);
    }
}

/// Finds the first output leg whose recipient is, or is not, the fee recipient.
fn find_leg(outs: &Vec<pb::DutchOutput>, fee: &Vec<u8>, to_fee: bool) -> (r: Option<usize>)
    ensures
        r matches Some(i) ==> first_leg(outs@, fee@, to_fee) == Some(i as int),
        r is None ==> first_leg(outs@, fee@, to_fee) is None,
{
    let mut i: usize = 0;
    while i < outs.len()
        invariant
            i <= outs.len(),
            first_leg(outs@.subrange(0, i as int), fee@, to_fee) is None,
        decreases outs.len() - i,
    {
        proof {
            assert(outs@.subrange(0, i + 1).drop_last() =~= outs@.subrange(0, i as int));
        }
        if bytes_eq(&outs[i].recipient, fee) == to_fee {
            proof {
                lemma_first_leg_prefix(outs@, fee@, to_fee, (i + 1) as nat);
            }
            return Some(i);
        }
        i = i + 1;
    }
    proof {
        assert(outs@.subrange(0, outs.len() as int) =~= outs@);
    }
    None
}

/// Once found in a prefix, the first matching leg stays the first.
proof fn lemma_first_leg_prefix(outs: Seq<pb::DutchOutput>, fee: Seq<u8>, to_fee: bool, k: nat)
    requires
        k <= outs.len(),
        first_leg(outs.subrange(0, k as int), fee, to_fee) is Some,
    ensures
        first_leg(outs, fee, to_fee) == first_leg(outs.subrange(0, k as int), fee, to_fee),
    decreases outs.len() - k,
{
    if k < outs.len() {
        assert(outs.subrange(0, k + 1 as int).drop_last() =~= outs.subrange(0, k as int));
        lemma_first_leg_prefix(outs, fee, to_fee, k + 1);
    } else {
        assert(outs.subrange(0, k as int) =~= outs);
    }
}

/// The fee leg's decayed amount, or `0` when the order pays no fee.
pub open spec fn fee_text(o: pb::ExclusiveDutchOrder, fee: Seq<u8>) -> Seq<char> {
    match first_leg(o.outputs@, fee, true) {
        Some(i) => o.outputs@[i].decayed_amount@,
        None => "0"@,
    }
}

/// The composite key of a fill row.
pub open spec fn fill_row_key(tx: pb::TransactionInfo) -> Seq<(Seq<char>, Seq<char>)> {
    seq![
        ("tx_block_time"@, decimal(tx.block_time as nat)),
        ("tx_block_number"@, decimal(tx.block_number as nat)),
        ("tx_hash"@, hex_lower(tx.tx_hash@)),
        ("tx_log_index"@, decimal(tx.log_index as nat)),
    ]
}

/// The columns of a fill row: the order's terms, its context, its input leg, its first leg
/// not paid to the fee recipient, and the fee.
pub open spec fn fill_row_columns(o: pb::ExclusiveDutchOrder, out: pb::DutchOutput, fee: Seq<u8>) -> Seq<
    (Seq<char>, Seq<char>),
> {
    let info = o.info->Some_0;
    let tx = o.tx_info->Some_0;
    let input = o.input->Some_0;
    seq![
        ("reactor"@, hex_lower(info.reactor@)),
        ("swapper"@, hex_lower(info.swapper@)),
        ("nonce"@, info.nonce@),
        ("deadline"@, info.deadline@),
        ("additional_validation_contract"@, hex_lower(info.additional_validation_contract@)),
        ("additional_validation_data"@, hex_lower(info.additional_validation_data@)),
        ("tx_from"@, hex_lower(tx.from@)),
        ("tx_to"@, hex_lower(tx.to@)),
        ("tx_caller"@, hex_lower(tx.caller@)),
        ("decay_start_time"@, o.decay_start_time@),
        ("decay_end_time"@, o.decay_end_time@),
        ("exclusive_filler"@, hex_lower(o.exclusive_filler@)),
        ("exclusivity_override_bps"@, o.exclusivity_override_bps@),
        ("input_token"@, hex_lower(input.token@)),
        ("input_start_amount"@, input.start_amount@),
        ("input_end_amount"@, input.end_amount@),
        ("input_decayed_amount"@, input.decayed_amount@),
        ("output_token"@, hex_lower(out.token@)),
        ("output_recipient"@, hex_lower(out.recipient@)),
        ("output_start_amount"@, out.start_amount@),
        ("output_end_amount"@, out.end_amount@),
        ("output_decayed_amount"@, out.decayed_amount@),
        ("fee_decayed_amount"@, fee_text(o, fee)),
    ]
}

/// A record carries the parts a fill row is made of.
pub open spec fn row_ready(o: pb::ExclusiveDutchOrder) -> bool {
    &&& o.info is Some
    &&& o.input is Some
    &&& o.tx_info matches Some(tx) && tx.block_time >= 0
}

/// The orders that get a row: those with a leg not paid to the fee recipient.
pub open spec fn kept_orders(os: Seq<pb::ExclusiveDutchOrder>, fee: Seq<u8>) -> Seq<pb::ExclusiveDutchOrder>
    decreases os.len(),
{
    if os.len() == 0 {
        Seq::empty()
    } else if first_leg(os.last().outputs@, fee, false) is Some {
        kept_orders(os.drop_last(), fee).push(os.last())
    } else {
        kept_orders(os.drop_last(), fee)
    }
}

/// The row change of a fill states order `o`.
pub open spec fn row_matches(tc: TableChange, o: pb::ExclusiveDutchOrder, fee: Seq<u8>) -> bool {
    &&& tc.table@ == "exclusive_dutch_auction_fills"@
    &&& key_view(tc.keys@) == fill_row_key(o.tx_info->Some_0)
    &&& tc.ordinal == 0
    &&& tc.operation == Operation::Create
    &&& creates_only(tc.fields@)
    &&& writes_view(tc.fields@) == fill_row_columns(
        o,
        o.outputs@[first_leg(o.outputs@, fee, false)->Some_0],
        fee,
    )
}

/// The row of one order, or none when every output leg goes to the fee recipient.
pub fn fill_row(o: &pb::ExclusiveDutchOrder, fee_recipient: &Vec<u8>) -> (r: Option<TableChange>)
    requires
        row_ready(*o),
    ensures
        r is Some <==> first_leg(o.outputs@, fee_recipient@, false) is Some,
        r matches Some(tc) ==> row_matches(tc, *o, fee_recipient@),
{
    let out_index = match find_leg(&o.outputs, fee_recipient, false) {
        Some(i) => i,
        None => return None,
    };
    proof {
        lemma_first_leg_bound(o.outputs@, fee_recipient@, false);
        lemma_first_leg_bound(o.outputs@, fee_recipient@, true);
    }
    let out = &o.outputs[out_index];
    let fee = match find_leg(&o.outputs, fee_recipient, true) {
        Some(i) => o.outputs[i].decayed_amount.clone(),
        None => String::from_str("0"),
    };
    let (info, tx, input) = match (&o.info, &o.tx_info, &o.input) {
        (Some(info), Some(tx), Some(input)) => (info, tx, input),
        _ => return None,
    };
    let keys = vec![
        key("tx_block_time", u64_text(tx.block_time as u64)),
        key("tx_block_number", u64_text(tx.block_number)),
        key("tx_hash", hex_string(&tx.tx_hash)),
        key("tx_log_index", u64_text(tx.log_index as u64)),
    ];
    let fields = vec![
        field("reactor", hex_string(&info.reactor)),
        field("swapper", hex_string(&info.swapper)),
        field("nonce", info.nonce.clone()),
        field("deadline", info.deadline.clone()),
        field("additional_validation_contract", hex_string(&info.additional_validation_contract)),
        field("additional_validation_data", hex_string(&info.additional_validation_data)),
        field("tx_from", hex_string(&tx.from)),
        field("tx_to", hex_string(&tx.to)),
        field("tx_caller", hex_string(&tx.caller)),
        field("decay_start_time", o.decay_start_time.clone()),
        field("decay_end_time", o.decay_end_time.clone()),
        field("exclusive_filler", hex_string(&o.exclusive_filler)),
        field("exclusivity_override_bps", o.exclusivity_override_bps.clone()),
        field("input_token", hex_string(&input.token)),
        field("input_start_amount", input.start_amount.clone()),
        field("input_end_amount", input.end_amount.clone()),
        field("input_decayed_amount", input.decayed_amount.clone()),
        field("output_token", hex_string(&out.token)),
        field("output_recipient", hex_string(&out.recipient)),
        field("output_start_amount", out.start_amount.clone()),
        field("output_end_amount", out.end_amount.clone()),
        field("output_decayed_amount", out.decayed_amount.clone()),
        field("fee_decayed_amount", fee),
    ];
    let tc = TableChange {
        table: String::from_str("exclusive_dutch_auction_fills"),
        keys,
        ordinal: 0,
        operation: Operation::Create,
        fields,
    };
    proof {
        assert(key_view(tc.keys@) =~= fill_row_key(o.tx_info->Some_0));
        assert(writes_view(tc.fields@) =~= fill_row_columns(
            *o,
            o.outputs@[first_leg(o.outputs@, fee_recipient@, false)->Some_0],
            fee_recipient@,
        ));
    }
    Some(tc)
}

/// The rows of the filled orders of a block: one per order that has a leg not paid to the
/// fee recipient, in order; orders paying only the fee recipient are skipped.
pub fn db_out(config: &FillsConfig, orders: &pb::Orders) -> (r: Vec<TableChange>)
    requires
        forall|k: int| 0 <= k < orders.orders@.len() ==> row_ready(#[trigger] orders.orders@[k]),
    ensures
        ({
            let kept = kept_orders(orders.orders@, config.fee_recipient@);
            &&& r@.len() == kept.len()
            &&& forall|k: int|
                0 <= k < kept.len() ==> row_matches(#[trigger] r@[k], kept[k], config.fee_recipient@)
        }),
{
    let os = &orders.orders;
    let fee = &config.fee_recipient;
    let mut rows: Vec<TableChange> = Vec::new();
    let mut i: usize = 0;
    while i < os.len()
        invariant
            i <= os.len(),
            forall|k: int| 0 <= k < os@.len() ==> row_ready(#[trigger] os@[k]),
            ({
                let kept = kept_orders(os@.subrange(0, i as int), fee@);
                &&& rows@.len() == kept.len()
                &&& forall|k: int| 0 <= k < kept.len() ==> row_matches(#[trigger] rows@[k], kept[k], fee@)
            }),
        decreases os.len() - i,
    {
        proof {
            assert(os@.subrange(0, i + 1).drop_last() =~= os@.subrange(0, i as int));
            assert(os@.subrange(0, i + 1).last() == os@[i as int]);
        }
        match fill_row(&os[i], fee) {
            Some(tc) => rows.push(tc),
            None => {},
        }
        i = i + 1;
    }
    proof {
        assert(os@.subrange(0, os.len() as int) =~= os@);
    }
    rows
}

} // verus!

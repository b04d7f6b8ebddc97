use vstd::prelude::*;
use crate::abi::{AbiType, FieldValue, TypeModel, abi_decode, abi_decoded, types_model};
use crate::amount::U256;

verus! {

/// The address a value holds, if it is an address.
pub open spec fn as_address(v: FieldValue) -> Option<Seq<u8>> {
    match v {
        FieldValue::Address(b) => Some(b@),
        _ => None,
    }
}

/// The integer a value holds, if it is an unsigned integer.
pub open spec fn as_uint(v: FieldValue) -> Option<U256> {
    match v {
        FieldValue::Uint(u) => Some(u),
        _ => None,
    }
}

/// The bytes a value holds, if it is a byte string.
pub open spec fn as_bytes(v: FieldValue) -> Option<Seq<u8>> {
    match v {
        FieldValue::Bytes(b) => Some(b@),
        _ => None,
    }
}

/// The items of a value, if it is a tuple.
pub open spec fn as_tuple(v: FieldValue) -> Option<Seq<FieldValue>> {
    match v {
        FieldValue::Tuple(items) => Some(items@),
        _ => None,
    }
}

/// The items of a value, if it is an array.
pub open spec fn as_array(v: FieldValue) -> Option<Seq<FieldValue>> {
    match v {
        FieldValue::Array(items) => Some(items@),
        _ => None,
    }
}

pub fn address_of(v: &FieldValue) -> (r: Option<Vec<u8>>)
    ensures
        r matches Some(b) ==> as_address(*v) == Some(b@),
        r is None ==> as_address(*v) is None,
{
    match v {
        FieldValue::Address(b) => Some(b.clone()),
        _ => None,
    }
}

pub fn uint_of(v: &FieldValue) -> (r: Option<U256>)
    ensures
        r == as_uint(*v),
{
    match v {
        FieldValue::Uint(u) => Some(*u),
        _ => None,
    }
}

pub fn bytes_of(v: &FieldValue) -> (r: Option<Vec<u8>>)
    ensures
        r matches Some(b) ==> as_bytes(*v) == Some(b@),
        r is None ==> as_bytes(*v) is None,
{
    match v {
        FieldValue::Bytes(b) => Some(b.clone()),
        _ => None,
    }
}

pub fn tuple_of(v: &FieldValue) -> (r: Option<&Vec<FieldValue>>)
    ensures
        r matches Some(items) ==> as_tuple(*v) == Some(items@),
        r is None ==> as_tuple(*v) is None,
{
    match v {
        FieldValue::Tuple(items) => Some(items),
        _ => None,
    }
}

pub fn array_of(v: &FieldValue) -> (r: Option<&Vec<FieldValue>>)
    ensures
        r matches Some(items) ==> as_array(*v) == Some(items@),
        r is None ==> as_array(*v) is None,
{
    match v {
        FieldValue::Array(items) => Some(items),
        _ => None,
    }
}

/// The mathematical form of an order's general terms.
pub struct OrderInfoModel {
    pub reactor: Seq<u8>,
    pub swapper: Seq<u8>,
    pub nonce: U256,
    pub deadline: U256,
    pub additional_validation_contract: Seq<u8>,
    pub additional_validation_data: Seq<u8>,
}

/// The mathematical form of an input leg.
pub struct InputModel {
    pub token: Seq<u8>,
    pub start_amount: U256,
    pub end_amount: U256,
}

/// The mathematical form of an output leg.
pub struct OutputModel {
    pub token: Seq<u8>,
    pub start_amount: U256,
    pub end_amount: U256,
    pub recipient: Seq<u8>,
}

/// The mathematical form of an exclusive Dutch order.
pub struct OrderModel {
    pub info: OrderInfoModel,
    pub decay_start: U256,
    pub decay_end: U256,
    pub exclusive_filler: Seq<u8>,
    pub exclusivity_override_bps: U256,
    pub input: InputModel,
    pub outputs: Seq<OutputModel>,
}

/// The general terms of an order, read from the items of its tuple.
pub open spec fn order_info_model(items: Seq<FieldValue>) -> Option<OrderInfoModel> {
    if items.len() == 6 && as_address(items[0]) is Some && as_address(items[1]) is Some
        && as_uint(items[2]) is Some && as_uint(items[3]) is Some && as_address(items[4]) is Some
        && as_bytes(items[5]) is Some {
        Some(
            OrderInfoModel {
                reactor: as_address(items[0])->Some_0,
                swapper: as_address(items[1])->Some_0,
                nonce: as_uint(items[2])->Some_0,
                deadline: as_uint(items[3])->Some_0,
                additional_validation_contract: as_address(items[4])->Some_0,
                additional_validation_data: as_bytes(items[5])->Some_0,
            },
        )
    } else {
        None
    }
}

/// An input leg, read from the items of its tuple.
pub open spec fn input_model(items: Seq<FieldValue>) -> Option<InputModel> {
    if items.len() == 3 && as_address(items[0]) is Some && as_uint(items[1]) is Some
        && as_uint(items[2]) is Some {
        Some(
            InputModel {
                token: as_address(items[0])->Some_0,
                start_amount: as_uint(items[1])->Some_0,
                end_amount: as_uint(items[2])->Some_0,
            },
        )
    } else {
        None
    }
}

/// An output leg, read from one value.
pub open spec fn output_model(v: FieldValue) -> Option<OutputModel> {
    match as_tuple(v) {
        Some(items) => if items.len() == 4 && as_address(items[0]) is Some && as_uint(items[1]) is Some
            && as_uint(items[2]) is Some && as_address(items[3]) is Some {
            Some(
                OutputModel {
                    token: as_address(items[0])->Some_0,
                    start_amount: as_uint(items[1])->Some_0,
                    end_amount: as_uint(items[2])->Some_0,
                    recipient: as_address(items[3])->Some_0,
                },
            )
        } else {
            None
        },
        None => None,
    }
}

/// The output legs, read from the values of an array; `None` if any is malformed.
pub open spec fn outputs_model(vs: Seq<FieldValue>) -> Option<Seq<OutputModel>>
    decreases vs.len(),
{
    if vs.len() == 0 {
        Some(Seq::empty())
    } else {
        match (outputs_model(vs.drop_last()), output_model(vs.last())) {
            (Some(init), Some(last)) => Some(init.push(last)),
            _ => None,
        }
    }
}

/// An order, read from the items of its tuple.
pub open spec fn order_model(items: Seq<FieldValue>) -> Option<OrderModel> {
    if items.len() == 7 && as_tuple(items[0]) is Some && order_info_model(
        as_tuple(items[0])->Some_0,
    ) is Some && as_uint(items[1]) is Some && as_uint(items[2]) is Some && as_address(
        items[3],
    ) is Some && as_uint(items[4]) is Some && as_tuple(items[5]) is Some && input_model(
        as_tuple(items[5])->Some_0,
    ) is Some && as_array(items[6]) is Some && outputs_model(as_array(items[6])->Some_0) is Some {
        Some(
            OrderModel {
                info: order_info_model(as_tuple(items[0])->Some_0)->Some_0,
                decay_start: as_uint(items[1])->Some_0,
                decay_end: as_uint(items[2])->Some_0,
                exclusive_filler: as_address(items[3])->Some_0,
                exclusivity_override_bps: as_uint(items[4])->Some_0,
                input: input_model(as_tuple(items[5])->Some_0)->Some_0,
                outputs: outputs_model(as_array(items[6])->Some_0)->Some_0,
            },
        )
    } else {
        None
    }
}

/// The ABI layout of an order's general terms.
pub open spec fn order_info_layout() -> Seq<TypeModel> {
    seq![
        TypeModel::Address,
        TypeModel::Address,
        TypeModel::Uint(256),
        TypeModel::Uint(256),
        TypeModel::Address,
        TypeModel::Bytes,
    ]
}

/// The ABI layout of an input leg.
pub open spec fn input_layout() -> Seq<TypeModel> {
    seq![TypeModel::Address, TypeModel::Uint(256), TypeModel::Uint(256)]
}

/// The ABI layout of an output leg.
pub open spec fn output_layout() -> Seq<TypeModel> {
    seq![TypeModel::Address, TypeModel::Uint(256), TypeModel::Uint(256), TypeModel::Address]
}

/// The ABI layout of an encoded order: one tuple of its terms.
pub open spec fn order_layout() -> Seq<TypeModel> {
    seq![
        TypeModel::Tuple(
            seq![
                TypeModel::Tuple(order_info_layout()),
                TypeModel::Uint(256),
                TypeModel::Uint(256),
                TypeModel::Address,
                TypeModel::Uint(256),
                TypeModel::Tuple(input_layout()),
                TypeModel::Array(Box::new(TypeModel::Tuple(output_layout()))),
            ],
        ),
    ]
}

/// The order that encoded bytes hold, if they decode to one.
pub open spec fn decoded_order(bytes: Seq<u8>) -> Option<OrderModel> {
    match abi_decoded(order_layout(), bytes) {
        Some(vals) => if vals.len() == 1 && as_tuple(vals[0]) is Some {
            order_model(as_tuple(vals[0])->Some_0)
        } else {
            None
        },
        None => None,
    }
}

/// General terms of an order.
pub struct OrderInfo {
    pub reactor: Vec<u8>,
    pub swapper: Vec<u8>,
    pub nonce: U256,
    pub deadline: U256,
    pub additional_validation_contract: Vec<u8>,
    pub additional_validation_data: Vec<u8>,
}

/// The leg the swapper pays.
pub struct DutchInput {
    pub token: Vec<u8>,
    pub start_amount: U256,
    pub end_amount: U256,
}

/// A leg paid out to a recipient.
pub struct DutchOutput {
    pub token: Vec<u8>,
    pub start_amount: U256,
    pub end_amount: U256,
    pub recipient: Vec<u8>,
}

/// A decoded exclusive Dutch auction order.
pub struct ExclusiveDutchOrder {
    pub order_info: OrderInfo,
    pub decay_start_timer: U256,
    pub decay_end_timer: U256,
    pub exclusive_filler: Vec<u8>,
    pub exclusivity_override_bps: U256,
    pub input: DutchInput,
    pub outputs: Vec<DutchOutput>,
}

impl OrderInfo {
    pub open spec fn view(&self) -> OrderInfoModel {
        OrderInfoModel {
            reactor: self.reactor@,
            swapper: self.swapper@,
            nonce: self.nonce,
            deadline: self.deadline,
            additional_validation_contract: self.additional_validation_contract@,
            additional_validation_data: self.additional_validation_data@,
        }
    }

    /// The ABI layout of the general terms.
    pub fn params() -> (r: Vec<AbiType>)
        ensures
            types_model(r@) == order_info_layout(),
    {
        let r = vec![
            AbiType::Address,
            AbiType::Address,
            AbiType::Uint(256),
            AbiType::Uint(256),
            AbiType::Address,
            AbiType::Bytes,
        ];
        proof {
            reveal_with_fuel(types_model, 7);
            assert(types_model(r@) =~= order_info_layout());
        }
        r
    }

    /// Reads the general terms from the items of their tuple.
    pub fn try_from(items: &Vec<FieldValue>) -> (r: Result<OrderInfo, OrderError>)
        ensures
            r matches Ok(o) ==> order_info_model(items@) == Some(o.view()),
            r is Err ==> order_info_model(items@) is None,
    {
        if items.len() != 6 {
            return Err(OrderError::Malformed);
        }
        let reactor = address_of(&items[0]);
        let swapper = address_of(&items[1]);
        let nonce = uint_of(&items[2]);
        let deadline = uint_of(&items[3]);
        let contract = address_of(&items[4]);
        let data = bytes_of(&items[5]);
        match (reactor, swapper, nonce, deadline, contract, data) {
            (Some(reactor), Some(swapper), Some(nonce), Some(deadline), Some(contract), Some(data)) => {
                Ok(
                    OrderInfo {
                        reactor,
                        swapper,
                        nonce,
                        deadline,
                        additional_validation_contract: contract,
                        additional_validation_data: data,
                    },
                )
            },
            _ => Err(OrderError::Malformed),
        }
    }
}

impl DutchInput {
    pub open spec fn view(&self) -> InputModel {
        InputModel { token: self.token@, start_amount: self.start_amount, end_amount: self.end_amount }
    }

    /// The ABI layout of an input leg.
    pub fn params() -> (r: Vec<AbiType>)
        ensures
            types_model(r@) == input_layout(),
    {
        let r = vec![AbiType::Address, AbiType::Uint(256), AbiType::Uint(256)];
        proof {
            reveal_with_fuel(types_model, 4);
            assert(types_model(r@) =~= input_layout());
        }
        r
    }

    /// Reads an input leg from the items of its tuple.
    pub fn try_from(items: &Vec<FieldValue>) -> (r: Result<DutchInput, OrderError>)
        ensures
            r matches Ok(o) ==> input_model(items@) == Some(o.view()),
            r is Err ==> input_model(items@) is None,
    {
        if items.len() != 3 {
            return Err(OrderError::Malformed);
        }
        match (address_of(&items[0]), uint_of(&items[1]), uint_of(&items[2])) {
            (Some(token), Some(start_amount), Some(end_amount)) => Ok(
                DutchInput { token, start_amount, end_amount },
            ),
            _ => Err(OrderError::Malformed),
        }
    }
}

impl DutchOutput {
    pub open spec fn view(&self) -> OutputModel {
        OutputModel {
            token: self.token@,
            start_amount: self.start_amount,
            end_amount: self.end_amount,
            recipient: self.recipient@,
        }
    }

    /// The ABI layout of an output leg.
    pub fn params() -> (r: Vec<AbiType>)
        ensures
            types_model(r@) == output_layout(),
    {
        let r = vec![AbiType::Address, AbiType::Uint(256), AbiType::Uint(256), AbiType::Address];
        proof {
            reveal_with_fuel(types_model, 5);
            assert(types_model(r@) =~= output_layout());
        }
        r
    }

    /// Reads an output leg from its value.
    pub fn try_from(v: &FieldValue) -> (r: Result<DutchOutput, OrderError>)
        ensures
            r matches Ok(o) ==> output_model(*v) == Some(o.view()),
            r is Err ==> output_model(*v) is None,
    {
        let items = match tuple_of(v) {
            Some(items) => items,
            None => return Err(OrderError::Malformed),
        };
        if items.len() != 4 {
            return Err(OrderError::Malformed);
        }
        match (address_of(&items[0]), uint_of(&items[1]), uint_of(&items[2]), address_of(&items[3])) {
            (Some(token), Some(start_amount), Some(end_amount), Some(recipient)) => Ok(
                DutchOutput { token, start_amount, end_amount, recipient },
            ),
            _ => Err(OrderError::Malformed),
        }
    }
}

/// The views of a sequence of output legs, in order.
pub open spec fn outputs_view(os: Seq<DutchOutput>) -> Seq<OutputModel> {
    os.map_values(|o: DutchOutput| o.view())
}

/// A malformed leg in a prefix makes the whole sequence malformed.
proof fn lemma_outputs_model_none(vs: Seq<FieldValue>, k: nat)
    requires
        k <= vs.len(),
        outputs_model(vs.subrange(0, k as int)) is None,
    ensures
        outputs_model(vs) is None,
    decreases vs.len() - k,
{
    if k < vs.len() {
        assert(vs.subrange(0, k + 1 as int).drop_last() =~= vs.subrange(0, k as int));
        lemma_outputs_model_none(vs, k + 1);
    } else {
        assert(vs.subrange(0, k as int) =~= vs);
    }
}

/// Reads every output leg of an array; fails if any is malformed.
pub fn outputs_from(vs: &Vec<FieldValue>) -> (r: Result<Vec<DutchOutput>, OrderError>)
    ensures
        r matches Ok(os) ==> outputs_model(vs@) == Some(outputs_view(os@)),
        r is Err ==> outputs_model(vs@) is None,
{
    let mut os: Vec<DutchOutput> = Vec::new();
    let mut i: usize = 0;
    while i < vs.len()
        invariant
            i <= vs.len(),
            outputs_model(vs@.subrange(0, i as int)) == Some(outputs_view(os@)),
        decreases vs.len() - i,
    {
        proof {
            assert(vs@.subrange(0, i + 1).drop_last() =~= vs@.subrange(0, i as int));
        }
        let ghost prev = os@;
        match DutchOutput::try_from(&vs[i]) {
            Ok(o) => {
                os.push(o);
                proof {
                    assert(outputs_view(os@) =~= outputs_view(prev).push(o.view()));
                }
            },
            Err(e) => {
                proof {
                    assert(vs@.subrange(0, i + 1).last() == vs@[i as int]);
                    lemma_outputs_model_none(vs@, (i + 1) as nat);
                }
                return Err(e);
            },
        }
        i = i + 1;
    }
    proof {
        assert(vs@.subrange(0, vs.len() as int) =~= vs@);
    }
    Ok(os)
}

impl ExclusiveDutchOrder {
    pub open spec fn view(&self) -> OrderModel {
        OrderModel {
            info: self.order_info.view(),
            decay_start: self.decay_start_timer,
            decay_end: self.decay_end_timer,
            exclusive_filler: self.exclusive_filler@,
            exclusivity_override_bps: self.exclusivity_override_bps,
            input: self.input.view(),
            outputs: outputs_view(self.outputs@),
        }
    }

    /// The ABI layout of an order's terms.
    pub fn params() -> (r: Vec<AbiType>)
        ensures
            types_model(r@) == order_layout()[0]->Tuple_0,
    {
        let r = vec![
            AbiType::Tuple(OrderInfo::params()),
            AbiType::Uint(256),
            AbiType::Uint(256),
            AbiType::Address,
            AbiType::Uint(256),
            AbiType::Tuple(DutchInput::params()),
            AbiType::Array(Box::new(AbiType::Tuple(DutchOutput::params()))),
        ];
        proof {
            reveal_with_fuel(types_model, 8);
            assert(types_model(r@) =~= order_layout()[0]->Tuple_0);
        }
        r
    }

    /// Decodes an order from its ABI encoding.
    pub fn try_from(input: &Vec<u8>) -> (r: Result<ExclusiveDutchOrder, OrderError>)
        ensures
            r matches Ok(o) ==> decoded_order(input@) == Some(o.view()),
            r is Err ==> decoded_order(input@) is None,
    {
        let layout = vec![AbiType::Tuple(Self::params())];
        proof {
            reveal_with_fuel(types_model, 2);
            assert(types_model(layout@) =~= order_layout());
        }
        let values = match abi_decode(&layout, input) {
            Some(values) => values,
            None => return Err(OrderError::Malformed),
        };
        if values.len() != 1 {
            return Err(OrderError::Malformed);
        }
        let items = match tuple_of(&values[0]) {
            Some(items) => items,
            None => return Err(OrderError::Malformed),
        };
        if items.len() != 7 {
            return Err(OrderError::Malformed);
        }
        let info = match tuple_of(&items[0]) {
            Some(t) => OrderInfo::try_from(t),
            None => return Err(OrderError::Malformed),
        };
        let input_leg = match tuple_of(&items[5]) {
            Some(t) => DutchInput::try_from(t),
            None => return Err(OrderError::Malformed),
        };
        let outputs = match array_of(&items[6]) {
            Some(a) => outputs_from(a),
            None => return Err(OrderError::Malformed),
        };
        match (
            info,
            uint_of(&items[1]),
            uint_of(&items[2]),
            address_of(&items[3]),
            uint_of(&items[4]),
            input_leg,
            outputs,
        ) {
            (Ok(order_info), Some(start), Some(end), Some(filler), Some(bps), Ok(input), Ok(outputs)) => {
                Ok(
                    ExclusiveDutchOrder {
                        order_info,
                        decay_start_timer: start,
                        decay_end_timer: end,
                        exclusive_filler: filler,
                        exclusivity_override_bps: bps,
                        input,
                        outputs,
                    },
                )
            },
            _ => Err(OrderError::Malformed),
        }
    }
}

/// Why an order could not be read.
#[derive(Clone, Copy, Debug, PartialEq, Eq)]
pub enum OrderError {
    /// The bytes do not hold an order of the expected layout.
    Malformed,
}

} // verus!

use vstd::prelude::*;
use ethabi::{ParamType, Token};
use crate::amount::{U256, lemma_u256_bound, u256_bound};
use crate::encoding::{
    TableField, decimal, enclose_parts, enclosed, hex_lower, hex_string, u256_decimal,
};

verus! {

/// The type of one ABI parameter.
#[derive(Debug)]
pub enum AbiType {
    Address,
    Bytes,
    Int(usize),
    Uint(usize),
    Bool,
    String,
    Array(Box<AbiType>),
    FixedBytes(usize),
    FixedArray(Box<AbiType>, usize),
    Tuple(Vec<AbiType>),
}

/// The mathematical form of an `AbiType`.
pub enum TypeModel {
    Address,
    Bytes,
    Int(nat),
    Uint(nat),
    Bool,
    String,
    Array(Box<TypeModel>),
    FixedBytes(nat),
    FixedArray(Box<TypeModel>, nat),
    Tuple(Seq<TypeModel>),
}

impl AbiType {
    pub open spec fn model(self) -> TypeModel
        decreases self,
    {
        match self {
            AbiType::Address => TypeModel::Address,
            AbiType::Bytes => TypeModel::Bytes,
            AbiType::Int(n) => TypeModel::Int(n as nat),
            AbiType::Uint(n) => TypeModel::Uint(n as nat),
            AbiType::Bool => TypeModel::Bool,
            AbiType::String => TypeModel::String,
            AbiType::Array(t) => TypeModel::Array(Box::new((*t).model())),
            AbiType::FixedBytes(n) => TypeModel::FixedBytes(n as nat),
            AbiType::FixedArray(t, n) => TypeModel::FixedArray(Box::new((*t).model()), n as nat),
            AbiType::Tuple(ts) => TypeModel::Tuple(types_model(ts@)),
        }
    }

    /// A copy of the type.
    pub fn duplicate(&self) -> (r: AbiType)
        ensures
            r.model() == self.model(),
        decreases self,
    {
        match self {
            AbiType::Address => AbiType::Address,
            AbiType::Bytes => AbiType::Bytes,
            AbiType::Int(n) => AbiType::Int(*n),
            AbiType::Uint(n) => AbiType::Uint(*n),
            AbiType::Bool => AbiType::Bool,
            AbiType::String => AbiType::String,
            AbiType::Array(t) => AbiType::Array(Box::new((**t).duplicate())),
            AbiType::FixedBytes(n) => AbiType::FixedBytes(*n),
            AbiType::FixedArray(t, n) => AbiType::FixedArray(Box::new((**t).duplicate()), *n),
            AbiType::Tuple(ts) => AbiType::Tuple(duplicate_types(ts)),
        }
    }
}

/// The models of a sequence of types, in order.
pub open spec fn types_model(ts: Seq<AbiType>) -> Seq<TypeModel>
    decreases ts,
{
    if ts.len() == 0 {
        Seq::empty()
    } else {
        types_model(ts.drop_last()).push(ts.last().model())
    }
}

pub proof fn lemma_types_model(ts: Seq<AbiType>)
    ensures
        types_model(ts).len() == ts.len(),
        forall|j: int| 0 <= j < ts.len() ==> types_model(ts)[j] == ts[j].model(),
    decreases ts.len(),
{
    if ts.len() > 0 {
        lemma_types_model(ts.drop_last());
    }
}

/// Two sequences of types with equal models have equal sequence models.
pub proof fn lemma_types_model_eq(a: Seq<AbiType>, b: Seq<AbiType>)
    requires
        a.len() == b.len(),
        forall|j: int| 0 <= j < a.len() ==> a[j].model() == b[j].model(),
    ensures
        types_model(a) == types_model(b),
{
    lemma_types_model(a);
    lemma_types_model(b);
    assert(types_model(a) =~= types_model(b));
}

/// A copy of each type, in order.
pub fn duplicate_types(ts: &Vec<AbiType>) -> (r: Vec<AbiType>)
    ensures
        types_model(r@) == types_model(ts@),
    decreases ts,
{
    let mut r: Vec<AbiType> = Vec::new();
    let mut i: usize = 0;
    while i < ts.len()
        invariant
            i <= ts.len(),
            r@.len() == i,
            forall|j: int| 0 <= j < i ==> #[trigger] r@[j].model() == ts@[j].model(),
        decreases ts.len() - i,
    {
        r.push(ts[i].duplicate());
        i = i + 1;
    }
    proof {
        lemma_types_model_eq(r@, ts@);
    }
    r
}

/// One decoded ABI value.
#[derive(Debug)]
pub enum FieldValue {
    /// A dynamic or fixed-size byte string.
    Bytes(Vec<u8>),
    /// A 20-byte account address.
    Address(Vec<u8>),
    Uint(U256),
    /// A signed integer as its 256-bit two's complement word.
    Int(U256),
    Bool(bool),
    Text(String),
    Array(Vec<FieldValue>),
    Tuple(Vec<FieldValue>),
}

/// The smallest word that stands for a negative signed integer.
pub open spec fn sign_threshold() -> nat {
    u256_bound() / 2
}

/// The signed integer that a two's complement word stands for.
pub open spec fn signed_value(w: nat) -> int {
    if w >= sign_threshold() {
        w - u256_bound()
    } else {
        w as int
    }
}

/// The decimal text of an integer, with a leading minus when it is negative.
pub open spec fn signed_decimal(i: int) -> Seq<char> {
    if i < 0 {
        seq!['-'] + decimal((-i) as nat)
    } else {
        decimal(i as nat)
    }
}

/// The canonical text of a value.
pub open spec fn value_encoding(v: FieldValue) -> Seq<char>
    decreases v,
{
    match v {
        FieldValue::Bytes(b) => hex_lower(b@),
        FieldValue::Address(b) => hex_lower(b@),
        FieldValue::Uint(u) => decimal(u.value()),
        FieldValue::Int(u) => signed_decimal(signed_value(u.value())),
        FieldValue::Bool(b) => b.encoding(),
        FieldValue::Text(s) => s@,
        FieldValue::Array(items) => enclosed('[', values_encodings(items@), ']'),
        FieldValue::Tuple(items) => enclosed('(', values_encodings(items@), ')'),
    }
}

/// The canonical texts of a sequence of values, in order.
pub open spec fn values_encodings(vs: Seq<FieldValue>) -> Seq<Seq<char>>
    decreases vs,
{
    if vs.len() == 0 {
        Seq::empty()
    } else {
        values_encodings(vs.drop_last()).push(value_encoding(vs.last()))
    }
}

proof fn lemma_values_encodings(vs: Seq<FieldValue>)
    ensures
        values_encodings(vs).len() == vs.len(),
        forall|j: int| 0 <= j < vs.len() ==> values_encodings(vs)[j] == value_encoding(vs[j]),
    decreases vs.len(),
{
    if vs.len() > 0 {
        lemma_values_encodings(vs.drop_last());
    }
}

/// Relies on primitive-types' `U256::overflowing_neg`: the two's complement negation.
#[verifier::external_body]
fn u256_neg(x: U256) -> (r: U256)
    requires
        x.value() > 0,
    ensures
        r.value() == u256_bound() - x.value(),
{
    U256 { limbs: ethabi::ethereum_types::U256(x.limbs).overflowing_neg().0.0 }
}

/// The decimal text of a two's complement word.
fn signed_text(w: U256) -> (r: String)
    ensures
        r@ == signed_decimal(signed_value(w.value())),
{
    proof {
        lemma_u256_bound(w);
    }
    let threshold = U256 { limbs: [0, 0, 0, 0x8000_0000_0000_0000] };
    proof {
        assert(threshold.value() == sign_threshold()) by {
            reveal_with_fuel(crate::amount::limbs_value, 5);
        }
    }
    if crate::amount::u256_lt(w, threshold) {
        u256_decimal(w)
    } else {
        let magnitude = u256_neg(w);
        let mut r = String::from_str("-");
        proof {
            reveal_strlit("-");
        }
        r.append(u256_decimal(magnitude).as_str());
        r
    }
}

impl TableField for FieldValue {
    open spec fn encoding(&self) -> Seq<char> {
        value_encoding(*self)
    }

    fn get_value(&self) -> (r: String)
        decreases self,
    {
        match self {
            FieldValue::Bytes(b) => hex_string(b),
            FieldValue::Address(b) => hex_string(b),
            FieldValue::Uint(u) => u256_decimal(*u),
            FieldValue::Int(u) => signed_text(*u),
            FieldValue::Bool(b) => b.get_value(),
            FieldValue::Text(s) => s.clone(),
            FieldValue::Array(items) => {
                let parts = encode_items(items);
                enclose_parts(&parts, true)
            },
            FieldValue::Tuple(items) => {
                let parts = encode_items(items);
                enclose_parts(&parts, false)
            },
        }
    }
}

/// The texts of the items, in order.
fn encode_items(items: &Vec<FieldValue>) -> (r: Vec<String>)
    ensures
        r@.map_values(|p: String| p@) == values_encodings(items@),
    decreases items,
{
    let mut parts: Vec<String> = Vec::new();
    let mut i: usize = 0;
    while i < items.len()
        invariant
            i <= items.len(),
            parts@.len() == i,
            forall|j: int| 0 <= j < i ==> #[trigger] parts@[j]@ == value_encoding(items@[j]),
        decreases items.len() - i,
    {
        parts.push(items[i].get_value());
        i = i + 1;
    }
    proof {
        lemma_values_encodings(items@);
        assert(parts@.map_values(|p: String| p@) =~= values_encodings(items@));
    }
    parts
}

/// ethabi's parameter type, built from an `AbiType` and handed to its decoder.
#[verifier::external_type_specification]
#[verifier::external_body]
pub struct ExParamType(ethabi::ParamType);

/// ethabi's decoded token, turned into a `FieldValue` as soon as the decoder returns it.
#[verifier::external_type_specification]
#[verifier::external_body]
pub struct ExToken(ethabi::Token);

/// What ethabi's decoder yields for data laid out as a sequence of parameters of the given
/// types, or `None` where it rejects the data.
pub uninterp spec fn abi_decoded(types: Seq<TypeModel>, data: Seq<u8>) -> Option<Seq<FieldValue>>;

/// Relies on `ethabi::decode`: the values of a sequence of parameters, decoded from data laid
/// out by the contract ABI, or an error.
#[verifier::external_body]
pub(crate) fn abi_decode(types: &Vec<AbiType>, data: &Vec<u8>) -> (r: Option<Vec<FieldValue>>)
    ensures
        r matches Some(v) ==> abi_decoded(types_model(types@), data@) == Some(v@),
        r is None ==> abi_decoded(types_model(types@), data@) is None,
{
    let kinds: Vec<ParamType> = types.iter().map(param_type_of).collect();
    match ethabi::decode(&kinds, data) {
        Ok(tokens) => Some(field_values_of(tokens)),
        Err(_) => None,
    }
}

/// Converts a parameter type into ethabi's form, variant for variant.
#[verifier::external_body]
fn param_type_of(t: &AbiType) -> ParamType {
    match t {
        AbiType::Address => ParamType::Address,
        AbiType::Bytes => ParamType::Bytes,
        AbiType::Int(n) => ParamType::Int(*n),
        AbiType::Uint(n) => ParamType::Uint(*n),
        AbiType::Bool => ParamType::Bool,
        AbiType::String => ParamType::String,
        AbiType::Array(t) => ParamType::Array(Box::new(param_type_of(t))),
        AbiType::FixedBytes(n) => ParamType::FixedBytes(*n),
        AbiType::FixedArray(t, n) => ParamType::FixedArray(Box::new(param_type_of(t)), *n),
        AbiType::Tuple(ts) => ParamType::Tuple(ts.iter().map(param_type_of).collect()),
    }
}

/// Converts one of ethabi's decoded tokens into a value, variant for variant.
#[verifier::external_body]
fn field_value_of(t: Token) -> FieldValue {
    match t {
        Token::Address(a) => FieldValue::Address(a.0.to_vec()),
        Token::FixedBytes(b) => FieldValue::Bytes(b),
        Token::Bytes(b) => FieldValue::Bytes(b),
        Token::Int(i) => FieldValue::Int(U256 { limbs: i.0 }),
        Token::Uint(u) => FieldValue::Uint(U256 { limbs: u.0 }),
        Token::Bool(b) => FieldValue::Bool(b),
        Token::String(s) => FieldValue::Text(s),
        Token::FixedArray(ts) => FieldValue::Array(field_values_of(ts)),
        Token::Array(ts) => FieldValue::Array(field_values_of(ts)),
        Token::Tuple(ts) => FieldValue::Tuple(field_values_of(ts)),
    }
}

/// Converts decoded tokens into values, one for one and in order.
#[verifier::external_body]
fn field_values_of(ts: Vec<Token>) -> Vec<FieldValue> {
    ts.into_iter().map(field_value_of).collect()
}

} // verus!

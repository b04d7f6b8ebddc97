use vstd::prelude::*;

verus! {

/// The transaction and block context of a fill.
#[derive(Debug)]
pub struct TransactionInfo {
    pub from: Vec<u8>,
    pub to: Vec<u8>,
    pub caller: Vec<u8>,
    pub block_time: i64,
    pub block_number: u64,
    pub tx_hash: Vec<u8>,
    pub log_index: u32,
}

/// The mathematical form of a `TransactionInfo`.
pub struct TransactionInfoModel {
    pub from: Seq<u8>,
    pub to: Seq<u8>,
    pub caller: Seq<u8>,
    pub block_time: i64,
    pub block_number: u64,
    pub tx_hash: Seq<u8>,
    pub log_index: u32,
}

impl TransactionInfo {
    pub open spec fn view(&self) -> TransactionInfoModel {
        TransactionInfoModel {
            from: self.from@,
            to: self.to@,
            caller: self.caller@,
            block_time: self.block_time,
            block_number: self.block_number,
            tx_hash: self.tx_hash@,
            log_index: self.log_index,
        }
    }

    /// A copy of the context.
    pub fn duplicate(&self) -> (r: TransactionInfo)
        ensures
            r.view() == self.view(),
    {
        TransactionInfo {
            from: self.from.clone(),
            to: self.to.clone(),
            caller: self.caller.clone(),
            block_time: self.block_time,
            block_number: self.block_number,
            tx_hash: self.tx_hash.clone(),
            log_index: self.log_index,
        }
    }
}

/// General terms of an order, in record form.
#[derive(Debug)]
pub struct OrderInfo {
    pub reactor: Vec<u8>,
    pub swapper: Vec<u8>,
    pub nonce: String,
    pub deadline: String,
    pub additional_validation_contract: Vec<u8>,
    pub additional_validation_data: Vec<u8>,
}

/// An order in record form, with its legs evaluated at the time of the fill.
#[derive(Debug)]
pub struct ExclusiveDutchOrder {
    pub info: Option<OrderInfo>,
    pub tx_info: Option<TransactionInfo>,
    pub decay_start_time: String,
    pub decay_end_time: String,
    pub exclusive_filler: Vec<u8>,
    pub exclusivity_override_bps: String,
    pub input: Option<DutchInput>,
    pub outputs: Vec<DutchOutput>,
}

/// An output leg in record form.
#[derive(Debug)]
pub struct DutchOutput {
    pub token: Vec<u8>,
    pub start_amount: String,
    pub end_amount: String,
    pub recipient: Vec<u8>,
    pub decayed_amount: String,
}

/// The input leg in record form.
#[derive(Debug)]
pub struct DutchInput {
    pub token: Vec<u8>,
    pub start_amount: String,
    pub end_amount: String,
    pub decayed_amount: String,
}

/// The orders filled in one block.
#[derive(Debug)]
pub struct Orders {
    pub orders: Vec<ExclusiveDutchOrder>,
}

} // verus!

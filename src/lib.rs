//! Turns decoded blockchain data into keyed table changes: canonical value encoding, event
//! decoding through a registry of contract ABIs, the matching table schema, the dispatcher
//! code generator, Dutch auction order decoding with time-decayed amounts, and the block,
//! transaction and price tables.

pub mod abi;
pub mod amount;
pub mod codegen;
pub mod decay;
pub mod encoding;
pub mod events;
pub mod fills;
pub mod order;
pub mod pb;
pub mod prices;
pub mod registry;
pub mod schema;
pub mod table;
pub mod tx;

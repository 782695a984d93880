//! The ledger data model: transactions, bundles and logical messages.
//!
//! A transaction is an immutable unit of ledger data with fixed-width
//! `address`, `tag`, `bundle_hash` and `payload` fields over an abstract
//! symbol alphabet (one symbol per byte). A bundle is a sequence of
//! transactions sharing the (`address`, `tag`, `bundle_hash`) triple; a
//! logical message is identified by (`address`, `msgid`) and carries the
//! concatenation of its bundle's payload chunks.

use vstd::prelude::*;

verus! {

/// Width of an address field, in symbols.
pub const ADDRESS_WIDTH: usize = 243;

/// Width of a tag (message id) field, in symbols.
pub const TAG_WIDTH: usize = 81;

/// Width of a bundle hash field, in symbols.
pub const HASH_WIDTH: usize = 243;

/// Width of one transaction's payload chunk, in symbols.
pub const PAYLOAD_WIDTH: usize = 6561;

/// Mathematical model of a transaction: every field as a plain sequence or
/// integer.
#[verifier::ext_equal]
pub ghost struct TxModel {
    pub address: Seq<u8>,
    pub tag: Seq<u8>,
    pub bundle_hash: Seq<u8>,
    pub index: int,
    pub last_index: int,
    pub payload: Seq<u8>,
    pub timestamp: int,
}

impl TxModel {
    /// A transaction is well formed when its fixed-width fields have their
    /// canonical widths.
    pub open spec fn wf(self) -> bool {
        &&& self.address.len() == ADDRESS_WIDTH
        &&& self.tag.len() == TAG_WIDTH
        &&& self.bundle_hash.len() == HASH_WIDTH
        &&& self.payload.len() == PAYLOAD_WIDTH
        &&& 0 <= self.index <= self.last_index
    }
}

/// One unit of ledger data.
pub struct Transaction {
    pub address: Vec<u8>,
    pub tag: Vec<u8>,
    pub bundle_hash: Vec<u8>,
    pub index: u64,
    pub last_index: u64,
    pub payload: Vec<u8>,
    pub timestamp: u64,
}

impl View for Transaction {
    type V = TxModel;

    open spec fn view(&self) -> TxModel {
        TxModel {
            address: self.address@,
            tag: self.tag@,
            bundle_hash: self.bundle_hash@,
            index: self.index as int,
            last_index: self.last_index as int,
            payload: self.payload@,
            timestamp: self.timestamp as int,
        }
    }
}

impl Clone for Transaction {
    fn clone(&self) -> (r: Self)
        ensures
            r@ == self@,
    {
        let r = Transaction {
            address: self.address.clone(),
            tag: self.tag.clone(),
            bundle_hash: self.bundle_hash.clone(),
            index: self.index,
            last_index: self.last_index,
            payload: self.payload.clone(),
            timestamp: self.timestamp,
        };
        proof {
            assert(r@.address =~= self@.address);
            assert(r@.tag =~= self@.tag);
            assert(r@.bundle_hash =~= self@.bundle_hash);
            assert(r@.payload =~= self@.payload);
            assert(r@ =~= self@);
        }
        r
    }
}

/// The models of a sequence of transactions.
pub open spec fn txs_view(s: Seq<Transaction>) -> Seq<TxModel> {
    s.map_values(|t: Transaction| t@)
}

/// The models of a sequence of bundles.
pub open spec fn bundle_views(s: Seq<Vec<Transaction>>) -> Seq<Seq<TxModel>> {
    s.map_values(|b: Vec<Transaction>| txs_view(b@))
}

/// Mathematical model of a message location on the ledger.
#[verifier::ext_equal]
pub ghost struct AddressModel {
    pub appinst: Seq<u8>,
    pub msgid: Seq<u8>,
}

/// Locates a message on the ledger: the application instance (channel
/// address) and the message id within it.
pub struct TangleAddress {
    pub appinst: Vec<u8>,
    pub msgid: Vec<u8>,
}

impl View for TangleAddress {
    type V = AddressModel;

    open spec fn view(&self) -> AddressModel {
        AddressModel { appinst: self.appinst@, msgid: self.msgid@ }
    }
}

impl Clone for TangleAddress {
    fn clone(&self) -> (r: Self)
        ensures
            r@ == self@,
    {
        let r = TangleAddress { appinst: self.appinst.clone(), msgid: self.msgid.clone() };
        proof {
            assert(r@.appinst =~= self@.appinst);
            assert(r@.msgid =~= self@.msgid);
            assert(r@ =~= self@);
        }
        r
    }
}

/// Mathematical model of a logical message.
#[verifier::ext_equal]
pub ghost struct MessageModel {
    pub address: Seq<u8>,
    pub msgid: Seq<u8>,
    pub payload: Seq<u8>,
}

/// A logical message: where it lives on the ledger and the payload symbols
/// it carries.
pub struct Message {
    pub link: TangleAddress,
    pub body: Vec<u8>,
}

impl View for Message {
    type V = MessageModel;

    open spec fn view(&self) -> MessageModel {
        MessageModel { address: self.link.appinst@, msgid: self.link.msgid@, payload: self.body@ }
    }
}

impl Clone for Message {
    fn clone(&self) -> (r: Self)
        ensures
            r@ == self@,
    {
        let r = Message { link: self.link.clone(), body: self.body.clone() };
        proof {
            assert(r@.payload =~= self@.payload);
            assert(r@ =~= self@);
        }
        r
    }
}

/// The models of a sequence of messages.
pub open spec fn msgs_view(s: Seq<Message>) -> Seq<MessageModel> {
    s.map_values(|m: Message| m@)
}

} // verus!

//! Packet payloads as plain bytes: a public part and a masked part, each
//! holding already-serialized data. The serializer itself (JSON or any
//! other) lives with the caller; this layer only carries and hands back the
//! bytes.

use vstd::prelude::*;

verus! {

/// Read access to a packet's two payload parts.
pub trait PacketPayload {
    /// The public payload data.
    fn public_data(&self) -> &Vec<u8>;

    /// The masked payload data.
    fn masked_data(&self) -> &Vec<u8>;
}

/// Model of a byte packet payload.
#[verifier::ext_equal]
pub ghost struct PayloadModel {
    pub public: Seq<u8>,
    pub masked: Seq<u8>,
}

/// A packet payload: the public part and the masked part, as serialized
/// bytes.
pub struct Payload {
    pub public: Vec<u8>,
    pub masked: Vec<u8>,
}

impl View for Payload {
    type V = PayloadModel;

    open spec fn view(&self) -> PayloadModel {
        PayloadModel { public: self.public@, masked: self.masked@ }
    }
}

impl Payload {
    /// The serialized bytes a payload part carries: nothing when the part is
    /// empty, else the bytes for the caller's deserializer.
    pub fn unwrap_data(data: &Vec<u8>) -> (r: Option<Vec<u8>>)
        ensures
            match r {
                Option::None => data@.len() == 0,
                Option::Some(v) => data@.len() > 0 && v@ == data@,
            },
    {
        if data.len() == 0 {
            None
        } else {
            let v = data.clone();
            proof {
                assert(v@ =~= data@);
            }
            Some(v)
        }
    }
}

impl PacketPayload for Payload {
    fn public_data(&self) -> &Vec<u8> {
        &self.public
    }

    fn masked_data(&self) -> &Vec<u8> {
        &self.masked
    }
}

/// Model of a payload builder.
#[verifier::ext_equal]
pub ghost struct PayloadBuilderModel {
    pub p_data: Seq<u8>,
    pub m_data: Seq<u8>,
}

/// Collects the two serialized parts of an outgoing packet payload.
pub struct PayloadBuilder {
    p_data: Vec<u8>,
    m_data: Vec<u8>,
}

impl View for PayloadBuilder {
    type V = PayloadBuilderModel;

    closed spec fn view(&self) -> PayloadBuilderModel {
        PayloadBuilderModel { p_data: self.p_data@, m_data: self.m_data@ }
    }
}

impl PayloadBuilder {
    /// An empty builder: both parts empty.
    pub fn new() -> (r: Self)
        ensures
            r@.p_data.len() == 0,
            r@.m_data.len() == 0,
    {
        PayloadBuilder { p_data: Vec::new(), m_data: Vec::new() }
    }

    /// Sets the public part to the given serialized bytes.
    pub fn public(self, data: &Vec<u8>) -> (r: Self)
        ensures
            r@.p_data == data@,
            r@.m_data == self@.m_data,
    {
        let mut b = self;
        b.p_data = data.clone();
        proof {
            assert(b@.p_data =~= data@);
        }
        b
    }

    /// Sets the masked part to the given serialized bytes.
    pub fn masked(self, data: &Vec<u8>) -> (r: Self)
        ensures
            r@.m_data == data@,
            r@.p_data == self@.p_data,
    {
        let mut b = self;
        b.m_data = data.clone();
        proof {
            assert(b@.m_data =~= data@);
        }
        b
    }

    /// The payload carrying the collected parts.
    pub fn build(&self) -> (r: Payload)
        ensures
            r@.public == self@.p_data,
            r@.masked == self@.m_data,
    {
        let r = Payload { public: self.p_data.clone(), masked: self.m_data.clone() };
        proof {
            assert(r@.public =~= self@.p_data);
            assert(r@.masked =~= self@.m_data);
        }
        r
    }
}

} // verus!

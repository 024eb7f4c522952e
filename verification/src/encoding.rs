use vstd::prelude::*;
use vstd::string::StringExecFns;

verus! {

// The two tag bytes of the legacy on-disk layout for consensus records.
// They are wire-visible and must never change.

/// Tag of a consensus item record: `0x01 || serialized item`.
pub const DB_PREFIX_CONSENSUS_ITEM: u8 = 1;

/// Tag of a partial signature record:
/// `0x02 || request_id_u64_be || peer_id_u16_be`, 11 bytes in all.
pub const DB_PREFIX_PARTIAL_SIG: u8 = 2;

/// Why stored bytes could not be decoded.
#[derive(Clone, Copy, Debug, PartialEq, Eq, Structural)]
pub enum DecodingError {
    /// The record does not have the expected length.
    WrongLength,
    /// The record's tag byte names another entity.
    WrongType,
}

impl DecodingError {
    /// Render the error for a diagnostic.
    pub fn describe(&self) -> (r: String)
        ensures
            self is WrongLength ==> r@ == "wrong length"@,
            self is WrongType ==> r@ == "wrong type"@,
    {
        let mut s = String::new();
        match self {
            DecodingError::WrongLength => {
                s.append("wrong length");
            },
            DecodingError::WrongType => {
                s.append("wrong type");
            },
        }
        proof {
            assert(s@ =~= match self {
                DecodingError::WrongLength => "wrong length"@,
                DecodingError::WrongType => "wrong type"@,
            });
        }
        s
    }
}

/// Why a client request was rejected before it entered consensus.
#[derive(Clone, Copy, Debug, PartialEq, Eq, Structural)]
pub enum ClientRequestError {
    /// The request was not authorized with a valid transaction signature.
    InvalidTransactionSignature,
    /// The mint rejected the request: a double spend or a bad mint
    /// signature.
    DeniedByMint,
}

impl ClientRequestError {
    /// Render the error for a diagnostic.
    pub fn describe(&self) -> (r: String)
        ensures
            self is InvalidTransactionSignature ==> r@
                == "client request was not authorized with a valid signature"@,
            self is DeniedByMint ==> r@
                == "client request was denied by mint (double spend or invalid mint signature)"@,
    {
        let mut s = String::new();
        match self {
            ClientRequestError::InvalidTransactionSignature => {
                s.append("client request was not authorized with a valid signature");
            },
            ClientRequestError::DeniedByMint => {
                s.append("client request was denied by mint (double spend or invalid mint signature)");
            },
        }
        proof {
            assert(s@ =~= match self {
                ClientRequestError::InvalidTransactionSignature => "client request was not authorized with a valid signature"@,
                ClientRequestError::DeniedByMint => "client request was denied by mint (double spend or invalid mint signature)"@,
            });
        }
        s
    }
}

/// The big-endian bytes of a u64.
pub open spec fn spec_u64_be(x: u64) -> Seq<u8> {
    seq![
        (x >> 56) as u8,
        (x >> 48) as u8,
        (x >> 40) as u8,
        (x >> 32) as u8,
        (x >> 24) as u8,
        (x >> 16) as u8,
        (x >> 8) as u8,
        x as u8,
    ]
}

/// The big-endian bytes of a u16.
pub open spec fn spec_u16_be(x: u16) -> Seq<u8> {
    seq![(x >> 8) as u8, x as u8]
}

proof fn lemma_u64_be_roundtrip(x: u64)
    ensures
        ((x >> 56) as u8 as u64) << 56 | ((x >> 48) as u8 as u64) << 48 | ((x >> 40) as u8 as u64)
            << 40 | ((x >> 32) as u8 as u64) << 32 | ((x >> 24) as u8 as u64) << 24 | ((x
            >> 16) as u8 as u64) << 16 | ((x >> 8) as u8 as u64) << 8 | (x as u8 as u64) == x,
{
    assert(((x >> 56) as u8 as u64) << 56 | ((x >> 48) as u8 as u64) << 48 | ((x
        >> 40) as u8 as u64) << 40 | ((x >> 32) as u8 as u64) << 32 | ((x >> 24) as u8 as u64)
        << 24 | ((x >> 16) as u8 as u64) << 16 | ((x >> 8) as u8 as u64) << 8 | (x as u8 as u64)
        == x) by (bit_vector);
}

proof fn lemma_u16_be_roundtrip(x: u16)
    ensures
        ((x >> 8) as u8 as u16) << 8 | (x as u8 as u16) == x,
{
    assert(((x >> 8) as u8 as u16) << 8 | (x as u8 as u16) == x) by (bit_vector);
}

/// The key under which one peer's partial signature for one issuance
/// request is stored.
#[derive(Clone, Copy, Debug, PartialEq, Eq, Structural, Hash)]
pub struct PartialSignatureKey {
    pub request_id: u64,
    pub peer_id: u16,
}

impl PartialSignatureKey {
    /// The record's wire bytes: the tag, the request id big-endian, the
    /// peer id big-endian; 11 bytes.
    pub open spec fn spec_bytes(&self) -> Seq<u8> {
        seq![DB_PREFIX_PARTIAL_SIG] + spec_u64_be(self.request_id) + spec_u16_be(self.peer_id)
    }

    /// Encode the key in its wire-visible layout.
    pub fn to_bytes(&self) -> (r: Vec<u8>)
        ensures
            r@ == self.spec_bytes(),
            r@.len() == 11,
    {
        let mut bytes: Vec<u8> = Vec::new();
        bytes.push(DB_PREFIX_PARTIAL_SIG);
        push_u64_be(&mut bytes, self.request_id);
        push_u16_be(&mut bytes, self.peer_id);
        proof {
            assert(bytes@ =~= self.spec_bytes());
        }
        bytes
    }

    /// Decode a key from its wire bytes: exactly 11 bytes under the
    /// partial signature tag, and nothing else.
    pub fn from_bytes(data: &Vec<u8>) -> (r: Result<PartialSignatureKey, DecodingError>)
        ensures
            match r {
                Ok(k) => data@.len() == 11 && data@[0] == DB_PREFIX_PARTIAL_SIG && k.spec_bytes()
                    == data@,
                Err(DecodingError::WrongLength) => data@.len() != 11,
                Err(DecodingError::WrongType) => data@.len() == 11 && data@[0]
                    != DB_PREFIX_PARTIAL_SIG,
            },
    {
        if data.len() != 11 {
            return Err(DecodingError::WrongLength);
        }
        if data[0] != DB_PREFIX_PARTIAL_SIG {
            return Err(DecodingError::WrongType);
        }
        let request_id = (data[1] as u64) << 56 | (data[2] as u64) << 48 | (data[3] as u64) << 40
            | (data[4] as u64) << 32 | (data[5] as u64) << 24 | (data[6] as u64) << 16 | (
        data[7] as u64) << 8 | (data[8] as u64);
        let peer_id = (data[9] as u16) << 8 | (data[10] as u16);
        let key = PartialSignatureKey { request_id, peer_id };
        proof {
            let a1 = data@[1];
            let a2 = data@[2];
            let a3 = data@[3];
            let a4 = data@[4];
            let a5 = data@[5];
            let a6 = data@[6];
            let a7 = data@[7];
            let a8 = data@[8];
            let x = (a1 as u64) << 56 | (a2 as u64) << 48 | (a3 as u64) << 40 | (a4 as u64) << 32
                | (a5 as u64) << 24 | (a6 as u64) << 16 | (a7 as u64) << 8 | (a8 as u64);
            assert((x >> 56) as u8 == a1 && (x >> 48) as u8 == a2 && (x >> 40) as u8 == a3 && (x
                >> 32) as u8 == a4 && (x >> 24) as u8 == a5 && (x >> 16) as u8 == a6 && (x
                >> 8) as u8 == a7 && x as u8 == a8) by (bit_vector)
                requires
                    x == (a1 as u64) << 56 | (a2 as u64) << 48 | (a3 as u64) << 40 | (a4 as u64)
                        << 32 | (a5 as u64) << 24 | (a6 as u64) << 16 | (a7 as u64) << 8 | (
                    a8 as u64),
            ;
            let b1 = data@[9];
            let b2 = data@[10];
            let y = (b1 as u16) << 8 | (b2 as u16);
            assert((y >> 8) as u8 == b1 && y as u8 == b2) by (bit_vector)
                requires
                    y == (b1 as u16) << 8 | (b2 as u16),
            ;
            assert(key.spec_bytes() =~= data@);
        }
        Ok(key)
    }
}

/// Append the big-endian bytes of a u64.
pub fn push_u64_be(bytes: &mut Vec<u8>, x: u64)
    ensures
        final(bytes)@ == old(bytes)@ + spec_u64_be(x),
{
    bytes.push((x >> 56) as u8);
    bytes.push((x >> 48) as u8);
    bytes.push((x >> 40) as u8);
    bytes.push((x >> 32) as u8);
    bytes.push((x >> 24) as u8);
    bytes.push((x >> 16) as u8);
    bytes.push((x >> 8) as u8);
    bytes.push(x as u8);
    proof {
        assert(bytes@ =~= old(bytes)@ + spec_u64_be(x));
    }
}

/// Append the big-endian bytes of a u16.
pub fn push_u16_be(bytes: &mut Vec<u8>, x: u16)
    ensures
        final(bytes)@ == old(bytes)@ + spec_u16_be(x),
{
    bytes.push((x >> 8) as u8);
    bytes.push(x as u8);
    proof {
        assert(bytes@ =~= old(bytes)@ + spec_u16_be(x));
    }
}

/// The prefix under which every partial signature for one request is
/// found: the tag and the request id, 9 bytes.
pub struct PartialSignaturesPrefixKey {
    pub request_id: u64,
}

impl PartialSignaturesPrefixKey {
    /// The prefix bytes of the scan.
    pub open spec fn spec_bytes(&self) -> Seq<u8> {
        seq![DB_PREFIX_PARTIAL_SIG] + spec_u64_be(self.request_id)
    }

    /// Encode the scan prefix.
    pub fn to_bytes(&self) -> (r: Vec<u8>)
        ensures
            r@ == self.spec_bytes(),
            r@.len() == 9,
    {
        let mut bytes: Vec<u8> = Vec::new();
        bytes.push(DB_PREFIX_PARTIAL_SIG);
        push_u64_be(&mut bytes, self.request_id);
        proof {
            assert(bytes@ =~= self.spec_bytes());
        }
        bytes
    }
}

/// Frame an already-serialized consensus item in its legacy on-disk
/// layout: the tag byte, then the payload.
pub fn frame_consensus_item(payload: &Vec<u8>) -> (r: Vec<u8>)
    ensures
        r@ == seq![DB_PREFIX_CONSENSUS_ITEM] + payload@,
{
    let mut bytes: Vec<u8> = Vec::new();
    bytes.push(DB_PREFIX_CONSENSUS_ITEM);
    let mut i: usize = 0;
    while i < payload.len()
        invariant
            i <= payload@.len(),
            bytes@ =~= seq![DB_PREFIX_CONSENSUS_ITEM] + payload@.take(i as int),
        decreases payload@.len() - i,
    {
        bytes.push(payload[i]);
        proof {
            assert(bytes@ =~= seq![DB_PREFIX_CONSENSUS_ITEM] + payload@.take(i as int + 1));
        }
        i = i + 1;
    }
    proof {
        assert(payload@.take(payload@.len() as int) =~= payload@);
    }
    bytes
}

/// Strip the legacy framing off a consensus item record, handing back the
/// serialized item inside.
pub fn unframe_consensus_item(data: &Vec<u8>) -> (r: Result<Vec<u8>, DecodingError>)
    ensures
        match r {
            Ok(payload) => data@.len() >= 1 && data@[0] == DB_PREFIX_CONSENSUS_ITEM && payload@
                == data@.drop_first(),
            Err(DecodingError::WrongLength) => data@.len() == 0,
            Err(DecodingError::WrongType) => data@.len() >= 1 && data@[0]
                != DB_PREFIX_CONSENSUS_ITEM,
        },
{
    if data.len() == 0 {
        return Err(DecodingError::WrongLength);
    }
    if data[0] != DB_PREFIX_CONSENSUS_ITEM {
        return Err(DecodingError::WrongType);
    }
    let mut payload: Vec<u8> = Vec::new();
    let mut i: usize = 1;
    while i < data.len()
        invariant
            1 <= i <= data@.len(),
            payload@ =~= data@.subrange(1, i as int),
        decreases data@.len() - i,
    {
        payload.push(data[i]);
        proof {
            assert(payload@ =~= data@.subrange(1, i as int + 1));
        }
        i = i + 1;
    }
    proof {
        assert(data@.subrange(1, data@.len() as int) =~= data@.drop_first());
    }
    Ok(payload)
}

/// The wire layout is faithful: two partial-signature keys with the same
/// record bytes are the same key, so decoding is the exact inverse of
/// encoding.
pub proof fn lemma_partial_signature_key_bytes_injective(
    k1: PartialSignatureKey,
    k2: PartialSignatureKey,
)
    ensures
        k1.spec_bytes() == k2.spec_bytes() ==> k1 == k2,
{
    if k1.spec_bytes() == k2.spec_bytes() {
        let x = k1.request_id;
        let y = k2.request_id;
        assert((x >> 56) as u8 == (y >> 56) as u8) by {
            assert(k1.spec_bytes()[1] == k2.spec_bytes()[1]);
        }
        assert((x >> 48) as u8 == (y >> 48) as u8) by {
            assert(k1.spec_bytes()[2] == k2.spec_bytes()[2]);
        }
        assert((x >> 40) as u8 == (y >> 40) as u8) by {
            assert(k1.spec_bytes()[3] == k2.spec_bytes()[3]);
        }
        assert((x >> 32) as u8 == (y >> 32) as u8) by {
            assert(k1.spec_bytes()[4] == k2.spec_bytes()[4]);
        }
        assert((x >> 24) as u8 == (y >> 24) as u8) by {
            assert(k1.spec_bytes()[5] == k2.spec_bytes()[5]);
        }
        assert((x >> 16) as u8 == (y >> 16) as u8) by {
            assert(k1.spec_bytes()[6] == k2.spec_bytes()[6]);
        }
        assert((x >> 8) as u8 == (y >> 8) as u8) by {
            assert(k1.spec_bytes()[7] == k2.spec_bytes()[7]);
        }
        assert(x as u8 == y as u8) by {
            assert(k1.spec_bytes()[8] == k2.spec_bytes()[8]);
        }
        lemma_u64_be_roundtrip(x);
        lemma_u64_be_roundtrip(y);
        let p = k1.peer_id;
        let q = k2.peer_id;
        assert((p >> 8) as u8 == (q >> 8) as u8) by {
            assert(k1.spec_bytes()[9] == k2.spec_bytes()[9]);
        }
        assert(p as u8 == q as u8) by {
            assert(k1.spec_bytes()[10] == k2.spec_bytes()[10]);
        }
        lemma_u16_be_roundtrip(p);
        lemma_u16_be_roundtrip(q);
    }
}

} // verus!

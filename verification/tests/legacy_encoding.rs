use minimint::encoding::{
    frame_consensus_item, unframe_consensus_item, ClientRequestError, DecodingError,
    PartialSignatureKey, PartialSignaturesPrefixKey,
};

#[test]
fn partial_signature_key_layout_is_wire_exact() {
    let key = PartialSignatureKey {
        request_id: 0x0102030405060708,
        peer_id: 0x0910,
    };
    let bytes = key.to_bytes();
    assert_eq!(
        bytes,
        vec![2, 0x01, 0x02, 0x03, 0x04, 0x05, 0x06, 0x07, 0x08, 0x09, 0x10]
    );
    assert_eq!(bytes.len(), 11);
    assert_eq!(PartialSignatureKey::from_bytes(&bytes), Ok(key));
}

#[test]
fn partial_signature_key_rejects_bad_records() {
    assert_eq!(
        PartialSignatureKey::from_bytes(&vec![2, 0, 0]),
        Err(DecodingError::WrongLength)
    );
    assert_eq!(
        PartialSignatureKey::from_bytes(&vec![3, 0, 0, 0, 0, 0, 0, 0, 0, 0, 0]),
        Err(DecodingError::WrongType)
    );
}

#[test]
fn partial_signatures_prefix_is_nine_bytes() {
    let prefix = PartialSignaturesPrefixKey { request_id: 0x0a0b0c0d0e0f1011 };
    assert_eq!(
        prefix.to_bytes(),
        vec![2, 0x0a, 0x0b, 0x0c, 0x0d, 0x0e, 0x0f, 0x10, 0x11]
    );
}

#[test]
fn consensus_item_framing_round_trips() {
    let payload = vec![5, 6, 7];
    let framed = frame_consensus_item(&payload);
    assert_eq!(framed, vec![1, 5, 6, 7]);
    assert_eq!(unframe_consensus_item(&framed), Ok(payload));
    assert_eq!(
        unframe_consensus_item(&vec![]),
        Err(DecodingError::WrongLength)
    );
    assert_eq!(
        unframe_consensus_item(&vec![2, 1]),
        Err(DecodingError::WrongType)
    );
}

#[test]
fn request_errors_carry_their_messages() {
    assert_eq!(
        ClientRequestError::InvalidTransactionSignature.describe(),
        "client request was not authorized with a valid signature"
    );
    assert_eq!(
        ClientRequestError::DeniedByMint.describe(),
        "client request was denied by mint (double spend or invalid mint signature)"
    );
}

use poc::packet::PayloadError;
use poc::payload::Payload;
use poc::payload::PayloadBuilder;

#[test]
fn byte_builder_collects_both_parts() {
    let public = b"{\"a\":1}".to_vec();
    let masked = b"{\"b\":2}".to_vec();
    let payload = PayloadBuilder::new().public(&public).masked(&masked).build();
    assert_eq!(payload.public, public);
    assert_eq!(payload.masked, masked);
}

#[test]
fn byte_unwrap_empty_is_none() {
    assert!(Payload::unwrap_data(&Vec::new()).is_none());
}

#[test]
fn byte_unwrap_returns_the_bytes() {
    let data = b"sample".to_vec();
    assert_eq!(Payload::unwrap_data(&data), Some(data));
}

#[test]
fn tryte_builder_encodes_base64_then_trytes() {
    let data = b"hello".to_vec();
    let payload = poc::packet::PayloadBuilder::new().public(&data).build();
    // base64 of "hello" is "aGVsbG8"; each character becomes two trytes
    assert_eq!(payload.public, "PCQBECGDQCQBBB");
    assert_eq!(payload.masked, "");
}

#[test]
fn tryte_round_trip() {
    let public = b"public text".to_vec();
    let masked = b"masked text".to_vec();
    let payload = poc::packet::PayloadBuilder::new().public(&public).masked(&masked).build();
    assert_eq!(poc::packet::Payload::unwrap_data(&payload.public), Ok(public));
    assert_eq!(poc::packet::Payload::unwrap_data(&payload.masked), Ok(masked));
}

#[test]
fn tryte_round_trip_empty() {
    let payload = poc::packet::PayloadBuilder::new().public(&Vec::new()).build();
    assert_eq!(payload.public, "");
    assert_eq!(poc::packet::Payload::unwrap_data(&payload.public), Ok(Vec::new()));
}

#[test]
fn tryte_unwrap_rejects_non_trytes() {
    let data = String::from("!!");
    assert_eq!(poc::packet::Payload::unwrap_data(&data), Err(PayloadError::NotTrytes));
}

#[test]
fn tryte_unwrap_rejects_non_ascii() {
    let data = String::from("ABÉ");
    assert_eq!(poc::packet::Payload::unwrap_data(&data), Err(PayloadError::NotTrytes));
}

#[test]
fn tryte_unwrap_rejects_non_base64() {
    // "RD" decodes to "~", which is not a base64 character
    let data = String::from("RD");
    assert_eq!(poc::packet::Payload::unwrap_data(&data), Err(PayloadError::NotBase64));
}

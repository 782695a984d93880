use poc::transport::FetchMessageContentType;
use poc::transport::SendTrytesOptions;
use poc::transport::TransportError;

#[test]
fn it_works() {
    assert_eq!(2 + 2, 4);
}

#[test]
fn default_send_options() {
    let opt = SendTrytesOptions::default();
    assert_eq!(opt.depth, 3);
    assert_eq!(opt.min_weight_magnitude, 10);
    assert!(opt.local_pow);
}

#[test]
fn send_options_are_copyable() {
    let a = SendTrytesOptions::default();
    let b = a;
    assert_eq!(a, b);
}

#[test]
fn transport_error_variants_are_distinct() {
    assert_ne!(TransportError::MalformedIdentifier, TransportError::SubmissionError);
    assert_ne!(TransportError::SubmissionError, TransportError::AmbiguousLookup);
    assert_ne!(TransportError::MalformedIdentifier, TransportError::AmbiguousLookup);
}

#[test]
fn content_types_are_distinct() {
    assert_ne!(FetchMessageContentType::SignedPacket, FetchMessageContentType::TaggedPacket);
}

use poc::transaction::Message;
use poc::transaction::TangleAddress;
use poc::transport::FetchMessageContentType;
use poc::transport::FetchedPacket;
use poc::transport::TransportError;
use poc::transport::filter_packets;
use poc::transport::receive_one;

fn msg(tag: &[u8], body: &[u8]) -> Message {
    Message {
        link: TangleAddress { appinst: b"app".to_vec(), msgid: tag.to_vec() },
        body: body.to_vec(),
    }
}

#[test]
fn receive_one_no_match_is_none() {
    let msgs = vec![msg(b"one", b"x"), msg(b"two", b"y")];
    match receive_one(&msgs, &b"three".to_vec()) {
        Ok(None) => {}
        _ => panic!("expected no match"),
    }
}

#[test]
fn receive_one_single_match_returns_it() {
    let msgs = vec![msg(b"one", b"x"), msg(b"two", b"y")];
    match receive_one(&msgs, &b"two".to_vec()) {
        Ok(Some(m)) => {
            assert_eq!(m.link.msgid, b"two".to_vec());
            assert_eq!(m.body, b"y".to_vec());
        }
        _ => panic!("expected exactly one match"),
    }
}

#[test]
fn receive_one_ambiguous_is_an_error() {
    let msgs = vec![msg(b"one", b"x"), msg(b"one", b"y")];
    match receive_one(&msgs, &b"one".to_vec()) {
        Err(e) => assert_eq!(e, TransportError::AmbiguousLookup),
        _ => panic!("expected an ambiguous lookup"),
    }
}

#[test]
fn receive_one_empty_list_is_none() {
    let msgs: Vec<Message> = Vec::new();
    match receive_one(&msgs, &b"any".to_vec()) {
        Ok(None) => {}
        _ => panic!("expected no match"),
    }
}

fn packet(kind: FetchMessageContentType, body: &[u8]) -> FetchedPacket {
    FetchedPacket {
        kind,
        link: TangleAddress { appinst: b"app".to_vec(), msgid: b"tag".to_vec() },
        public: body.to_vec(),
        masked: Vec::new(),
    }
}

#[test]
fn filter_packets_keeps_the_wanted_kind_in_order() {
    let packets = vec![
        packet(FetchMessageContentType::SignedPacket, b"s1"),
        packet(FetchMessageContentType::TaggedPacket, b"t1"),
        packet(FetchMessageContentType::SignedPacket, b"s2"),
    ];
    let kept = filter_packets(&packets, FetchMessageContentType::SignedPacket, true);
    assert_eq!(kept.len(), 2);
    assert_eq!(kept[0].public, b"s1".to_vec());
    assert_eq!(kept[1].public, b"s2".to_vec());
    let tagged = filter_packets(&packets, FetchMessageContentType::TaggedPacket, true);
    assert_eq!(tagged.len(), 1);
    assert_eq!(tagged[0].public, b"t1".to_vec());
}

#[test]
fn filter_packets_without_loading_keeps_nothing() {
    let packets = vec![packet(FetchMessageContentType::SignedPacket, b"s1")];
    let kept = filter_packets(&packets, FetchMessageContentType::SignedPacket, false);
    assert!(kept.is_empty());
}

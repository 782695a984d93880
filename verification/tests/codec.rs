use poc::encode::make_txs;
use poc::encode::msg_to_bundle;
use poc::encode::pad_trits;
use poc::reconstruct::bundle_to_message;
use poc::reconstruct::bundles_from_transactions;
use poc::reconstruct::messages_from_transactions;
use poc::transaction::Message;
use poc::transaction::TangleAddress;
use poc::transaction::Transaction;
use poc::transport::attach_order;

fn address_a() -> Vec<u8> {
    vec![b'A'; 243]
}

fn tag_b() -> Vec<u8> {
    vec![b'B'; 81]
}

fn tx(
    address: Vec<u8>,
    tag: Vec<u8>,
    bundle_hash: Vec<u8>,
    index: u64,
    last_index: u64,
    payload: Vec<u8>,
) -> Transaction {
    Transaction { address, tag, bundle_hash, index, last_index, payload, timestamp: 7 }
}

#[test]
fn encoder_scenario_two_chunks() {
    // payload of one full chunk of 'C' plus 100 'D' symbols
    let mut payload = vec![b'C'; 6561];
    payload.extend(vec![b'D'; 100]);
    let txs = make_txs(&address_a(), &tag_b(), &payload, 42);

    assert_eq!(txs.len(), 2);
    assert_eq!(txs[0].index, 0);
    assert_eq!(txs[0].last_index, 1);
    assert_eq!(txs[0].payload, vec![b'C'; 6561]);
    assert_eq!(txs[1].index, 1);
    assert_eq!(txs[1].last_index, 1);
    let mut expected_tail = vec![b'D'; 100];
    expected_tail.extend(vec![0u8; 6461]);
    assert_eq!(txs[1].payload, expected_tail);
    for t in &txs {
        assert_eq!(t.address, address_a());
        assert_eq!(t.tag, tag_b());
        assert_eq!(t.timestamp, 42);
        assert_eq!(t.bundle_hash, vec![0u8; 243]);
    }

    // the reconstructor, fed the two transactions in reverse order, returns
    // one bundle whose payload is the original followed by the zero padding
    let reversed = vec![txs[1].clone(), txs[0].clone()];
    let msgs = messages_from_transactions(&reversed);
    assert_eq!(msgs.len(), 1);
    assert_eq!(msgs[0].link.appinst, address_a());
    assert_eq!(msgs[0].link.msgid, tag_b());
    let mut expected = payload.clone();
    expected.extend(vec![0u8; 6461]);
    assert_eq!(msgs[0].body, expected);
}

#[test]
fn encoder_empty_payload_still_one_transaction() {
    let txs = make_txs(&address_a(), &tag_b(), &Vec::new(), 1);
    assert_eq!(txs.len(), 1);
    assert_eq!(txs[0].index, 0);
    assert_eq!(txs[0].last_index, 0);
    assert_eq!(txs[0].payload, vec![0u8; 6561]);
}

#[test]
fn encoder_exact_chunk_no_extra_padding() {
    let payload = vec![b'E'; 6561];
    let txs = make_txs(&address_a(), &tag_b(), &payload, 1);
    assert_eq!(txs.len(), 1);
    assert_eq!(txs[0].payload, payload);
}

#[test]
fn round_trip_small_payload() {
    let payload = vec![7u8; 100];
    let link = TangleAddress { appinst: address_a(), msgid: tag_b() };
    let msg = Message { link, body: payload.clone() };
    let bundle = msg_to_bundle(&msg, 9);
    let msgs = messages_from_transactions(&bundle);
    assert_eq!(msgs.len(), 1);
    let mut expected = payload;
    expected.extend(vec![0u8; 6461]);
    assert_eq!(msgs[0].body, expected);
    assert_eq!(msgs[0].link.appinst, address_a());
    assert_eq!(msgs[0].link.msgid, tag_b());
}

#[test]
fn pad_trits_pads_and_keeps() {
    let s = vec![1u8, 2, 3];
    assert_eq!(pad_trits(5, &s), vec![1, 2, 3, 0, 0]);
    assert_eq!(pad_trits(2, &s), vec![1, 2, 3]);
    assert_eq!(pad_trits(3, &s), vec![1, 2, 3]);
}

#[test]
fn partition_preserves_every_transaction() {
    let hash_x = vec![1u8; 243];
    let hash_y = vec![2u8; 243];
    let addr2 = vec![b'Z'; 243];
    let txs = vec![
        tx(addr2.clone(), tag_b(), hash_x.clone(), 1, 1, vec![4; 6561]),
        tx(address_a(), tag_b(), hash_x.clone(), 0, 1, vec![1; 6561]),
        tx(address_a(), tag_b(), hash_y.clone(), 0, 0, vec![3; 6561]),
        tx(addr2.clone(), tag_b(), hash_x.clone(), 0, 1, vec![4; 6561]),
        tx(address_a(), tag_b(), hash_x.clone(), 1, 1, vec![2; 6561]),
    ];
    let bundles = bundles_from_transactions(&txs);
    let total: usize = bundles.iter().map(|b| b.len()).sum();
    assert_eq!(total, txs.len());
    assert_eq!(bundles.len(), 3);
    for b in &bundles {
        assert!(!b.is_empty());
        for t in b {
            assert_eq!(t.address, b[0].address);
            assert_eq!(t.tag, b[0].tag);
            assert_eq!(t.bundle_hash, b[0].bundle_hash);
        }
    }
}

#[test]
fn ordering_single_transaction_bundle() {
    let txs = vec![tx(address_a(), tag_b(), vec![0; 243], 0, 0, vec![5; 6561])];
    let bundles = bundles_from_transactions(&txs);
    assert_eq!(bundles.len(), 1);
    assert_eq!(bundles[0].len(), 1);
    let msg = bundle_to_message(&bundles[0]);
    assert_eq!(msg.body, vec![5; 6561]);
}

#[test]
fn ordering_two_transactions_shuffled() {
    let hash = vec![9u8; 243];
    let t0 = tx(address_a(), tag_b(), hash.clone(), 0, 1, vec![10; 6561]);
    let t1 = tx(address_a(), tag_b(), hash.clone(), 1, 1, vec![11; 6561]);
    let shuffled = vec![t1.clone(), t0.clone()];
    let bundles = bundles_from_transactions(&shuffled);
    assert_eq!(bundles.len(), 1);
    assert_eq!(bundles[0][0].index, 0);
    assert_eq!(bundles[0][1].index, 1);
    let msg = bundle_to_message(&bundles[0]);
    let mut expected = vec![10u8; 6561];
    expected.extend(vec![11u8; 6561]);
    assert_eq!(msg.body, expected);
}

#[test]
fn ordering_five_transactions_shuffled() {
    let hash = vec![3u8; 243];
    let mk = |i: u64| tx(address_a(), tag_b(), hash.clone(), i, 4, vec![i as u8; 6561]);
    let shuffled = vec![mk(3), mk(0), mk(4), mk(2), mk(1)];
    let bundles = bundles_from_transactions(&shuffled);
    assert_eq!(bundles.len(), 1);
    let indices: Vec<u64> = bundles[0].iter().map(|t| t.index).collect();
    assert_eq!(indices, vec![0, 1, 2, 3, 4]);
    let msg = bundle_to_message(&bundles[0]);
    let mut expected: Vec<u8> = Vec::new();
    for i in 0..5u8 {
        expected.extend(vec![i; 6561]);
    }
    assert_eq!(msg.body, expected);
}

#[test]
fn reconstruction_is_idempotent() {
    let hash = vec![8u8; 243];
    let txs = vec![
        tx(address_a(), tag_b(), hash.clone(), 1, 1, vec![2; 6561]),
        tx(address_a(), tag_b(), hash.clone(), 0, 1, vec![1; 6561]),
    ];
    let first = messages_from_transactions(&txs);
    let second = messages_from_transactions(&txs);
    assert_eq!(first.len(), second.len());
    for (a, b) in first.iter().zip(second.iter()) {
        assert_eq!(a.link.appinst, b.link.appinst);
        assert_eq!(a.link.msgid, b.link.msgid);
        assert_eq!(a.body, b.body);
    }
}

#[test]
fn same_address_and_tag_different_hash_split() {
    let hash_x = vec![1u8; 243];
    let hash_y = vec![2u8; 243];
    let txs = vec![
        tx(address_a(), tag_b(), hash_x, 0, 0, vec![1; 6561]),
        tx(address_a(), tag_b(), hash_y, 0, 0, vec![2; 6561]),
    ];
    let bundles = bundles_from_transactions(&txs);
    assert_eq!(bundles.len(), 2);
    assert_eq!(bundles[0].len(), 1);
    assert_eq!(bundles[1].len(), 1);
    assert_ne!(bundles[0][0].bundle_hash, bundles[1][0].bundle_hash);
}

#[test]
fn empty_transaction_list_reconstructs_to_nothing() {
    let txs: Vec<Transaction> = Vec::new();
    let msgs = messages_from_transactions(&txs);
    assert!(msgs.is_empty());
    let bundles = bundles_from_transactions(&txs);
    assert!(bundles.is_empty());
}

#[test]
fn attach_order_reverses_the_bundle() {
    let payload = vec![b'C'; 7000];
    let txs = make_txs(&address_a(), &tag_b(), &payload, 5);
    assert_eq!(txs.len(), 2);
    let wire = attach_order(&txs);
    assert_eq!(wire.len(), 2);
    assert_eq!(wire[0].index, 1);
    assert_eq!(wire[1].index, 0);
}

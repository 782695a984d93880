use poc::msg_index::get_message_index;
use poc::random::make_random_data;
use poc::random::make_random_seed;
use poc::transaction::TangleAddress;

#[test]
fn message_index_of_empty_link() {
    let link = TangleAddress { appinst: Vec::new(), msgid: Vec::new() };
    // BLAKE2b-256 of the empty input
    assert_eq!(
        get_message_index(&link),
        "0e5751c026e543b2e8ab2eb06099daa1d1e5df47778f7787faab45cdf12fe3a8"
    );
}

#[test]
fn message_index_digests_appinst_then_msgid() {
    let link = TangleAddress { appinst: b"ABCD".to_vec(), msgid: b"tag9".to_vec() };
    // BLAKE2b-256 of "ABCDtag9"
    assert_eq!(
        get_message_index(&link),
        "6c511f5e582f48616633df86e0e6265feed968dfe5b863cfbeb6e32828348873"
    );
}

#[test]
fn random_seed_has_81_seed_symbols() {
    let seed = make_random_seed();
    assert_eq!(seed.len(), 81);
    for c in seed.chars() {
        assert!(c.is_ascii_uppercase() || c == '9');
    }
}

#[test]
fn random_seeds_differ() {
    // 27^81 possibilities: two equal draws would mean the generator is stuck
    let a = make_random_seed();
    let b = make_random_seed();
    assert_ne!(a, b);
}

#[test]
fn random_data_has_requested_length_and_alphabet() {
    let data = make_random_data(50);
    assert_eq!(data.len(), 50);
    for c in data.chars() {
        assert!(
            c.is_ascii_alphanumeric() || c == ' ' || c == ';' || c == ',' || c == '.'
        );
    }
    assert_eq!(make_random_data(0).len(), 0);
}

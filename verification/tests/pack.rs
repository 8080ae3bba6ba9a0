use bytes::Bytes;
use cicache::pack::{decode, encode, PackError};

fn sample() -> Vec<(String, Bytes)> {
    vec![
        ("alpha".to_string(), Bytes::from_static(b"first body")),
        ("beta".to_string(), Bytes::from_static(b"second body")),
    ]
}

#[test]
fn round_trips() {
    let encoded = encode(&sample(), u64::MAX);
    assert_eq!(decode(&encoded).unwrap(), sample());
}

#[test]
fn stops_at_the_size_ceiling() {
    let encoded = encode(&sample(), 40);
    let decoded = decode(&encoded).unwrap();
    assert_eq!(decoded.len(), 1);
    assert_eq!(decoded[0].0, "alpha");
}

#[test]
fn recovers_what_survives_truncation() {
    let encoded = encode(&sample(), u64::MAX);
    let truncated = encoded.slice(..encoded.len() - 3);
    let decoded = decode(&truncated).unwrap();
    assert_eq!(decoded.len(), 1);
    assert_eq!(decoded[0].0, "alpha");
}

#[test]
fn rejects_foreign_data() {
    assert!(decode(&Bytes::from_static(b"not a pack at all")).is_err());
}

#[test]
fn the_container_is_laid_out_as_documented() {
    let encoded = encode(&[("k".to_string(), Bytes::from_static(b"xyz"))], u64::MAX);
    assert_eq!(
        encoded.as_ref(),
        b"CICP\x01\x00\x00\x00k\x03\x00\x00\x00\x00\x00\x00\x00xyz".as_slice()
    );
}

#[test]
fn an_object_that_does_not_fit_makes_room_for_a_smaller_one() {
    let objects = vec![
        ("big".to_string(), Bytes::from(vec![7u8; 100])),
        ("s".to_string(), Bytes::from_static(b"1")),
    ];
    let decoded = decode(&encode(&objects, 40)).unwrap();
    assert_eq!(decoded, vec![objects[1].clone()]);
}

#[test]
fn no_container_outgrows_its_ceiling() {
    for ceiling in 4u64..60 {
        assert!(encode(&sample(), ceiling).len() as u64 <= ceiling);
    }
    assert_eq!(encode(&sample(), 0).len(), 4);
}

#[test]
fn every_cut_leaves_the_whole_records_before_it() {
    let encoded = encode(&sample(), u64::MAX);
    let first = 4 + 12 + 5 + 10;
    for cut in 4..encoded.len() {
        let decoded = decode(&encoded.slice(..cut)).unwrap();
        assert_eq!(decoded.len(), if cut < first { 0 } else { 1 });
    }
    assert!(matches!(decode(&encoded.slice(..3)), Err(PackError::NotAPack)));
}

#[test]
fn a_key_that_is_not_text_ends_the_container() {
    let raw = Bytes::from_static(b"CICP\x01\x00\x00\x00\xff\x00\x00\x00\x00\x00\x00\x00\x00");
    assert_eq!(decode(&raw).unwrap(), vec![]);
}

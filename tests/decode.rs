use tikv_dump::codec::DecodeError;
use tikv_dump::inspect::{
    inspect_log_entry, inspect_region, parse_number, plan_request, request_key, EntryLookup,
    Request, RequestError, RequestOptions,
};
use tikv_dump::keys::{raft_log_key, region_info_key};
use tikv_dump::record::{decode_command, decode_log_entry, decode_region, entry_from_fields, pair_from_fields};
use tikv_dump::wire::field;

fn envelope(term: u8, index: u8, data: &[u8]) -> Vec<u8> {
    let mut b = vec![0x08, 0x00, 0x10, term, 0x18, index, 0x22, data.len() as u8];
    b.extend_from_slice(data);
    b
}

#[test]
fn entry_with_garbage_payload() {
    let stored = envelope(6, 10, &[0xff, 0xff, 0xff]);
    match inspect_log_entry(Some(&stored)) {
        EntryLookup::Found(e, cmd) => {
            assert_eq!(e.entry_type, 0);
            assert_eq!(e.term, 6);
            assert_eq!(e.index, 10);
            assert_eq!(e.data, vec![0xff, 0xff, 0xff]);
            assert_eq!(cmd.unwrap_err(), DecodeError::PayloadMalformed);
        }
        other => panic!("unexpected {:?}", other),
    }
}

#[test]
fn entry_lookup_outcomes_are_distinct() {
    assert!(matches!(inspect_log_entry(None), EntryLookup::NotFound));
    assert!(matches!(
        inspect_log_entry(Some(&[0xff])),
        EntryLookup::Malformed(DecodeError::EnvelopeMalformed)
    ));
    assert!(matches!(
        inspect_log_entry(Some(&[0x12, 0x00])),
        EntryLookup::Malformed(DecodeError::EnvelopeMalformed)
    ));
}

#[test]
fn entry_with_command_payload() {
    let cmd = [0x0a, 0x02, 0x08, 0x01, 0x12, 0x02, 0x08, 0x02, 0x12, 0x00];
    let stored = envelope(1, 2, &cmd);
    match inspect_log_entry(Some(&stored)) {
        EntryLookup::Found(e, Ok(c)) => {
            assert_eq!(e.index, 2);
            assert_eq!(c.header, Some(vec![0x08, 0x01]));
            assert_eq!(c.requests, vec![vec![0x08, 0x02], vec![]]);
            assert_eq!(c.admin_request, None);
            assert_eq!(c.status_request, None);
        }
        other => panic!("unexpected {:?}", other),
    }
}

#[test]
fn empty_bytes_decode_to_defaults() {
    let e = decode_log_entry(&[]).unwrap();
    assert_eq!((e.entry_type, e.term, e.index), (0, 0, 0));
    assert!(e.data.is_empty());
    let c = decode_command(&[]).unwrap();
    assert!(c.header.is_none() && c.requests.is_empty());
}

#[test]
fn last_value_of_a_field_wins() {
    let e = decode_log_entry(&[0x10, 0x01, 0x10, 0x09]).unwrap();
    assert_eq!(e.term, 9);
}

#[test]
fn command_with_corrupt_nested_message() {
    assert_eq!(decode_command(&[0x0a, 0x01, 0xff]).unwrap_err(), DecodeError::PayloadMalformed);
    assert_eq!(decode_command(&[0x12, 0x01, 0x07]).unwrap_err(), DecodeError::PayloadMalformed);
    assert_eq!(decode_command(&[0x22, 0x02, 0x08, 0x80]).unwrap_err(), DecodeError::PayloadMalformed);
    assert!(decode_command(&[0x1a, 0x02, 0x08, 0x01]).is_ok());
    let stored = envelope(1, 2, &[0x0a, 0x01, 0xff]);
    assert!(matches!(
        inspect_log_entry(Some(&stored)),
        EntryLookup::Found(_, Err(DecodeError::PayloadMalformed))
    ));
}

#[test]
fn command_wrong_wire_type() {
    assert_eq!(decode_command(&[0x08, 0x01]).unwrap_err(), DecodeError::PayloadMalformed);
}

#[test]
fn region_record_decodes() {
    let b = [
        0x08, 0x05, 0x12, 0x01, b'a', 0x1a, 0x01, b'z', 0x22, 0x04, 0x08, 0x01, 0x10, 0x02, 0x2a,
        0x04, 0x08, 0x07, 0x10, 0x03, 0x2a, 0x02, 0x08, 0x08,
    ];
    let r = inspect_region(Some(&b)).unwrap().unwrap();
    assert_eq!(r.id, 5);
    assert_eq!(r.start_key, b"a".to_vec());
    assert_eq!(r.end_key, b"z".to_vec());
    assert_eq!(r.region_epoch, Some((1, 2)));
    assert_eq!(r.peers, vec![(7, 3), (8, 0)]);
}

#[test]
fn region_lookup_outcomes() {
    assert!(matches!(inspect_region(None), Ok(None)));
    assert_eq!(inspect_region(Some(&[0x08])).unwrap_err(), DecodeError::MetadataMalformed);
    assert_eq!(decode_region(&[0x2a, 0x01, 0xff]).unwrap_err(), DecodeError::MetadataMalformed);
    assert_eq!(decode_region(&[0x0a, 0x00]).unwrap_err(), DecodeError::MetadataMalformed);
}

#[test]
fn field_reads_through_protobuf() {
    let f = field(&[0x08, 0x05, 0x08, 0x06, 0x12, 0x01, 0x61], 1).unwrap();
    assert_eq!(f.varint, vec![5, 6]);
    assert!(f.length_delimited.is_empty());
    let g = field(&[0x08, 0x05, 0x12, 0x01, 0x61], 2).unwrap();
    assert_eq!(g.length_delimited, vec![vec![0x61]]);
    assert!(field(&[0x08], 1).is_none());
    assert_eq!(pair_from_fields(&f, &g), None);
    let h = field(&[0x08, 0x05], 3).unwrap();
    assert_eq!(pair_from_fields(&f, &h), Some((6, 0)));
    let e = entry_from_fields(&h, &f, &h, &g).unwrap();
    assert_eq!((e.term, e.data.clone()), (6, vec![0x61]));
}

#[test]
fn numbers_parse() {
    assert_eq!(parse_number("10"), Some(10));
    assert_eq!(parse_number("0"), Some(0));
    assert_eq!(parse_number("18446744073709551615"), Some(u64::MAX));
    assert_eq!(parse_number("18446744073709551616"), None);
    assert_eq!(parse_number(""), None);
    assert_eq!(parse_number("1a"), None);
    assert_eq!(parse_number("-1"), None);
    assert_eq!(parse_number("+10"), Some(10));
    assert_eq!(parse_number("+"), None);
    assert_eq!(parse_number("++1"), None);
    assert_eq!(parse_number("1+"), None);
}

fn opts() -> RequestOptions {
    RequestOptions { key: None, index: None, region: None, info: false, from: None, to: None, limit: None }
}

#[test]
fn requests_are_planned() {
    let mut o = opts();
    o.key = Some("a\\001".to_string());
    assert!(matches!(plan_request(&o), Ok(Request::RawValue { key }) if key == vec![b'a', 1]));

    let mut o = opts();
    o.index = Some("10".to_string());
    assert_eq!(plan_request(&o).unwrap_err(), RequestError::MissingRegion);
    o.region = Some("5".to_string());
    let r = plan_request(&o).unwrap();
    assert!(matches!(r, Request::LogEntry { region_id: 5, index: 10 }));
    assert_eq!(request_key(&r), Some(raft_log_key(5, 10)));
    o.index = Some("x".to_string());
    assert_eq!(plan_request(&o).unwrap_err(), RequestError::BadNumber);

    let mut o = opts();
    o.info = true;
    o.region = Some("5".to_string());
    let r = plan_request(&o).unwrap();
    assert_eq!(request_key(&r), Some(region_info_key(5)));

    let mut o = opts();
    o.from = Some("a".to_string());
    match plan_request(&o).unwrap() {
        Request::Range { lower, upper, limit } => {
            assert_eq!(lower, b"a".to_vec());
            assert_eq!(upper, vec![0xff]);
            assert_eq!(limit, u64::MAX);
        }
        other => panic!("unexpected {:?}", other),
    }
    o.to = Some("z".to_string());
    o.limit = Some("2".to_string());
    assert!(matches!(plan_request(&o), Ok(Request::Range { limit: 2, .. })));
    o.to = Some("\\q".to_string());
    assert_eq!(plan_request(&o).unwrap_err(), RequestError::BadEscape);

    assert_eq!(plan_request(&opts()).unwrap_err(), RequestError::NoOperation);
}

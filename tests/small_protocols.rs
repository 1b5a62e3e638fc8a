use protohackers::means_to_an_end::{decode, MeansToAnEnd, Operation, Outcome, PriceLog};
use protohackers::smoke_test::SmokeTest;
use protohackers::utils::data_to_hex;

#[test]
fn hex_dump() {
    assert_eq!(data_to_hex(&[]), "");
    assert_eq!(data_to_hex(&[0x0a]), "0A");
    assert_eq!(data_to_hex(&[0x0a, 0xff, 0x00]), "0A FF 00");
}

#[test]
fn protocol_values() {
    assert_eq!(SmokeTest::new(), SmokeTest);
    assert_eq!(MeansToAnEnd::new(), MeansToAnEnd);
}

#[test]
fn decodes_price_messages() {
    assert_eq!(
        decode(&[0x49, 0x00, 0x00, 0x30, 0x39, 0x00, 0x00, 0x00, 0x65]),
        Operation::Insert { timestamp: 12345, price: 101 }
    );
    assert_eq!(
        decode(&[0x51, 0xff, 0xff, 0xff, 0xff, 0x80, 0x00, 0x00, 0x00]),
        Operation::Query { min_time: -1, max_time: i32::MIN }
    );
    assert_eq!(decode(&[0x58, 0, 0, 0, 0, 0, 0, 0, 0]), Operation::Other(0x58));
}

#[test]
fn queries_prices_in_a_span() {
    let mut log = PriceLog::new();
    let insert = |t: i32, p: i32| {
        let mut m = vec![b'I'];
        m.extend_from_slice(&t.to_be_bytes());
        m.extend_from_slice(&p.to_be_bytes());
        m
    };
    assert_eq!(log.apply(&insert(12345, 101)), Outcome::Stored);
    assert_eq!(log.apply(&insert(12346, 102)), Outcome::Stored);
    assert_eq!(log.apply(&insert(12347, 100)), Outcome::Stored);
    assert_eq!(log.apply(&insert(40960, 5)), Outcome::Stored);
    let mut q = vec![b'Q'];
    q.extend_from_slice(&12288i32.to_be_bytes());
    q.extend_from_slice(&16384i32.to_be_bytes());
    assert_eq!(log.apply(&q), Outcome::Prices(vec![101, 102, 100]));
    let mut empty = vec![b'Q'];
    empty.extend_from_slice(&10i32.to_be_bytes());
    empty.extend_from_slice(&5i32.to_be_bytes());
    assert_eq!(log.apply(&empty), Outcome::Prices(vec![]));
    assert_eq!(log.apply(&[b'Z', 0, 0, 0, 0, 0, 0, 0, 0]), Outcome::Stop);
    assert_eq!(log.prices(i32::MIN, i32::MAX), vec![101, 102, 100, 5]);
}

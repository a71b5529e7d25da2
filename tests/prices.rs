use protohackers::prices::{InsertMessage, Message, PriceStore, QueryMessage, RawMessage};

#[test]
fn parse_test() {
    let msg: RawMessage = [b'I', 0, 0, 0, 1, 0, 0, 0, 1];
    assert_eq!(
        true,
        matches!(
            Message::from(msg),
            Message::Insert(InsertMessage {
                timestamp: 1,
                price: 1
            })
        )
    );

    let msg: RawMessage = [b'Q', 0, 0, 0, 1, 0, 0, 0, 1];
    assert_eq!(
        true,
        matches!(
            Message::from(msg),
            Message::Query(QueryMessage {
                max_time: 1,
                min_time: 1
            })
        )
    );

    let msg: RawMessage = [b'S', 0, 0, 0, 1, 0, 0, 0, 1];
    assert_eq!(
        false,
        matches!(
            Message::from(msg),
            Message::Insert(InsertMessage {
                timestamp: 1,
                price: 1
            })
        )
    );
}

#[test]
fn decodes_big_endian_signed_fields() {
    let msg: RawMessage = [b'I', 0x00, 0x00, 0x30, 0x39, 0xFF, 0xFF, 0xFF, 0x9C];
    assert!(matches!(
        Message::from(msg),
        Message::Insert(InsertMessage { timestamp: 12345, price: -100 })
    ));
    let msg: RawMessage = [b'Q', 0x80, 0, 0, 0, 0x7F, 0xFF, 0xFF, 0xFF];
    assert!(matches!(
        Message::from(msg),
        Message::Query(QueryMessage { min_time: i32::MIN, max_time: i32::MAX })
    ));
    assert!(matches!(Message::from([0u8; 9]), Message::Undefined));
}

fn insert(store: &mut PriceStore, timestamp: i32, price: i32) {
    let answer = store.apply(&Message::Insert(InsertMessage { timestamp, price }));
    assert!(answer.is_none());
}

fn query(store: &mut PriceStore, min_time: i32, max_time: i32) -> Vec<u8> {
    store.apply(&Message::Query(QueryMessage { min_time, max_time })).unwrap()
}

#[test]
fn session_example_means() {
    let mut store = PriceStore::new();
    insert(&mut store, 12345, 101);
    insert(&mut store, 12346, 102);
    insert(&mut store, 12347, 100);
    insert(&mut store, 40960, 5);
    assert_eq!(query(&mut store, 12288, 16384), vec![0, 0, 0, 101]);
    assert_eq!(store.mean(12288, 16384), 101);
    assert_eq!(store.mean(0, i32::MAX), 77);
}

#[test]
fn empty_and_reversed_ranges_give_zero() {
    let mut store = PriceStore::new();
    assert_eq!(query(&mut store, 0, 10), vec![0, 0, 0, 0]);
    insert(&mut store, 5, 50);
    assert_eq!(query(&mut store, 10, 0), vec![0, 0, 0, 0]);
    assert_eq!(query(&mut store, 6, 9), vec![0, 0, 0, 0]);
    assert_eq!(store.apply(&Message::Undefined), Some(vec![0, 0, 0, 0]));
}

#[test]
fn later_insert_replaces_price() {
    let mut store = PriceStore::new();
    insert(&mut store, 7, 10);
    insert(&mut store, 7, 30);
    assert_eq!(store.mean(7, 7), 30);
}

#[test]
fn negative_mean_rounds_toward_zero() {
    let mut store = PriceStore::new();
    insert(&mut store, 1, -3);
    insert(&mut store, 2, -4);
    assert_eq!(store.mean(1, 2), -3);
    assert_eq!(query(&mut store, 1, 2), vec![0xFF, 0xFF, 0xFF, 0xFD]);
}

#[test]
fn extreme_prices_do_not_overflow() {
    let mut store = PriceStore::new();
    insert(&mut store, 1, i32::MAX);
    insert(&mut store, 2, i32::MAX);
    insert(&mut store, 3, i32::MIN);
    insert(&mut store, 4, i32::MIN);
    assert_eq!(store.mean(1, 2), i32::MAX);
    assert_eq!(store.mean(3, 4), i32::MIN);
    assert_eq!(query(&mut store, 1, 1), vec![0x7F, 0xFF, 0xFF, 0xFF]);
    insert(&mut store, 5, 0x0102_0304);
    assert_eq!(query(&mut store, 5, 5), vec![1, 2, 3, 4]);
}

use table::error::Error;
use table::table::Table;

fn encode_pair(number: u32, boolean: bool) -> Vec<u8> {
    rmp_serde::to_vec(&(number, boolean)).unwrap()
}

#[test]
fn serialize() {
    let test = (5u32, true);
    let ex_bytes = [0x92, 0x05, 0xc3];

    let mut table = Table::new();
    let encoded = rmp_serde::to_vec(&test).unwrap();
    table.push(&encoded);

    // the data image must hold exactly the encoded bytes of the one record
    assert_eq!(table.data_size(), 3);
    assert_eq!(table.get(0).unwrap().as_slice(), ex_bytes);

    let popped = table.pop().unwrap();
    let de: (u32, bool) = rmp_serde::from_slice(&popped).unwrap();
    assert_eq!(test, de);

    // after the pop, the data image is back to zero bytes
    assert_eq!(table.data_size(), 0);
    assert!(table.is_empty());
}

#[test]
fn push_pop_roundtrip() {
    let mut table = Table::new();
    table.push(&vec![1, 2, 3]);
    let len_before = table.len();

    let record = vec![9, 8, 7, 6];
    table.push(&record);
    let back = table.pop();

    assert_eq!(back, Some(record));
    assert_eq!(table.len(), len_before);
}

#[test]
fn length_invariant() {
    let mut table = Table::new();
    table.push(&vec![1]);
    table.push(&vec![2, 3]);
    table.push(&vec![4, 5, 6]);
    assert_eq!(table.len(), 3);
    assert_eq!(table.data_size(), 6);

    table.pop();
    assert_eq!(table.len(), 2);
    assert_eq!(table.data_size(), 3);

    table.push(&vec![7, 8]);
    table.push(&Vec::new());
    assert_eq!(table.len(), 4);
    assert_eq!(table.data_size(), 5);

    table.pop();
    table.pop();
    table.pop();
    table.pop();
    assert_eq!(table.len(), 0);
    assert_eq!(table.data_size(), 0);
}

#[test]
fn out_of_range_get() {
    let empty = Table::new();
    assert_eq!(empty.get(0), None);
    assert_eq!(empty.get(17), None);

    let mut table = Table::new();
    table.push(&vec![1, 2]);
    table.push(&vec![3]);
    assert_eq!(table.get(table.len()), None);
    assert_eq!(table.get(table.len() + 3), None);
    assert!(table.get(1).is_some());
}

#[test]
fn empty_pop() {
    let mut fresh = Table::new();
    assert_eq!(fresh.pop(), None);
    assert_eq!(fresh.len(), 0);

    let mut opened = Table::open(None, Vec::new()).unwrap();
    assert_eq!(opened.pop(), None);
}

#[test]
fn empty_record() {
    let mut table = Table::new();
    table.push(&Vec::new());
    assert_eq!(table.len(), 1);
    assert_eq!(table.data_size(), 0);
    assert_eq!(table.get(0), Some(Vec::new()));
    assert_eq!(table.pop(), Some(Vec::new()));
    assert!(table.is_empty());
}

#[test]
fn scan_matches_get() {
    let mut table = Table::new();
    table.push(&encode_pair(1, true));
    table.push(&encode_pair(200, false));
    table.push(&vec![0xa3, b'a', b'b', b'c']);

    let scanned = table.scan();
    assert_eq!(scanned.len(), table.len());
    for (i, record) in scanned.iter().enumerate() {
        assert_eq!(table.get(i), Some(record.clone()));
    }
}

#[test]
fn iterator_yields_in_order() {
    let mut table = Table::new();
    table.push(&vec![1]);
    table.push(&vec![2, 3]);
    table.push(&vec![4, 5, 6]);

    let mut it = table.iter();
    assert_eq!(it.next(), Some(vec![1]));
    assert_eq!(it.next(), Some(vec![2, 3]));
    assert_eq!(it.next(), Some(vec![4, 5, 6]));
    assert_eq!(it.next(), None);
    // the scan is finite and not restartable
    assert_eq!(it.next(), None);
}

#[test]
fn persistence_reopen() {
    let a = encode_pair(5, true);
    let b = encode_pair(1000, false);
    let c = vec![0xa2, b'h', b'i'];

    let mut table = Table::new();
    table.push(&a);
    table.push(&b);
    table.push(&c);
    let header_image = table.write_header().unwrap();

    // the data image is the concatenation of the record bytes
    let mut data_image = Vec::new();
    data_image.extend_from_slice(&a);
    data_image.extend_from_slice(&b);
    data_image.extend_from_slice(&c);
    assert_eq!(data_image.len() as u64, table.data_size());

    let reopened = Table::open(Some(&header_image), data_image).unwrap();
    assert_eq!(reopened.len(), 3);
    assert_eq!(reopened.get(0), Some(a));
    assert_eq!(reopened.get(1), Some(b));
    assert_eq!(reopened.get(2), Some(c));
}

#[test]
fn write_header_repeats() {
    let mut table = Table::new();
    table.push(&vec![1, 2]);
    table.push(&vec![3]);
    let first = table.write_header().unwrap();
    let second = table.write_header().unwrap();
    assert_eq!(first, second);
}

#[test]
fn reopen_empty_header() {
    let table = Table::new();
    let header_image = table.write_header().unwrap();
    let reopened = Table::open(Some(&header_image), Vec::new()).unwrap();
    assert_eq!(reopened.len(), 0);
}

#[test]
fn open_rejects_undecodable_header() {
    // 0xc1 is never a valid MessagePack byte
    let garbage = vec![0xc1];
    let result = Table::open(Some(&garbage), Vec::new());
    assert!(matches!(result, Err(Error::MsgPackDec)));
}

#[test]
fn open_rejects_mismatched_data() {
    // a real index whose lengths sum to more bytes than the image holds
    let header_image = rmp_serde::to_vec(&vec![2u64, 1u64]).unwrap();
    let result = Table::open(Some(&header_image), vec![0x01]);
    assert!(matches!(result, Err(Error::Corrupt)));

    // and the same index over exactly the right number of bytes
    let ok = Table::open(Some(&header_image), vec![0x01, 0x02, 0x03]).unwrap();
    assert_eq!(ok.len(), 2);
    assert_eq!(ok.get(0), Some(vec![0x01, 0x02]));
    assert_eq!(ok.get(1), Some(vec![0x03]));
}

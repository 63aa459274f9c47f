use gasworks::pipeline::ReorderBuffer;
use gasworks::stream::PacketStream;
use gasworks::{array_var, u16_be, u8_be};

#[test]
fn stream_drops_a_trailing_partial_record() {
    let def = gasworks::seq("r".to_string(), vec![u8_be("a"), u16_be("b")]);
    let bytes: Vec<u8> = (0u8..11).collect();
    let mut stream = PacketStream::new(&def, &bytes).unwrap();
    let mut records: Vec<Vec<u8>> = Vec::new();
    while let Some(rec) = stream.next() {
        records.push(rec.to_vec());
    }
    assert_eq!(records, vec![vec![0, 1, 2], vec![3, 4, 5], vec![6, 7, 8]]);
}

#[test]
fn stream_keeps_an_exact_last_record() {
    let def = gasworks::seq("r".to_string(), vec![u16_be("b")]);
    let bytes: Vec<u8> = vec![1, 2, 3, 4];
    let mut stream = PacketStream::new(&def, &bytes).unwrap();
    assert_eq!(stream.next().unwrap(), &[1u8, 2][..]);
    assert_eq!(stream.next().unwrap(), &[3u8, 4][..]);
    assert!(stream.next().is_none());
    let empty: Vec<u8> = vec![];
    let mut none = PacketStream::new(&def, &empty).unwrap();
    assert!(none.next().is_none());
}

#[test]
fn stream_needs_a_static_nonzero_size() {
    let bytes: Vec<u8> = vec![1, 2, 3];
    let var = gasworks::seq("r".to_string(), vec![u8_be("n"), array_var("x".to_string(), "n".to_string(), u8_be("v"))]);
    assert!(PacketStream::new(&var, &bytes).is_none());
    let empty = gasworks::seq::<gasworks::types::Item>("r".to_string(), vec![]);
    assert!(PacketStream::new(&empty, &bytes).is_none());
}

#[test]
fn reorder_buffer_restores_index_order() {
    let mut buf = ReorderBuffer::new();
    let mut written: Vec<String> = Vec::new();
    for i in [3usize, 1, 0, 4, 2, 6, 5] {
        let out = buf.push(i, format!("line{}\n", i));
        written.extend(out);
    }
    let expected: Vec<String> = (0..7).map(|i| format!("line{}\n", i)).collect();
    assert_eq!(written, expected);
    assert_eq!(buf.pending_len(), 0);
}

#[test]
fn reorder_buffer_holds_early_records() {
    let mut buf = ReorderBuffer::new();
    assert!(buf.push(2, "c".to_string()).is_empty());
    assert!(buf.push(1, "b".to_string()).is_empty());
    assert_eq!(buf.pending_len(), 2);
    assert_eq!(buf.push(0, "a".to_string()), vec!["a".to_string(), "b".to_string(), "c".to_string()]);
    assert_eq!(buf.pending_len(), 0);
}

#[test]
fn stream_reports_trailing_bytes() {
    let bytes: Vec<u8> = vec![0; 10];
    let mut stream = PacketStream::with_size(4, &bytes).unwrap();
    assert_eq!(stream.trailing_bytes(), 2);
    assert!(stream.next().is_some());
    assert!(stream.next().is_some());
    assert!(stream.next().is_none());
    assert_eq!(stream.trailing_bytes(), 2);
    assert!(PacketStream::with_size(0, &bytes).is_none());
}

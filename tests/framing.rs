use gnui::reader::decode_records;
use gnui::reader::RecordSplitter;

fn split_whole(stream: &[u8], delimiter: u8, piece: usize) -> Vec<Vec<u8>> {
    let mut splitter = RecordSplitter::new(delimiter);
    let mut out = Vec::new();
    for chunk in stream.chunks(piece) {
        out.extend(splitter.feed(chunk));
    }
    out.extend(splitter.finish());
    out
}

fn rejoin(records: &[Vec<u8>], delimiter: u8) -> Vec<u8> {
    let mut out = Vec::new();
    for r in records {
        out.extend_from_slice(r);
        out.push(delimiter);
    }
    out
}

#[test]
fn empty_segments_emit_nothing() {
    let records = split_whole(b"a\0\0b\0", 0, 64);
    assert_eq!(records, vec![b"a".to_vec(), b"b".to_vec()]);
}

#[test]
fn pieces_of_any_size_give_the_same_records() {
    let stream = b"one\ntwo\n\nthree\nfour";
    let expected = vec![
        b"one".to_vec(),
        b"two".to_vec(),
        b"three".to_vec(),
        b"four".to_vec(),
    ];
    for piece in 1..=stream.len() {
        assert_eq!(split_whole(stream, b'\n', piece), expected);
    }
}

#[test]
fn rejoining_records_restores_the_stream() {
    let stream = b"1.0\t2.0\t3.0\t";
    let records = split_whole(stream, b'\t', 3);
    assert_eq!(records.len(), 3);
    assert_eq!(rejoin(&records, b'\t'), stream.to_vec());
}

#[test]
fn stream_without_trailing_delimiter_ends_with_the_rest() {
    let mut splitter = RecordSplitter::new(b';');
    assert_eq!(splitter.feed(b"x;y"), vec![b"x".to_vec()]);
    assert_eq!(splitter.finish(), Some(b"y".to_vec()));
    assert_eq!(splitter.finish(), None);
}

#[test]
fn empty_stream_has_no_records() {
    assert!(split_whole(b"", 0, 4).is_empty());
    assert!(split_whole(b"\0\0\0", 0, 1).is_empty());
}

#[test]
fn records_decode_as_text() {
    let texts = decode_records(vec![b"plain".to_vec(), "h\u{e9}llo".as_bytes().to_vec()]);
    assert_eq!(texts, (vec!["plain".to_string(), "h\u{e9}llo".to_string()], None));
}

#[test]
fn invalid_text_is_refused() {
    assert_eq!(decode_records(vec![]), (vec![], None));
    assert_eq!(decode_records(vec![vec![0xC3]]), (vec![], Some(0)));
}

#[test]
fn records_before_an_invalid_one_are_kept() {
    let records = vec![b"ok".to_vec(), b"fine".to_vec(), vec![0xFF, 0x41], b"after".to_vec()];
    assert_eq!(decode_records(records), (vec!["ok".to_string(), "fine".to_string()], Some(2)));
}

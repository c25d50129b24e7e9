use httpr::decoders::{ByteChunker, LineDecoder, PyDecoder};
use httpr::error::HttpError;

#[test]
fn chunker_returns_full_chunks_and_keeps_the_rest() {
    let mut c = ByteChunker::new(Some(4));
    assert_eq!(c.chunk_size(), 4);
    let out = c.decode(b"abcdefghij");
    assert_eq!(out, vec![b"abcd".to_vec(), b"efgh".to_vec()]);
    let more = c.decode(b"kl");
    assert_eq!(more, vec![b"ijkl".to_vec()]);
    assert_eq!(c.flush(), Vec::<u8>::new());
}

#[test]
fn chunker_flush_gives_the_rest() {
    let mut c = ByteChunker::new(Some(8));
    assert!(c.decode(b"abc").is_empty());
    assert_eq!(c.flush(), b"abc".to_vec());
    assert_eq!(ByteChunker::new(None).chunk_size(), 65536);
}

#[test]
fn chunker_loses_no_byte() {
    let mut c = ByteChunker::new(Some(3));
    let data: Vec<u8> = (0u8..20).collect();
    let mut all: Vec<u8> = Vec::new();
    for piece in data.chunks(7) {
        for ch in c.decode(piece) {
            assert_eq!(ch.len(), 3);
            all.extend(ch);
        }
    }
    all.extend(c.flush());
    assert_eq!(all, data);
}

#[test]
fn line_decoder_keeps_line_endings() {
    let mut d = LineDecoder::new();
    assert_eq!(d.decode("a\nb\r\nc"), vec!["a\n".to_string(), "b\r\n".to_string()]);
    assert_eq!(d.decode("d\re"), vec!["cd\r".to_string()]);
    assert_eq!(d.flush(), vec!["e".to_string()]);
    assert!(d.flush().is_empty());
}

#[test]
fn line_decoder_loses_no_text() {
    let mut d = LineDecoder::new();
    let mut all = String::new();
    for piece in ["ab\r", "\ncd\n\n", "e"] {
        for l in d.decode(piece) {
            all.push_str(&l);
        }
    }
    for l in d.flush() {
        all.push_str(&l);
    }
    assert_eq!(all, "ab\r\ncd\n\ne");
}

#[test]
fn decoder_names() {
    assert!(PyDecoder::new("gzip").is_ok());
    assert!(PyDecoder::new("identity").is_ok());
    match PyDecoder::new("lzma") {
        Err(HttpError::ValueError(m)) => assert_eq!(m, "Unknown encoding: lzma"),
        _ => panic!("expected a value error"),
    }
}

#[test]
fn identity_decoder_passes_bytes() {
    let mut d = PyDecoder::new("").unwrap();
    assert_eq!(d.decode(b"xyz"), b"xyz".to_vec());
    assert_eq!(d.flush().unwrap(), Vec::<u8>::new());
}

#[test]
fn chunking_in_two_calls_matches_one_call() {
    let mut a = ByteChunker::new(Some(3));
    let mut first = a.decode(b"abcd");
    first.extend(a.decode(b"efgh"));
    let mut b = ByteChunker::new(Some(3));
    let whole = b.decode(b"abcdefgh");
    assert_eq!(first, whole);
    assert_eq!(first, vec![b"abc".to_vec(), b"def".to_vec()]);
    assert_eq!(a.flush(), b.flush());
}

#[test]
fn lines_over_several_calls_lose_nothing() {
    let mut d = LineDecoder::new();
    let mut all = d.decode("a\nb");
    all.extend(d.decode("c\r\nd"));
    all.extend(d.flush());
    assert_eq!(all, vec!["a\n".to_string(), "bc\r\n".to_string(), "d".to_string()]);
    assert_eq!(all.concat(), "a\nbc\r\nd");
}

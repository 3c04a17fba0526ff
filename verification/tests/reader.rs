use base64::Engine;
use seck::proto::{ProtoError, MAX_ENTRIES, MAX_PATH_LEN};
use seck::reader::prompt::{assemble, AssembleConfig};
use seck::reader::protocol::{read_frames, Frame};
use seck::reader::stream::FrameReader;

#[test]
fn assembles_with_nonce_delimiters() {
    let frames = vec![Frame {
        relative_path: "a.txt".into(),
        bytes: b"hello".to_vec(),
    }];
    let cfg = AssembleConfig { nonce: [42u8; 32] };
    let p = assemble(&cfg, &frames);
    let nonce_hex = hex::encode(cfg.nonce);
    assert!(p.contains(&format!("<files-begin-{nonce_hex}>")));
    assert!(p.contains(&format!("<files-end-{nonce_hex}>")));
    assert!(p.contains("a.txt"));
    assert!(p.contains(&base64::engine::general_purpose::STANDARD.encode(b"hello")));
}

#[test]
fn escapes_quotes_in_path() {
    let frames = vec![Frame {
        relative_path: r#"a"weird".txt"#.into(),
        bytes: vec![],
    }];
    let p = assemble(&AssembleConfig { nonce: [0u8; 32] }, &frames);
    assert!(p.contains("a&quot;weird&quot;.txt"));
    assert!(!p.contains(r#""weird""#));
}

// ---- further cases ----

#[test]
fn prompt_has_exact_file_block() {
    let frames = vec![
        Frame { relative_path: "x".into(), bytes: b"hello".to_vec() },
        Frame { relative_path: "y".into(), bytes: vec![0xff, 0x00] },
    ];
    let p = assemble(&AssembleConfig { nonce: [0xabu8; 32] }, &frames);
    let nh = "ab".repeat(32);
    let block_x = format!("<file path=\"x\">\n<bytes-begin-{nh}>\naGVsbG8=\n<bytes-end-{nh}>\n</file>\n");
    let block_y = format!("<file path=\"y\">\n<bytes-begin-{nh}>\n/wA=\n<bytes-end-{nh}>\n</file>\n");
    assert!(p.contains(&format!("<files-begin-{nh}>\n{block_x}{block_y}<files-end-{nh}>\n\n")));
    assert!(p.starts_with("<system>\n"));
    assert!(p.ends_with(&format!("The nonce is {nh}.\n</task>\n")));
}

fn stream(entries: &[(&[u8], &[u8])]) -> Vec<u8> {
    let mut v = b"SECK".to_vec();
    v.extend_from_slice(&1u16.to_le_bytes());
    v.extend_from_slice(&0u16.to_le_bytes());
    v.extend_from_slice(&(entries.len() as u32).to_le_bytes());
    for (p, b) in entries {
        v.extend_from_slice(&(p.len() as u32).to_le_bytes());
        v.extend_from_slice(p);
        v.extend_from_slice(&(b.len() as u64).to_le_bytes());
        v.extend_from_slice(b);
    }
    v.extend_from_slice(b"DONE");
    v
}

#[test]
fn reads_well_formed_stream() {
    let s = stream(&[(b"a.rs", b"fn main() {}"), (b"dir/b.txt", b"")]);
    let frames = read_frames(&s).unwrap();
    assert_eq!(frames.len(), 2);
    assert_eq!(frames[0].relative_path, "a.rs");
    assert_eq!(frames[0].bytes, b"fn main() {}".to_vec());
    assert_eq!(frames[1].relative_path, "dir/b.txt");
    assert!(frames[1].bytes.is_empty());
}

#[test]
fn rejects_bad_header_magic() {
    let mut s = stream(&[]);
    s[0] = b'X';
    assert!(matches!(read_frames(&s), Err(ProtoError::BadMagic)));
}

#[test]
fn rejects_bad_trailer_magic() {
    let mut s = stream(&[(b"a", b"b")]);
    let n = s.len();
    s[n - 1] = b'X';
    assert!(matches!(read_frames(&s), Err(ProtoError::BadMagic)));
}

#[test]
fn rejects_other_version() {
    let mut s = stream(&[]);
    s[4] = 2;
    assert!(matches!(read_frames(&s), Err(ProtoError::BadVersion(2))));
}

#[test]
fn rejects_too_many_entries() {
    let mut s = stream(&[]);
    s[8..12].copy_from_slice(&(MAX_ENTRIES + 1).to_le_bytes());
    assert!(matches!(read_frames(&s), Err(ProtoError::TooLarge(n)) if n == (MAX_ENTRIES as u64) + 1));
}

#[test]
fn rejects_long_path() {
    let mut s = stream(&[(b"a", b"")]);
    s[12..16].copy_from_slice(&(MAX_PATH_LEN + 1).to_le_bytes());
    assert!(matches!(read_frames(&s), Err(ProtoError::TooLarge(_))));
}

#[test]
fn rejects_non_utf8_path() {
    let s = stream(&[(&[0xff, 0xfe], b"")]);
    assert!(matches!(read_frames(&s), Err(ProtoError::BadPath)));
}

#[test]
fn truncated_stream_is_short_read() {
    let s = stream(&[(b"a", b"bytes")]);
    for cut in [0, 3, 5, 11, 14, 18, s.len() - 1] {
        assert!(matches!(read_frames(&s[..cut]), Err(ProtoError::Io(e)) if e.kind() == std::io::ErrorKind::UnexpectedEof), "cut {cut}");
    }
}


#[test]
fn cut_off_streams_fail_with_unexpected_eof() {
    assert!(matches!(read_frames(&[]), Err(ProtoError::Io(e)) if e.kind() == std::io::ErrorKind::UnexpectedEof));
    let full = b"SECK\x01\x00\x00\x00\x10\x27\x00\x00";
    assert!(matches!(read_frames(full), Err(ProtoError::Io(e)) if e.kind() == std::io::ErrorKind::UnexpectedEof));
    let over = b"SECK\x01\x00\x00\x00\x11\x27\x00\x00";
    assert!(matches!(read_frames(over), Err(ProtoError::TooLarge(10001))));
}

#[test]
fn replace_with_empty_pattern() {
    assert_eq!(seck::text::replace_str("ab", "", "x"), "ab".replace("", "x"));
    assert_eq!(seck::text::replace_str("", "", "x"), "x");
    assert_eq!(seck::text::replace_str("aXbXX", "X", "yy"), "ayybyyyy");
}

/// Reads from `input` exactly what the reader asks for; returns what it
/// decided and how many bytes it took.
fn read_by_need(input: &[u8]) -> (Result<Vec<Frame>, ProtoError>, usize) {
    let mut r = FrameReader::new();
    let mut at = 0usize;
    loop {
        match r.need() {
            Err(e) => return (Err(e), at),
            Ok(0) => return (r.frames(), at),
            Ok(k) => {
                if input.len() - at < k {
                    r.push(&input[at..]);
                    at = input.len();
                    return (r.frames(), at);
                }
                r.push(&input[at..at + k]);
                at += k;
            }
        }
    }
}

#[test]
fn reader_takes_exactly_the_stream() {
    let s = stream(&[(b"a.rs", b"fn main() {}"), (b"dir/b.txt", b""), (b"c", b"xyz")]);
    let mut input = s.clone();
    input.extend_from_slice(b"left for someone else");
    let (frames, taken) = read_by_need(&input);
    let frames = frames.unwrap();
    assert_eq!(taken, s.len());
    assert_eq!(frames.len(), 3);
    assert_eq!(frames[0].relative_path, "a.rs");
    assert_eq!(frames[0].bytes, b"fn main() {}".to_vec());
    assert_eq!(frames[1].relative_path, "dir/b.txt");
    assert!(frames[1].bytes.is_empty());
    assert_eq!(frames[2].relative_path, "c");
    assert_eq!(frames[2].bytes, b"xyz".to_vec());
}

#[test]
fn reader_asks_field_by_field() {
    let mut r = FrameReader::new();
    assert_eq!(r.need().unwrap(), 4);
    r.push(b"SECK");
    assert_eq!(r.need().unwrap(), 2);
    r.push(&[1, 0]);
    assert_eq!(r.need().unwrap(), 6);
    r.push(&[0, 0, 1, 0, 0, 0]);
    assert_eq!(r.need().unwrap(), 4);
    r.push(&3u32.to_le_bytes());
    assert_eq!(r.need().unwrap(), 3);
    r.push(b"a/b");
    assert_eq!(r.need().unwrap(), 8);
    r.push(&5u64.to_le_bytes());
    assert_eq!(r.need().unwrap(), 5);
    r.push(b"hello");
    assert_eq!(r.need().unwrap(), 4);
    r.push(b"DONE");
    assert_eq!(r.need().unwrap(), 0);
    let frames = r.frames().unwrap();
    assert_eq!(frames.len(), 1);
    assert_eq!(frames[0].relative_path, "a/b");
    assert_eq!(frames[0].bytes, b"hello".to_vec());
}

#[test]
fn reader_stops_at_too_many_entries() {
    let mut r = FrameReader::new();
    r.push(b"SECK\x01\x00\x00\x00\x11\x27\x00\x00");
    assert!(matches!(r.need(), Err(ProtoError::TooLarge(10001))));
    let input = b"SECK\x01\x00\x00\x00\x11\x27\x00\x00more bytes".to_vec();
    let (res, taken) = read_by_need(&input);
    assert!(matches!(res, Err(ProtoError::TooLarge(10001))));
    assert_eq!(taken, 12);
}

#[test]
fn reader_at_the_entry_limit_wants_entries() {
    let mut r = FrameReader::new();
    r.push(b"SECK\x01\x00\x00\x00\x10\x27\x00\x00");
    assert_eq!(r.need().unwrap(), 4);
    match r.frames() {
        Err(ProtoError::Io(e)) => assert_eq!(e.kind(), std::io::ErrorKind::UnexpectedEof),
        _ => panic!("expected an unexpected end of input"),
    }
}

#[test]
fn reader_reports_errors_as_they_show() {
    let mut r = FrameReader::new();
    r.push(b"NOPE");
    assert!(matches!(r.need(), Err(ProtoError::BadMagic)));
    let mut r = FrameReader::new();
    r.push(b"SECK\x02\x00");
    assert!(matches!(r.need(), Err(ProtoError::BadVersion(2))));
    let mut r = FrameReader::new();
    let mut s = b"SECK\x01\x00\x00\x00\x01\x00\x00\x00".to_vec();
    s.extend_from_slice(&2u32.to_le_bytes());
    s.extend_from_slice(&[0xff, 0xfe]);
    r.push(&s);
    assert!(matches!(r.need(), Err(ProtoError::BadPath)));
    let mut r = FrameReader::new();
    let mut s = stream(&[(b"a", b"b")]);
    let n = s.len();
    s[n - 1] = b'X';
    r.push(&s);
    assert!(matches!(r.need(), Err(ProtoError::BadMagic)));
}

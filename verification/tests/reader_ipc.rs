use seck::reader::protocol::Frame;
use seck::reader::session::{
    input_entries, ipc_messages, nonce_digest, parse_mode, Mode, IPC_SYSTEM_PROMPT, IPC_TASK_PROMPT,
};
use seck::reader_ipc::{frame_lines, read_messages, IpcError, Message, MessageDecoder};
use seck::reader_priv::priv_prompt;
use serde_json::Value;
use sha3::{Digest, Sha3_256};

/// The JSON line of one message, tagged by `kind`.
fn encode(m: &Message) -> String {
    let mut o = serde_json::Map::new();
    match m {
        Message::Header { nonce_hex, system_prompt, task_prompt } => {
            o.insert("kind".into(), Value::String("header".into()));
            o.insert("nonce_hex".into(), Value::String(nonce_hex.clone()));
            o.insert("system_prompt".into(), Value::String(system_prompt.clone()));
            o.insert("task_prompt".into(), Value::String(task_prompt.clone()));
        }
        Message::File { relative_path, content_base64, byte_count } => {
            o.insert("kind".into(), Value::String("file".into()));
            o.insert("relative_path".into(), Value::String(relative_path.clone()));
            o.insert("content_base64".into(), Value::String(content_base64.clone()));
            o.insert("byte_count".into(), Value::from(*byte_count));
        }
        Message::EndFiles => {
            o.insert("kind".into(), Value::String("end_files".into()));
        }
    }
    serde_json::to_string(&Value::Object(o)).unwrap()
}

fn write_message(buf: &mut Vec<u8>, m: &Message) {
    buf.extend_from_slice(encode(m).as_bytes());
    buf.push(b'\n');
}

struct Json;

impl MessageDecoder for Json {
    fn decode(&self, line: &str) -> Result<Message, IpcError> {
        let v: Value = serde_json::from_str(line).map_err(IpcError::Parse)?;
        let s = |k: &str| v[k].as_str().unwrap_or_default().to_string();
        Ok(match v["kind"].as_str() {
            Some("header") => Message::Header {
                nonce_hex: s("nonce_hex"),
                system_prompt: s("system_prompt"),
                task_prompt: s("task_prompt"),
            },
            Some("file") => Message::File {
                relative_path: s("relative_path"),
                content_base64: s("content_base64"),
                byte_count: v["byte_count"].as_u64().unwrap_or(0),
            },
            _ => Message::EndFiles,
        })
    }
}

#[test]
fn round_trip() {
    let msgs = vec![
        Message::Header {
            nonce_hex: "ab".repeat(32),
            system_prompt: "be passive".into(),
            task_prompt: "emit JSON".into(),
        },
        Message::File {
            relative_path: "a.rs".into(),
            content_base64: "aGVsbG8=".into(),
            byte_count: 5,
        },
        Message::EndFiles,
    ];
    let mut buf = Vec::new();
    for m in &msgs {
        write_message(&mut buf, m);
    }
    let text = String::from_utf8(buf).unwrap();
    let back = read_messages(&text, &Json).unwrap();
    assert_eq!(back.len(), 3);
    match (&msgs[0], &back[0]) {
        (Message::Header { nonce_hex: a, .. }, Message::Header { nonce_hex: b, .. }) => {
            assert_eq!(a, b)
        }
        _ => panic!("type mismatch"),
    }
}

#[test]
fn stops_at_end_files() {
    let mut buf = Vec::new();
    write_message(&mut buf, &Message::EndFiles);
    // Garbage AFTER EndFiles must be ignored.
    buf.extend_from_slice(b"this would be a JSON parse error\n");
    let text = String::from_utf8(buf).unwrap();
    let msgs = read_messages(&text, &Json).unwrap();
    assert_eq!(msgs.len(), 1);
}

// ---- further cases ----

#[test]
fn framing_skips_blank_lines_and_trailing_space() {
    assert_eq!(frame_lines("a  \r\n\n   \nb\t\nc"), vec!["a", "b", "c"]);
    assert!(frame_lines("").is_empty());
    let text = "\n  \n{\"kind\":\"end_files\"}  \n";
    assert_eq!(read_messages(text, &Json).unwrap().len(), 1);
}

#[test]
fn bad_line_before_end_is_an_error() {
    let text = "{\"kind\":\"file\",\"relative_path\":\"a\",\"content_base64\":\"\",\"byte_count\":0}\nnot json\n";
    assert!(matches!(read_messages(text, &Json), Err(IpcError::Parse(_))));
    let text = "{\"kind\":\"file\",\"relative_path\":\"a\",\"content_base64\":\"\",\"byte_count\":0}\n";
    assert_eq!(read_messages(text, &Json).unwrap().len(), 1);
}

fn frame(path: &str, bytes: &[u8]) -> Frame {
    Frame { relative_path: path.into(), bytes: bytes.to_vec() }
}

fn sha3_hex(b: &[u8]) -> String {
    let mut h = Sha3_256::new();
    h.update(b);
    hex::encode(h.finalize())
}

#[test]
fn split_mode_messages() {
    let frames = vec![frame("a.rs", b"hello"), frame("b.bin", &[0xff, 0])];
    let nonce = [9u8; 32];
    let m = ipc_messages(&frames, &nonce);
    assert_eq!(m.len(), 4);
    match &m[0] {
        Message::Header { nonce_hex, system_prompt, task_prompt } => {
            assert_eq!(nonce_hex, &hex::encode(nonce));
            assert_eq!(system_prompt, IPC_SYSTEM_PROMPT);
            assert_eq!(task_prompt, IPC_TASK_PROMPT);
        }
        _ => panic!("header first"),
    }
    match &m[1] {
        Message::File { relative_path, content_base64, byte_count } => {
            assert_eq!(relative_path, "a.rs");
            assert_eq!(content_base64, "aGVsbG8=");
            assert_eq!(*byte_count, 5);
        }
        _ => panic!("file second"),
    }
    match &m[2] {
        Message::File { content_base64, byte_count, .. } => {
            assert_eq!(content_base64, "/wA=");
            assert_eq!(*byte_count, 2);
        }
        _ => panic!("file third"),
    }
    assert!(matches!(m[3], Message::EndFiles));
}

#[test]
fn report_inputs_for_frames() {
    let frames = vec![frame("a.rs", b"hello"), frame("b.bin", &[0xff, 0])];
    let v = input_entries(&frames);
    assert_eq!(v.len(), 2);
    assert_eq!(v[0].path, "a.rs");
    assert_eq!(v[0].sha3_256, sha3_hex(b"hello"));
    assert_eq!(v[0].size, 5);
    assert_eq!(v[0].kind, "text");
    assert_eq!(v[1].kind, "binary");
    assert_eq!(nonce_digest(&[1u8; 32]), sha3_hex(&[1u8; 32]));
}

#[test]
fn mode_from_arguments() {
    let args = |a: &[&str]| a.iter().map(|s| s.to_string()).collect::<Vec<_>>();
    assert_eq!(parse_mode(&args(&[])).unwrap(), Mode::Analyze);
    assert_eq!(parse_mode(&args(&["--protocol-version=1", "--mode=bytes-to-ipc"])).unwrap(), Mode::BytesToIpc);
    assert_eq!(parse_mode(&args(&["--mode=bytes-to-ipc", "--mode=analyze"])).unwrap(), Mode::Analyze);
    assert_eq!(parse_mode(&args(&["--mode=fast", "--mode=analyze"])).unwrap_err(), "unknown --mode value: fast");
    assert_eq!(parse_mode(&args(&["--mode="])).unwrap_err(), "unknown --mode value: ");
    assert_eq!(parse_mode(&args(&["-mode=fast"])).unwrap(), Mode::Analyze);
}

#[test]
fn inference_side_prompt() {
    let msgs = vec![
        Message::Header { nonce_hex: "nn".into(), system_prompt: "SYS".into(), task_prompt: "T".into() },
        Message::File { relative_path: "p".into(), content_base64: "QQ==".into(), byte_count: 1 },
        Message::EndFiles,
    ];
    let p = priv_prompt(&msgs);
    assert_eq!(
        p.prompt,
        "<system>\nSYS\n</system>\n\n<files-begin-nn>\n<file path=\"p\">\n<bytes-begin-nn>\nQQ==\n<bytes-end-nn>\n</file>\n<files-end-nn>\n\n<task>\nProduce a JSON object matching the report schema. The marker nonce is nn.\n</task>\n"
    );
    assert_eq!(p.nonce_hex, "nn");
    assert_eq!(p.inputs.len(), 1);
    assert_eq!(p.inputs[0].path, "p");
    assert_eq!(p.inputs[0].sha3_256_of_base64, sha3_hex(b"QQ=="));
    assert_eq!(p.inputs[0].size, 1);
    // No header: no file list to close, an empty nonce.
    let q = priv_prompt(&vec![Message::EndFiles]);
    assert_eq!(q.prompt, "<task>\nProduce a JSON object matching the report schema. The marker nonce is .\n</task>\n");
}

struct Refuses;

impl MessageDecoder for Refuses {
    fn decode(&self, _line: &str) -> Result<Message, IpcError> {
        Err(IpcError::UnexpectedEof)
    }
}

#[test]
fn blank_stream_reads_as_no_messages() {
    assert!(read_messages("", &Refuses).unwrap().is_empty());
    assert!(read_messages("\n  \r\n\t\n", &Refuses).unwrap().is_empty());
    assert!(matches!(read_messages("x\n", &Refuses), Err(IpcError::UnexpectedEof)));
}

#[test]
fn findings_member_of_the_answer() {
    let f = seck::reader::session::report_findings;
    assert_eq!(f("{\"findings\":[{\"summary\":\"s\"}],\"x\":1}"), "[{\"summary\":\"s\"}]");
    assert_eq!(f("{\"other\":1}"), "[]");
    assert_eq!(f("not json"), "[]");
    assert_eq!(f("[1,2]"), "[]");
    assert_eq!(f("{\"findings\":5}"), "5");
}

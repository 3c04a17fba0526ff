use seck::trace_check::checker::contains_subsequence;
use seck::trace_check::strace_parse::{first_token_int, nth_quoted_string, parse_line, strip_pid_prefix};
use seck::trace_check::{check_trace, parse_strace, Effect, InvariantError};

#[test]
fn empty_needle_no_match() {
    assert!(!contains_subsequence(b"abc", b""));
}

#[test]
fn finds_subseq() {
    assert!(contains_subsequence(b"hello world", b"o w"));
}

#[test]
fn writes_to_fd3_ok() {
    let effs = vec![Effect::WriteF { fd: 3, bytes: b"CANARY".to_vec() }];
    assert!(check_trace(&effs, b"CANARY").is_ok());
}

#[test]
fn writes_to_fd2_rejected() {
    let effs = vec![Effect::WriteF { fd: 2, bytes: b"CANARY".to_vec() }];
    assert!(matches!(
        check_trace(&effs, b"CANARY"),
        Err(InvariantError::UnauthorizedWrite(2))
    ));
}

#[test]
fn parses_openat() {
    let line = r#"openat(AT_FDCWD, "/etc/hosts", O_RDONLY) = 3"#;
    assert_eq!(
        parse_line(line),
        Some(Effect::OpenP {
            path: b"/etc/hosts".to_vec()
        })
    );
}

#[test]
fn strips_pid_prefix() {
    let line = r#"[pid 1234] openat(AT_FDCWD, "/x", O_RDONLY) = 3"#;
    assert_eq!(
        parse_line(line),
        Some(Effect::OpenP {
            path: b"/x".to_vec()
        })
    );
}

#[test]
fn parses_execve() {
    let line = r#"execve("/usr/bin/ls", ["ls", "-la"], 0x7ffd) = 0"#;
    assert_eq!(
        parse_line(line),
        Some(Effect::ExecP {
            path: b"/usr/bin/ls".to_vec(),
            args: vec![],
            env: vec![],
        })
    );
}

#[test]
fn parses_write() {
    let line = r#"write(3, "hello", 5) = 5"#;
    assert_eq!(
        parse_line(line),
        Some(Effect::WriteF {
            fd: 3,
            bytes: b"hello".to_vec()
        })
    );
}

#[test]
fn parses_connect() {
    let line = r#"connect(7, {sa_family=AF_INET, sin_addr=inet_addr("1.2.3.4"), sin_port=htons(80)}, 16) = 0"#;
    assert_eq!(
        parse_line(line),
        Some(Effect::NetConn {
            host: "1.2.3.4".into(),
            port: 80
        })
    );
}

#[test]
fn random_garbage_does_not_panic() {
    for s in [
        "",
        "garbage",
        r#"openat("#,
        r#"connect(7, {sa_family=AF_INET},)"#,
        r#"write(notanumber, "x", 1)"#,
    ] {
        let _ = parse_line(s);
    }
}

#[test]
fn flags_tainted_open() {
    let s = r#"openat(AT_FDCWD, "/etc/passwd-CANARY-xyz", O_RDONLY) = -1 ENOENT"#;
    let effs = parse_strace(s);
    let r = check_trace(&effs, b"CANARY-xyz");
    assert!(matches!(r, Err(InvariantError::TaintedOpen(_))));
}

#[test]
fn passes_tainted_write_to_fd3() {
    let s = r#"write(3, "CANARY-xyz contents", 19) = 19"#;
    let effs = parse_strace(s);
    let r = check_trace(&effs, b"CANARY-xyz");
    assert!(r.is_ok(), "fd 3 write of tainted bytes is allowed");
}

#[test]
fn passes_tainted_write_to_fd5() {
    let s = r#"write(5, "CANARY-xyz contents", 19) = 19"#;
    let effs = parse_strace(s);
    assert!(check_trace(&effs, b"CANARY-xyz").is_ok());
}

#[test]
fn flags_tainted_write_to_fd2() {
    let s = r#"write(2, "CANARY-xyz leaked", 17) = 17"#;
    let effs = parse_strace(s);
    let r = check_trace(&effs, b"CANARY-xyz");
    assert!(matches!(r, Err(InvariantError::UnauthorizedWrite(2))));
}

#[test]
fn flags_net_conn() {
    let s = r#"connect(7, {sa_family=AF_INET, sin_addr=inet_addr("1.2.3.4"), sin_port=htons(80)}, 16) = 0"#;
    let effs = parse_strace(s);
    let r = check_trace(&effs, b"any");
    assert!(matches!(r, Err(InvariantError::Net { .. })));
}

#[test]
fn untainted_open_ok() {
    let s = r#"openat(AT_FDCWD, "/usr/lib/libc.so.6", O_RDONLY) = 3"#;
    let effs = parse_strace(s);
    assert!(check_trace(&effs, b"CANARY-not-in-trace").is_ok());
}

// ---- further cases ----

#[test]
fn needle_longer_than_haystack_no_match() {
    assert!(!contains_subsequence(b"ab", b"abc"));
    assert!(contains_subsequence(b"abc", b"abc"));
    assert!(contains_subsequence(b"xxabc", b"abc"));
}

#[test]
fn lines_split_on_lf_and_crlf() {
    let s = "openat(AT_FDCWD, \"/a\", O_RDONLY) = 3\r\nnoise\n[pid 7] read(4, \"x\", 1) = 1\n";
    let effs = parse_strace(s);
    assert_eq!(
        effs,
        vec![
            Effect::OpenP { path: b"/a".to_vec() },
            Effect::ReadF { fd: 4 },
        ]
    );
}

#[test]
fn escaped_quote_inside_path() {
    let line = r#"openat(AT_FDCWD, "a\"b", O_RDONLY) = 3"#;
    assert_eq!(
        parse_line(line),
        Some(Effect::OpenP { path: br#"a\"b"#.to_vec() })
    );
}

#[test]
fn unterminated_quote_yields_nothing() {
    assert_eq!(parse_line(r#"openat(AT_FDCWD, "/etc"#), None);
    assert_eq!(nth_quoted_string(r#"x "a" "b" "c"#, 1), Some("b".to_string()));
    assert_eq!(nth_quoted_string(r#"x "a" "b" "c"#, 2), None);
}

#[test]
fn first_token_int_cases() {
    assert_eq!(first_token_int(" 12 , x"), Some(12));
    assert_eq!(first_token_int("-2147483648"), Some(i32::MIN));
    assert_eq!(first_token_int("2147483648"), None);
    assert_eq!(first_token_int("+7"), Some(7));
    assert_eq!(first_token_int("-"), None);
    assert_eq!(first_token_int("notanumber, 1"), None);
}

#[test]
fn pid_prefix_and_whitespace_stripped() {
    assert_eq!(strip_pid_prefix("  [pid 1] x(1)"), "x(1)");
    assert_eq!(strip_pid_prefix("[unterminated x"), "[unterminated x");
}

#[test]
fn connect_port_out_of_range_is_ignored() {
    let line = r#"connect(3, {sin_addr=inet_addr("10.0.0.1"), sin_port=htons(70000)}, 16) = 0"#;
    assert_eq!(parse_line(line), None);
}

#[test]
fn exec_with_tainted_arg_or_env_is_flagged() {
    let effs = vec![Effect::ExecP {
        path: b"/bin/sh".to_vec(),
        args: vec![b"-c".to_vec(), b"echo CANARY".to_vec()],
        env: vec![],
    }];
    assert!(matches!(
        check_trace(&effs, b"CANARY"),
        Err(InvariantError::TaintedExec(a)) if a == b"echo CANARY".to_vec()
    ));
    let effs = vec![Effect::ExecP {
        path: b"/bin/sh".to_vec(),
        args: vec![],
        env: vec![(b"K".to_vec(), b"v".to_vec()), (b"X".to_vec(), b"CANARY".to_vec())],
    }];
    assert!(matches!(
        check_trace(&effs, b"CANARY"),
        Err(InvariantError::TaintedExec(v)) if v == b"CANARY".to_vec()
    ));
}

#[test]
fn first_violation_is_reported() {
    let effs = vec![
        Effect::ReadF { fd: 0 },
        Effect::WriteF { fd: 1, bytes: b"CANARY".to_vec() },
        Effect::NetConn { host: "h".into(), port: 1 },
    ];
    assert!(matches!(
        check_trace(&effs, b"CANARY"),
        Err(InvariantError::UnauthorizedWrite(1))
    ));
}

#[test]
fn capture_split_at_a_line_break() {
    let a = "openat(AT_FDCWD, \"/a\", O_RDONLY) = 3\nwrite(3, \"x\", 1) = 1";
    let b = "connect(7, {sa_family=AF_INET, sin_port=htons(80), sin_addr=inet_addr(\"1.2.3.4\")}, 16) = 0\n";
    let joined = format!("{a}\n{b}");
    let mut both = parse_strace(a);
    both.extend(parse_strace(b));
    assert_eq!(parse_strace(&joined), both);
    assert_eq!(parse_strace(&format!("\n{b}")), parse_strace(b));
}

//! Parse `strace -f` output lines into the `Effect` grammar.
//!
//! Only the syscalls of interest are recognised (openat / openat2 /
//! execve / execveat / read / write / connect); every other line is
//! ignored. Any input, however malformed, parses without failing.
use crate::text::{
    encode_chars, find_char, find_char_in, find_str, find_str_in, has_prefix, lemma_find_char_range,
    lemma_find_str_range, lines, skip_ws, skip_ws_back, starts_with, str_chars, string_from_chars,
    strip_cr, trim, trim_end, trim_start,
};
use vstd::prelude::*;
use vstd::utf8::*;

verus! {

/// One observed side effect.
#[derive(Debug, Clone, PartialEq, Eq)]
pub enum Effect {
    OpenP { path: Vec<u8> },
    ExecP { path: Vec<u8>, args: Vec<Vec<u8>>, env: Vec<(Vec<u8>, Vec<u8>)> },
    ReadF { fd: i32 },
    WriteF { fd: i32, bytes: Vec<u8> },
    NetConn { host: String, port: u16 },
}

/// The mathematical value of an `Effect`.
pub enum SpecEffect {
    OpenP { path: Seq<u8> },
    ExecP { path: Seq<u8>, args: Seq<Seq<u8>>, env: Seq<(Seq<u8>, Seq<u8>)> },
    ReadF { fd: i32 },
    WriteF { fd: i32, bytes: Seq<u8> },
    NetConn { host: Seq<char>, port: u16 },
}

impl DeepView for Effect {
    type V = SpecEffect;

    open spec fn deep_view(&self) -> SpecEffect {
        match self {
            Effect::OpenP { path } => SpecEffect::OpenP { path: path@ },
            Effect::ExecP { path, args, env } => SpecEffect::ExecP {
                path: path@,
                args: args.deep_view(),
                env: env.deep_view(),
            },
            Effect::ReadF { fd } => SpecEffect::ReadF { fd: *fd },
            Effect::WriteF { fd, bytes } => SpecEffect::WriteF { fd: *fd, bytes: bytes@ },
            Effect::NetConn { host, port } => SpecEffect::NetConn { host: host@, port: *port },
        }
    }
}

/* ----------------------------------------------------------------------
 * Specification
 * -------------------------------------------------------------------- */

/// `s` without the prefix `p`, if it has it (`str::strip_prefix`).
pub open spec fn strip_prefix(s: Seq<char>, p: Seq<char>) -> Option<Seq<char>> {
    if starts_with(s, p) {
        Some(s.skip(p.len() as int))
    } else {
        None
    }
}

/// A line without leading whitespace and without a leading `[pid N]` tag.
pub open spec fn strip_pid_prefix_spec(line: Seq<char>) -> Seq<char> {
    let t = trim_start(line);
    if t.len() > 0 && t[0] == '[' {
        let rest = t.drop_first();
        match find_char(rest, ']') {
            Some(idx) => trim_start(rest.skip(idx + 1)),
            None => t,
        }
    } else {
        t
    }
}

/// The index of the quote that closes a quoted string whose body starts at
/// `j`; a backslash escapes the character after it.
pub open spec fn closing_quote(s: Seq<char>, j: int) -> Option<int>
    decreases s.len() - j,
{
    if j < 0 || j >= s.len() {
        None
    } else if s[j] == '\\' && j + 1 < s.len() {
        closing_quote(s, j + 2)
    } else if s[j] == '"' {
        Some(j)
    } else {
        closing_quote(s, j + 1)
    }
}

/// What `closing_quote` returns is a quote at or after `j`.
pub proof fn lemma_closing_quote_range(s: Seq<char>, j: int)
    ensures
        closing_quote(s, j) matches Some(k) ==> j <= k < s.len() && s[k] == '"',
    decreases s.len() - j,
{
    if 0 <= j < s.len() {
        if s[j] == '\\' && j + 1 < s.len() {
            lemma_closing_quote_range(s, j + 2);
        } else if s[j] != '"' {
            lemma_closing_quote_range(s, j + 1);
        }
    }
}

/// The `n`-th (0-based) quoted string of `s` that starts at or after `i`.
pub open spec fn quoted_from(s: Seq<char>, i: int, n: nat) -> Option<Seq<char>>
    decreases s.len() - i,
{
    if i < 0 || i >= s.len() {
        None
    } else if s[i] == '"' {
        match closing_quote(s, i + 1) {
            None => None,
            Some(j) => if n == 0 {
                Some(s.subrange(i + 1, j))
            } else {
                proof {
                    lemma_closing_quote_range(s, i + 1);
                }
                quoted_from(s, j + 1, (n - 1) as nat)
            },
        }
    } else {
        quoted_from(s, i + 1, n)
    }
}

pub open spec fn is_digit(c: char) -> bool {
    '0' <= c && c <= '9'
}

pub open spec fn all_digits(s: Seq<char>) -> bool {
    forall|i: int| 0 <= i < s.len() ==> is_digit(#[trigger] s[i])
}

/// The value of a string of decimal digits.
pub open spec fn digits_val(s: Seq<char>) -> nat
    decreases s.len(),
{
    if s.len() == 0 {
        0
    } else {
        (10 * digits_val(s.drop_last()) + (s.last() as u32 - '0' as u32)) as nat
    }
}

/// `str::parse::<i32>`: an optional sign, then one or more decimal digits, in range.
pub open spec fn parse_i32_spec(t: Seq<char>) -> Option<i32> {
    if t.len() > 0 && (t[0] == '-' || t[0] == '+') {
        let d = t.drop_first();
        if d.len() == 0 || !all_digits(d) {
            None
        } else {
            let v: int = if t[0] == '-' {
                -digits_val(d)
            } else {
                digits_val(d) as int
            };
            if i32::MIN <= v <= i32::MAX {
                Some(v as i32)
            } else {
                None
            }
        }
    } else if t.len() == 0 || !all_digits(t) {
        None
    } else if digits_val(t) <= i32::MAX {
        Some(digits_val(t) as i32)
    } else {
        None
    }
}

/// `str::parse::<u16>`: an optional `+`, then one or more decimal digits, in range.
pub open spec fn parse_u16_spec(t: Seq<char>) -> Option<u16> {
    let d = if t.len() > 0 && t[0] == '+' {
        t.drop_first()
    } else {
        t
    };
    if d.len() == 0 || !all_digits(d) || digits_val(d) > u16::MAX {
        None
    } else {
        Some(digits_val(d) as u16)
    }
}

/// The integer value of the first comma-separated argument.
pub open spec fn first_token_int_spec(args: Seq<char>) -> Option<i32> {
    let seg = match find_char(args, ',') {
        Some(k) => args.take(k),
        None => args,
    };
    parse_i32_spec(trim(seg))
}

/// The text between `inet_addr("` and the next `"`.
pub open spec fn connect_host(args: Seq<char>) -> Option<Seq<char>> {
    let pat = "inet_addr(\""@;
    match find_str(args, pat) {
        Some(i) => {
            let s = args.skip(i + pat.len());
            match find_char(s, '"') {
                Some(e) => Some(s.take(e)),
                None => None,
            }
        },
        None => None,
    }
}

/// The number between `htons(` and the next `)`.
pub open spec fn connect_port(args: Seq<char>) -> Option<u16> {
    let pat = "htons("@;
    match find_str(args, pat) {
        Some(i) => {
            let s = args.skip(i + pat.len());
            match find_char(s, ')') {
                Some(e) => parse_u16_spec(s.take(e)),
                None => None,
            }
        },
        None => None,
    }
}

pub open spec fn open_effect(args: Seq<char>) -> Option<SpecEffect> {
    match quoted_from(args, 0, 0) {
        Some(p) => Some(SpecEffect::OpenP { path: encode_utf8(p) }),
        None => None,
    }
}

pub open spec fn exec_effect(args: Seq<char>) -> Option<SpecEffect> {
    match quoted_from(args, 0, 0) {
        Some(p) => Some(SpecEffect::ExecP { path: encode_utf8(p), args: seq![], env: seq![] }),
        None => None,
    }
}

/// The effect that one line of `strace` output records, if any.
pub open spec fn parse_line_spec(line: Seq<char>) -> Option<SpecEffect> {
    let body = strip_pid_prefix_spec(line);
    if let Some(args) = strip_prefix(body, "openat("@) {
        open_effect(args)
    } else if let Some(args) = strip_prefix(body, "openat2("@) {
        open_effect(args)
    } else if let Some(args) = strip_prefix(body, "execve("@) {
        exec_effect(args)
    } else if let Some(args) = strip_prefix(body, "execveat("@) {
        exec_effect(args)
    } else if let Some(args) = strip_prefix(body, "write("@) {
        match first_token_int_spec(args) {
            Some(fd) => match quoted_from(args, 0, 0) {
                Some(b) => Some(SpecEffect::WriteF { fd, bytes: encode_utf8(b) }),
                None => None,
            },
            None => None,
        }
    } else if let Some(args) = strip_prefix(body, "read("@) {
        match first_token_int_spec(args) {
            Some(fd) => Some(SpecEffect::ReadF { fd }),
            None => None,
        }
    } else if let Some(args) = strip_prefix(body, "connect("@) {
        match (connect_host(args), connect_port(args)) {
            (Some(host), Some(port)) => Some(SpecEffect::NetConn { host, port }),
            _ => None,
        }
    } else {
        None
    }
}

/// The effects of the lines, in order, skipping lines that record none.
pub open spec fn effects_of_lines(ls: Seq<Seq<char>>) -> Seq<SpecEffect>
    decreases ls.len(),
{
    if ls.len() == 0 {
        seq![]
    } else {
        match parse_line_spec(ls[0]) {
            Some(e) => seq![e] + effects_of_lines(ls.drop_first()),
            None => effects_of_lines(ls.drop_first()),
        }
    }
}

/// The effects recorded in a whole `strace` capture.
pub open spec fn parse_strace_spec(input: Seq<char>) -> Seq<SpecEffect> {
    effects_of_lines(lines(input))
}

/// `find_char` over a concatenation: the first hit in `a`, else the first
/// hit in `t` shifted past `a`.
proof fn lemma_find_char_concat(a: Seq<char>, t: Seq<char>, c: char)
    ensures
        find_char(a + t, c) == match find_char(a, c) {
            Some(i) => Some(i),
            None => match find_char(t, c) {
                Some(j) => Some(j + a.len()),
                None => None,
            },
        },
    decreases a.len(),
{
    if a.len() > 0 {
        assert((a + t).drop_first() =~= a.drop_first() + t);
        assert((a + t)[0] == a[0]);
        lemma_find_char_concat(a.drop_first(), t, c);
    } else {
        assert(a + t =~= t);
    }
}

/// The effects of two runs of lines are the effects of each, in order.
proof fn lemma_effects_concat(x: Seq<Seq<char>>, y: Seq<Seq<char>>)
    ensures
        effects_of_lines(x + y) == effects_of_lines(x) + effects_of_lines(y),
    decreases x.len(),
{
    if x.len() == 0 {
        assert(x + y =~= y);
        assert(effects_of_lines(x) + effects_of_lines(y) =~= effects_of_lines(y));
    } else {
        assert((x + y).drop_first() =~= x.drop_first() + y);
        assert((x + y)[0] == x[0]);
        lemma_effects_concat(x.drop_first(), y);
        match parse_line_spec(x[0]) {
            Some(e) => {
                assert(seq![e] + (effects_of_lines(x.drop_first()) + effects_of_lines(y)) =~= (seq![e]
                    + effects_of_lines(x.drop_first())) + effects_of_lines(y));
            },
            None => {},
        }
    }
}

/// An empty line records nothing.
proof fn lemma_empty_line_no_effect()
    ensures
        parse_line_spec(seq![]) is None,
{
    reveal_strlit("openat(");
    reveal_strlit("openat2(");
    reveal_strlit("execve(");
    reveal_strlit("execveat(");
    reveal_strlit("write(");
    reveal_strlit("read(");
    reveal_strlit("connect(");
    assert(trim_start(seq![]) =~= Seq::<char>::empty());
    assert(strip_pid_prefix_spec(seq![]) =~= Seq::<char>::empty());
}

/// The effects of `l` followed by more lines.
proof fn lemma_effects_cons(l: Seq<char>, rest: Seq<Seq<char>>)
    ensures
        effects_of_lines(seq![l] + rest) == effects_of_lines(seq![l]) + effects_of_lines(rest),
{
    lemma_effects_concat(seq![l], rest);
}

/// A capture cut at a line break parses as its two parts, one after the
/// other: the effects of `a`, then those of `b` (for `a` not ending in a
/// carriage return, which would join the break).
pub proof fn lemma_parse_strace_split(a: Seq<char>, b: Seq<char>)
    requires
        a.len() == 0 || a.last() != '\r',
    ensures
        parse_strace_spec(a + seq!['\n'] + b) == parse_strace_spec(a) + parse_strace_spec(b),
    decreases a.len(),
{
    let s = a + seq!['\n'] + b;
    let t = seq!['\n'] + b;
    assert(s =~= a + t);
    lemma_find_char_concat(a, t, '\n');
    assert(t[0] == '\n');
    assert(find_char(t, '\n') == Some(0int));
    lemma_find_char_range(a, '\n');
    match find_char(a, '\n') {
        Some(i) => {
            let a2 = a.skip(i + 1);
            assert(s.take(i) =~= a.take(i));
            assert(s.skip(i + 1) =~= a2 + seq!['\n'] + b);
            assert(lines(s) == seq![strip_cr(a.take(i))] + lines(s.skip(i + 1)));
            assert(lines(a) == seq![strip_cr(a.take(i))] + lines(a2));
            if a2.len() > 0 {
                assert(a2.last() == a.last());
            }
            lemma_parse_strace_split(a2, b);
            lemma_effects_cons(strip_cr(a.take(i)), lines(a2 + seq!['\n'] + b));
            lemma_effects_cons(strip_cr(a.take(i)), lines(a2));
        },
        None => {
            assert(s.take(a.len() as int) =~= a);
            assert(s.skip(a.len() as int + 1) =~= b);
            assert(lines(s) == seq![strip_cr(a)] + lines(b));
            lemma_effects_cons(strip_cr(a), lines(b));
            if a.len() == 0 {
                lemma_empty_line_no_effect();
                assert(strip_cr(a) =~= Seq::<char>::empty());
                assert(parse_line_spec(strip_cr(a)) is None);
                assert(seq![strip_cr(a)].drop_first() =~= Seq::<Seq<char>>::empty());
                assert(effects_of_lines(Seq::<Seq<char>>::empty()) =~= Seq::<SpecEffect>::empty());
                assert(seq![strip_cr(a)][0] == strip_cr(a));
                assert(effects_of_lines(seq![strip_cr(a)]) =~= Seq::<SpecEffect>::empty());
                assert(parse_strace_spec(a) =~= Seq::<SpecEffect>::empty());
            } else {
                assert(strip_cr(a) == a);
                assert(lines(a) == seq![a]);
            }
        },
    }
}

/// The quoted string's body from `j` on holds no quote and no backslash
/// until the quote at `end`, which closes it.
proof fn lemma_closing_plain(s: Seq<char>, j: int, end: int)
    requires
        0 <= j <= end < s.len(),
        s[end] == '"',
        forall|k: int| j <= k < end ==> #[trigger] s[k] != '"' && s[k] != '\\',
    ensures
        closing_quote(s, j) == Some(end),
    decreases end - j,
{
    if j < end {
        lemma_closing_plain(s, j + 1, end);
    }
}

proof fn lemma_quoted_first_from(s: Seq<char>, i: int, q: int, end: int)
    requires
        0 <= i <= q < end < s.len(),
        forall|k: int| i <= k < q ==> #[trigger] s[k] != '"',
        s[q] == '"',
        s[end] == '"',
        forall|k: int| q < k < end ==> #[trigger] s[k] != '"' && s[k] != '\\',
    ensures
        quoted_from(s, i, 0) == Some(s.subrange(q + 1, end)),
    decreases q - i,
{
    if i < q {
        lemma_quoted_first_from(s, i + 1, q, end);
    } else {
        lemma_closing_plain(s, q + 1, end);
    }
}

/// The first quoted string of `pre "p" post`, where `pre` holds no quote
/// and `p` neither a quote nor a backslash, is `p`.
proof fn lemma_quoted_first(pre: Seq<char>, p: Seq<char>, post: Seq<char>)
    requires
        forall|k: int| 0 <= k < pre.len() ==> #[trigger] pre[k] != '"',
        forall|k: int| 0 <= k < p.len() ==> #[trigger] p[k] != '"' && p[k] != '\\',
    ensures
        quoted_from(pre + seq!['"'] + p + seq!['"'] + post, 0, 0) == Some(p),
{
    let s = pre + seq!['"'] + p + seq!['"'] + post;
    let q = pre.len() as int;
    let end = q + 1 + p.len();
    assert forall|k: int| 0 <= k < q implies #[trigger] s[k] != '"' by {
        assert(s[k] == pre[k]);
    }
    assert forall|k: int| q < k < end implies #[trigger] s[k] != '"' && s[k] != '\\' by {
        assert(s[k] == p[k - q - 1]);
    }
    lemma_quoted_first_from(s, 0, q, end);
    assert(s.subrange(q + 1, end) =~= p);
}

/// A line that starts with a lower-case letter has no leading whitespace
/// and no `[pid N]` tag: its body is the whole line.
proof fn lemma_plain_body(line: Seq<char>)
    requires
        line.len() > 0,
        'a' <= line[0] && line[0] <= 'z',
    ensures
        strip_pid_prefix_spec(line) == line,
{
}

/// A line that records an open or an exec yields the path it names: for
/// `openat(`, `openat2(`, `execve(` and `execveat(` followed by arguments
/// whose first quoted string is `p` (before it no quote; in it no quote and
/// no backslash), the effect is an open of `p`, respectively an exec of
/// `p`, as UTF-8.
pub proof fn lemma_path_lines(pre: Seq<char>, p: Seq<char>, post: Seq<char>)
    requires
        forall|k: int| 0 <= k < pre.len() ==> #[trigger] pre[k] != '"',
        forall|k: int| 0 <= k < p.len() ==> #[trigger] p[k] != '"' && p[k] != '\\',
    ensures
        parse_line_spec("openat("@ + (pre + seq!['"'] + p + seq!['"'] + post)) == Some(
            SpecEffect::OpenP { path: encode_utf8(p) },
        ),
        parse_line_spec("openat2("@ + (pre + seq!['"'] + p + seq!['"'] + post)) == Some(
            SpecEffect::OpenP { path: encode_utf8(p) },
        ),
        parse_line_spec("execve("@ + (pre + seq!['"'] + p + seq!['"'] + post)) == Some(
            SpecEffect::ExecP { path: encode_utf8(p), args: seq![], env: seq![] },
        ),
        parse_line_spec("execveat("@ + (pre + seq!['"'] + p + seq!['"'] + post)) == Some(
            SpecEffect::ExecP { path: encode_utf8(p), args: seq![], env: seq![] },
        ),
{
    reveal_strlit("openat(");
    reveal_strlit("openat2(");
    reveal_strlit("execve(");
    reveal_strlit("execveat(");
    let a = pre + seq!['"'] + p + seq!['"'] + post;
    lemma_quoted_first(pre, p, post);
    let l1 = "openat("@ + a;
    lemma_plain_body(l1);
    assert(l1.subrange(0, 7) =~= "openat("@);
    assert(l1.skip(7) =~= a);
    let l2 = "openat2("@ + a;
    lemma_plain_body(l2);
    assert(l2[6] != "openat("@[6]);
    assert(l2.subrange(0, 7) != "openat("@);
    assert(l2.subrange(0, 8) =~= "openat2("@);
    assert(l2.skip(8) =~= a);
    let l3 = "execve("@ + a;
    lemma_plain_body(l3);
    assert(l3.subrange(0, 7)[0] != "openat("@[0]);
    assert(l3.subrange(0, 8)[0] != "openat2("@[0]);
    assert(l3.subrange(0, 7) =~= "execve("@);
    assert(l3.skip(7) =~= a);
    let l4 = "execveat("@ + a;
    lemma_plain_body(l4);
    assert(l4.subrange(0, 7)[0] != "openat("@[0]);
    assert(l4.subrange(0, 8)[0] != "openat2("@[0]);
    assert(l4.subrange(0, 7)[6] != "execve("@[6]);
    assert(l4.subrange(0, 9) =~= "execveat("@);
    assert(l4.skip(9) =~= a);
}

proof fn lemma_find_char_absent(s: Seq<char>, c: char)
    requires
        forall|k: int| 0 <= k < s.len() ==> #[trigger] s[k] != c,
    ensures
        find_char(s, c) is None,
    decreases s.len(),
{
    if s.len() > 0 {
        assert forall|k: int| 0 <= k < s.drop_first().len() implies #[trigger] s.drop_first()[k]
            != c by {
            assert(s.drop_first()[k] == s[k + 1]);
        }
        lemma_find_char_absent(s.drop_first(), c);
    }
}

/// Leading whitespace does not change what a line records.
pub proof fn lemma_leading_space(line: Seq<char>)
    ensures
        parse_line_spec(seq![' '] + line) == parse_line_spec(line),
{
    let s = seq![' '] + line;
    assert(s[0] == ' ');
    assert(s.drop_first() =~= line);
    assert(trim_start(s) == trim_start(line));
    assert(strip_pid_prefix_spec(s) == strip_pid_prefix_spec(line));
}

/// A `[pid N] ` tag in front of a line does not change what it records:
/// for a tag without `]` and a line that starts with a lower-case letter,
/// the tagged line records what the line alone records.
pub proof fn lemma_pid_tag(tag: Seq<char>, body: Seq<char>)
    requires
        forall|k: int| 0 <= k < tag.len() ==> #[trigger] tag[k] != ']',
        body.len() > 0,
        'a' <= body[0] && body[0] <= 'z',
    ensures
        parse_line_spec(seq!['['] + tag + seq![']', ' '] + body) == parse_line_spec(body),
{
    let s = seq!['['] + tag + seq![']', ' '] + body;
    assert(s[0] == '[');
    assert(trim_start(s) == s);
    let rest = s.drop_first();
    let after = seq![']', ' '] + body;
    assert(rest =~= tag + after);
    lemma_find_char_absent(tag, ']');
    lemma_find_char_concat(tag, after, ']');
    assert(after[0] == ']');
    assert(find_char(after, ']') == Some(0int));
    assert(find_char(rest, ']') == Some(tag.len() as int));
    let sp = seq![' '] + body;
    assert(rest.skip(tag.len() as int + 1) =~= sp);
    assert(sp[0] == ' ');
    assert(sp.drop_first() =~= body);
    assert(trim_start(sp) == trim_start(body));
    lemma_plain_body(body);
    assert(strip_pid_prefix_spec(s) == body);
}

/// A `write(` or `read(` line whose first argument is the descriptor `d`
/// (one decimal digit) records a write of the first quoted string `p` to
/// that descriptor, respectively a read from it.
pub proof fn lemma_fd_lines(d: char, p: Seq<char>, post: Seq<char>)
    requires
        '0' <= d && d <= '9',
        forall|k: int| 0 <= k < p.len() ==> #[trigger] p[k] != '"' && p[k] != '\\',
    ensures
        parse_line_spec("write("@ + (seq![d, ',', ' ', '"'] + p + seq!['"'] + post)) == Some(
            SpecEffect::WriteF { fd: (d as u32 - '0' as u32) as i32, bytes: encode_utf8(p) },
        ),
        parse_line_spec("read("@ + (seq![d, ',', ' ', '"'] + p + seq!['"'] + post)) == Some(
            SpecEffect::ReadF { fd: (d as u32 - '0' as u32) as i32 },
        ),
{
    reveal_strlit("openat(");
    reveal_strlit("openat2(");
    reveal_strlit("execve(");
    reveal_strlit("execveat(");
    reveal_strlit("write(");
    reveal_strlit("read(");
    let pre = seq![d, ',', ' '];
    let a = seq![d, ',', ' ', '"'] + p + seq!['"'] + post;
    assert(a =~= pre + seq!['"'] + p + seq!['"'] + post);
    lemma_quoted_first(pre, p, post);
    assert(a[0] == d && a[1] == ',');
    assert(find_char(a.drop_first(), ',') == Some(0int));
    assert(find_char(a, ',') == Some(1int));
    let seg = a.take(1);
    assert(seg =~= seq![d]);
    assert(trim_start(seg) == seg);
    assert(seg.drop_last() =~= Seq::<char>::empty());
    assert(trim_end(seg) == seg);
    assert(all_digits(seg));
    assert(seg.last() == d);
    assert(digits_val(seg.drop_last()) == 0);
    assert(digits_val(seg) == d as u32 - '0' as u32);
    assert(first_token_int_spec(a) == Some((d as u32 - '0' as u32) as i32));
    let lw = "write("@ + a;
    lemma_plain_body(lw);
    assert(lw.subrange(0, 7)[0] != "openat("@[0]);
    assert(lw.subrange(0, 8)[0] != "openat2("@[0]);
    assert(lw.subrange(0, 7)[0] != "execve("@[0]);
    assert(lw.subrange(0, 9)[0] != "execveat("@[0]);
    assert(lw.subrange(0, 6) =~= "write("@);
    assert(lw.skip(6) =~= a);
    let lr = "read("@ + a;
    lemma_plain_body(lr);
    assert(lr.subrange(0, 7)[0] != "openat("@[0]);
    assert(lr.subrange(0, 8)[0] != "openat2("@[0]);
    assert(lr.subrange(0, 7)[0] != "execve("@[0]);
    assert(lr.subrange(0, 9)[0] != "execveat("@[0]);
    assert(lr.subrange(0, 6)[0] != "write("@[0]);
    assert(lr.subrange(0, 5) =~= "read("@);
    assert(lr.skip(5) =~= a);
}

/* ----------------------------------------------------------------------
 * Implementation
 * -------------------------------------------------------------------- */

/// The literal syscall prefixes and markers, as characters.
pub struct Patterns {
    pub openat: Vec<char>,
    pub openat2: Vec<char>,
    pub execve: Vec<char>,
    pub execveat: Vec<char>,
    pub write: Vec<char>,
    pub read: Vec<char>,
    pub connect: Vec<char>,
    pub inet: Vec<char>,
    pub htons: Vec<char>,
}

impl Patterns {
    pub open spec fn wf(&self) -> bool {
        &&& self.openat@ == "openat("@
        &&& self.openat2@ == "openat2("@
        &&& self.execve@ == "execve("@
        &&& self.execveat@ == "execveat("@
        &&& self.write@ == "write("@
        &&& self.read@ == "read("@
        &&& self.connect@ == "connect("@
        &&& self.inet@ == "inet_addr(\""@
        &&& self.htons@ == "htons("@
    }

    pub fn new() -> (p: Patterns)
        ensures
            p.wf(),
    {
        Patterns {
            openat: str_chars("openat("),
            openat2: str_chars("openat2("),
            execve: str_chars("execve("),
            execveat: str_chars("execveat("),
            write: str_chars("write("),
            read: str_chars("read("),
            connect: str_chars("connect("),
            inet: str_chars("inet_addr(\""),
            htons: str_chars("htons("),
        }
    }
}

/// Where `strip_pid_prefix_spec(s[from..to])` begins.
fn strip_pid_prefix_at(s: &Vec<char>, from: usize, to: usize) -> (k: usize)
    requires
        from <= to <= s@.len(),
    ensures
        from <= k <= to,
        strip_pid_prefix_spec(s@.subrange(from as int, to as int)) == s@.subrange(
            k as int,
            to as int,
        ),
{
    let ghost line = s@.subrange(from as int, to as int);
    let t = skip_ws(s, from, to);
    if t < to && s[t] == '[' {
        let ghost rest = s@.subrange(t + 1, to as int);
        assert(trim_start(line).drop_first() =~= rest);
        match find_char_in(s, t + 1, to, ']') {
            Some(idx) => {
                assert(rest.skip(idx - t) =~= s@.subrange(idx + 1, to as int));
                skip_ws(s, idx + 1, to)
            },
            None => t,
        }
    } else {
        t
    }
}

/// A line without leading whitespace and without a leading `[pid N]` tag.
pub fn strip_pid_prefix(line: &str) -> (r: String)
    ensures
        r@ == strip_pid_prefix_spec(line@),
{
    let s = str_chars(line);
    let k = strip_pid_prefix_at(&s, 0, s.len());
    assert(s@.subrange(0, s@.len() as int) =~= s@);
    string_from_chars(&s, k, s.len())
}

/// Where the quote that closes a quoted string of `s[from..to]` stands; the
/// body starts at `j`.
fn closing_quote_at(s: &Vec<char>, from: usize, to: usize, j: usize) -> (r: Option<usize>)
    requires
        from <= j <= to <= s@.len(),
    ensures
        match r {
            Some(k) => j <= k < to && closing_quote(s@.subrange(from as int, to as int), j - from)
                == Some(k - from),
            None => closing_quote(s@.subrange(from as int, to as int), j - from) is None,
        },
{
    let ghost sub = s@.subrange(from as int, to as int);
    let mut k = j;
    while k < to
        invariant
            from <= j <= k <= to <= s@.len(),
            sub == s@.subrange(from as int, to as int),
            closing_quote(sub, j - from) == closing_quote(sub, k - from),
        decreases to - k,
    {
        if s[k] == '\\' && k + 1 < to {
            k = k + 2;
        } else if s[k] == '"' {
            return Some(k);
        } else {
            k = k + 1;
        }
    }
    None
}

/// Where the `n`-th quoted string of `s[from..to]` lies.
fn quoted_at(s: &Vec<char>, from: usize, to: usize, n: usize) -> (r: Option<(usize, usize)>)
    requires
        from <= to <= s@.len(),
    ensures
        match r {
            Some((a, b)) => from <= a <= b <= to && quoted_from(
                s@.subrange(from as int, to as int),
                0,
                n as nat,
            ) == Some(s@.subrange(a as int, b as int)),
            None => quoted_from(s@.subrange(from as int, to as int), 0, n as nat) is None,
        },
{
    let ghost sub = s@.subrange(from as int, to as int);
    let mut count: usize = 0;
    let mut i = from;
    while i < to
        invariant
            from <= i <= to <= s@.len(),
            count <= n,
            sub == s@.subrange(from as int, to as int),
            quoted_from(sub, 0, n as nat) == quoted_from(sub, i - from, (n - count) as nat),
        decreases to - i,
    {
        if s[i] == '"' {
            match closing_quote_at(s, from, to, i + 1) {
                None => {
                    return None;
                },
                Some(j) => {
                    if count == n {
                        assert(sub.subrange(i + 1 - from, j - from) =~= s@.subrange(
                            i + 1,
                            j as int,
                        ));
                        return Some((i + 1, j));
                    }
                    count = count + 1;
                    i = j + 1;
                },
            }
        } else {
            i = i + 1;
        }
    }
    None
}

/// The `n`-th (0-based) quoted string within `args`.
pub fn nth_quoted_string(args: &str, n: usize) -> (r: Option<String>)
    ensures
        match r {
            Some(q) => quoted_from(args@, 0, n as nat) == Some(q@),
            None => quoted_from(args@, 0, n as nat) is None,
        },
{
    let s = str_chars(args);
    assert(s@.subrange(0, s@.len() as int) =~= s@);
    match quoted_at(&s, 0, s.len(), n) {
        Some((a, b)) => Some(string_from_chars(&s, a, b)),
        None => None,
    }
}

/// Whether all of `s[a..b]` are digits; if so, their value, unless it exceeds `bound`.
fn digits_at(s: &Vec<char>, a: usize, b: usize, bound: u64) -> (r: Option<u64>)
    requires
        a <= b <= s@.len(),
        bound <= 0x1_0000_0000,
    ensures
        match r {
            Some(v) => all_digits(s@.subrange(a as int, b as int)) && v == digits_val(
                s@.subrange(a as int, b as int),
            ) && v <= bound,
            None => !all_digits(s@.subrange(a as int, b as int)) || digits_val(
                s@.subrange(a as int, b as int),
            ) > bound,
        },
{
    let ghost t = s@.subrange(a as int, b as int);
    let mut k = a;
    while k < b
        invariant
            a <= k <= b <= s@.len(),
            t == s@.subrange(a as int, b as int),
            forall|j: int| 0 <= j < k - a ==> is_digit(#[trigger] t[j]),
        decreases b - k,
    {
        if !('0' <= s[k] && s[k] <= '9') {
            assert(!is_digit(t[k - a]));
            return None;
        }
        k = k + 1;
    }
    assert(all_digits(t));
    let mut acc: u64 = 0;
    let mut k = a;
    assert(t.take(0) =~= Seq::<char>::empty());
    while k < b
        invariant
            a <= k <= b <= s@.len(),
            t == s@.subrange(a as int, b as int),
            all_digits(t),
            acc == digits_val(t.take(k - a)),
            acc <= bound,
            bound <= 0x1_0000_0000,
        decreases b - k,
    {
        assert(t.take(k + 1 - a).drop_last() =~= t.take(k - a));
        assert(is_digit(t[k - a]));
        let d = (s[k] as u32 - '0' as u32) as u64;
        acc = acc * 10 + d;
        k = k + 1;
        if acc > bound {
            proof {
                lemma_digits_val_prefix(t, k - a);
            }
            return None;
        }
    }
    assert(t.take(b - a) =~= t);
    Some(acc)
}

/// The value of a digit string is at least that of any of its prefixes.
pub proof fn lemma_digits_val_prefix(s: Seq<char>, k: int)
    requires
        all_digits(s),
        0 <= k <= s.len(),
    ensures
        digits_val(s.take(k)) <= digits_val(s),
    decreases s.len(),
{
    if k == s.len() {
        assert(s.take(k) =~= s);
    } else {
        assert(s.drop_last().take(k) =~= s.take(k));
        lemma_digits_val_prefix(s.drop_last(), k);
    }
}

/// `str::parse::<i32>` of `s[a..b]`.
fn parse_i32_at(s: &Vec<char>, a: usize, b: usize) -> (r: Option<i32>)
    requires
        a <= b <= s@.len(),
    ensures
        r == parse_i32_spec(s@.subrange(a as int, b as int)),
{
    let ghost t = s@.subrange(a as int, b as int);
    if a < b && (s[a] == '-' || s[a] == '+') {
        assert(t.drop_first() =~= s@.subrange(a + 1, b as int));
        if a + 1 == b {
            return None;
        }
        if s[a] == '-' {
            match digits_at(s, a + 1, b, 0x8000_0000) {
                Some(v) => Some((0 - (v as i64)) as i32),
                None => None,
            }
        } else {
            match digits_at(s, a + 1, b, 0x7fff_ffff) {
                Some(v) => Some(v as i32),
                None => None,
            }
        }
    } else {
        if a == b {
            return None;
        }
        match digits_at(s, a, b, 0x7fff_ffff) {
            Some(v) => Some(v as i32),
            None => None,
        }
    }
}

/// `str::parse::<u16>` of `s[a..b]`.
fn parse_u16_at(s: &Vec<char>, a: usize, b: usize) -> (r: Option<u16>)
    requires
        a <= b <= s@.len(),
    ensures
        r == parse_u16_spec(s@.subrange(a as int, b as int)),
{
    let ghost t = s@.subrange(a as int, b as int);
    let start = if a < b && s[a] == '+' {
        assert(t.drop_first() =~= s@.subrange(a + 1, b as int));
        a + 1
    } else {
        a
    };
    if start == b {
        return None;
    }
    match digits_at(s, start, b, 0xffff) {
        Some(v) => Some(v as u16),
        None => None,
    }
}

/// The integer value of the first comma-separated argument of `s[from..to]`.
fn first_token_int_at(s: &Vec<char>, from: usize, to: usize) -> (r: Option<i32>)
    requires
        from <= to <= s@.len(),
    ensures
        r == first_token_int_spec(s@.subrange(from as int, to as int)),
{
    let ghost args = s@.subrange(from as int, to as int);
    let end = match find_char_in(s, from, to, ',') {
        Some(k) => {
            assert(args.take(k - from) =~= s@.subrange(from as int, k as int));
            k
        },
        None => {
            assert(args =~= s@.subrange(from as int, to as int));
            to
        },
    };
    let a = skip_ws(s, from, end);
    let b = skip_ws_back(s, a, end);
    parse_i32_at(s, a, b)
}

/// The integer value of the first comma-separated argument.
pub fn first_token_int(args: &str) -> (r: Option<i32>)
    ensures
        r == first_token_int_spec(args@),
{
    let s = str_chars(args);
    assert(s@.subrange(0, s@.len() as int) =~= s@);
    first_token_int_at(&s, 0, s.len())
}

/// The effect of the arguments of `openat(` or `openat2(`.
fn open_at(s: &Vec<char>, from: usize, to: usize) -> (r: Option<Effect>)
    requires
        from <= to <= s@.len(),
    ensures
        r.deep_view() == open_effect(s@.subrange(from as int, to as int)),
{
    match quoted_at(s, from, to, 0) {
        Some((a, b)) => Some(Effect::OpenP { path: encode_chars(s, a, b) }),
        None => None,
    }
}

/// The effect of the arguments of `execve(` or `execveat(`.
fn exec_at(s: &Vec<char>, from: usize, to: usize) -> (r: Option<Effect>)
    requires
        from <= to <= s@.len(),
    ensures
        r.deep_view() == exec_effect(s@.subrange(from as int, to as int)),
{
    match quoted_at(s, from, to, 0) {
        Some((a, b)) => {
            let e = Effect::ExecP { path: encode_chars(s, a, b), args: Vec::new(), env: Vec::new() };
            assert(e.deep_view() == exec_effect(s@.subrange(from as int, to as int)).unwrap()) by {
                let ghost ex = e.deep_view();
                if let SpecEffect::ExecP { path, args, env } = ex {
                    assert(args =~= Seq::<Seq<u8>>::empty());
                    assert(env =~= Seq::<(Seq<u8>, Seq<u8>)>::empty());
                }
            }
            Some(e)
        },
        None => None,
    }
}

/// The host of a `connect(` line's arguments `s[from..to]`.
fn connect_host_at(s: &Vec<char>, from: usize, to: usize, inet: &Vec<char>) -> (r: Option<String>)
    requires
        from <= to <= s@.len(),
        inet@ == "inet_addr(\""@,
    ensures
        match r {
            Some(h) => connect_host(s@.subrange(from as int, to as int)) == Some(h@),
            None => connect_host(s@.subrange(from as int, to as int)) is None,
        },
{
    let ghost args = s@.subrange(from as int, to as int);
    match find_str_in(s, from, to, inet) {
        Some(i) => {
            proof {
                lemma_find_str_range(args, inet@);
                assert(args.skip(i - from) =~= s@.subrange(i as int, to as int));
            }
            let hs = i + inet.len();
            assert(args.skip(i - from + inet@.len()) =~= s@.subrange(hs as int, to as int));
            match find_char_in(s, hs, to, '"') {
                Some(e) => {
                    assert(s@.subrange(hs as int, to as int).take(e - hs) =~= s@.subrange(
                        hs as int,
                        e as int,
                    ));
                    Some(string_from_chars(s, hs, e))
                },
                None => None,
            }
        },
        None => None,
    }
}

/// The port of a `connect(` line's arguments `s[from..to]`.
fn connect_port_at(s: &Vec<char>, from: usize, to: usize, htons: &Vec<char>) -> (r: Option<u16>)
    requires
        from <= to <= s@.len(),
        htons@ == "htons("@,
    ensures
        r == connect_port(s@.subrange(from as int, to as int)),
{
    let ghost args = s@.subrange(from as int, to as int);
    match find_str_in(s, from, to, htons) {
        Some(i) => {
            proof {
                lemma_find_str_range(args, htons@);
                assert(args.skip(i - from) =~= s@.subrange(i as int, to as int));
            }
            let ps = i + htons.len();
            assert(args.skip(i - from + htons@.len()) =~= s@.subrange(ps as int, to as int));
            match find_char_in(s, ps, to, ')') {
                Some(e) => {
                    assert(s@.subrange(ps as int, to as int).take(e - ps) =~= s@.subrange(
                        ps as int,
                        e as int,
                    ));
                    parse_u16_at(s, ps, e)
                },
                None => None,
            }
        },
        None => None,
    }
}

/// The effect that the line `s[from..to]` records, if any.
fn parse_line_at(s: &Vec<char>, from: usize, to: usize, pats: &Patterns) -> (r: Option<Effect>)
    requires
        from <= to <= s@.len(),
        pats.wf(),
    ensures
        r.deep_view() == parse_line_spec(s@.subrange(from as int, to as int)),
{
    let b = strip_pid_prefix_at(s, from, to);
    let ghost body = s@.subrange(b as int, to as int);
    if has_prefix(s, b, to, &pats.openat) {
        let a = b + pats.openat.len();
        assert(body.skip(pats.openat@.len() as int) =~= s@.subrange(a as int, to as int));
        return open_at(s, a, to);
    }
    if has_prefix(s, b, to, &pats.openat2) {
        let a = b + pats.openat2.len();
        assert(body.skip(pats.openat2@.len() as int) =~= s@.subrange(a as int, to as int));
        return open_at(s, a, to);
    }
    if has_prefix(s, b, to, &pats.execve) {
        let a = b + pats.execve.len();
        assert(body.skip(pats.execve@.len() as int) =~= s@.subrange(a as int, to as int));
        return exec_at(s, a, to);
    }
    if has_prefix(s, b, to, &pats.execveat) {
        let a = b + pats.execveat.len();
        assert(body.skip(pats.execveat@.len() as int) =~= s@.subrange(a as int, to as int));
        return exec_at(s, a, to);
    }
    if has_prefix(s, b, to, &pats.write) {
        let a = b + pats.write.len();
        assert(body.skip(pats.write@.len() as int) =~= s@.subrange(a as int, to as int));
        let fd = match first_token_int_at(s, a, to) {
            Some(fd) => fd,
            None => {
                return None;
            },
        };
        return match quoted_at(s, a, to, 0) {
            Some((qa, qb)) => Some(Effect::WriteF { fd, bytes: encode_chars(s, qa, qb) }),
            None => None,
        };
    }
    if has_prefix(s, b, to, &pats.read) {
        let a = b + pats.read.len();
        assert(body.skip(pats.read@.len() as int) =~= s@.subrange(a as int, to as int));
        return match first_token_int_at(s, a, to) {
            Some(fd) => Some(Effect::ReadF { fd }),
            None => None,
        };
    }
    if has_prefix(s, b, to, &pats.connect) {
        let a = b + pats.connect.len();
        assert(body.skip(pats.connect@.len() as int) =~= s@.subrange(a as int, to as int));
        let host = match connect_host_at(s, a, to, &pats.inet) {
            Some(h) => h,
            None => {
                return None;
            },
        };
        return match connect_port_at(s, a, to, &pats.htons) {
            Some(port) => Some(Effect::NetConn { host, port }),
            None => None,
        };
    }
    None
}

/// The effect that one line of `strace` output records, if any.
pub fn parse_line(line: &str) -> (r: Option<Effect>)
    ensures
        r.deep_view() == parse_line_spec(line@),
{
    let s = str_chars(line);
    let pats = Patterns::new();
    assert(s@.subrange(0, s@.len() as int) =~= s@);
    parse_line_at(&s, 0, s.len(), &pats)
}

/// The effects recorded in a whole `strace` capture, in order.
pub fn parse_strace(input: &str) -> (r: Vec<Effect>)
    ensures
        r.deep_view() == parse_strace_spec(input@),
{
    let s = str_chars(input);
    let pats = Patterns::new();
    let mut out: Vec<Effect> = Vec::new();
    let mut start: usize = 0;
    assert(s@.skip(0) =~= s@);
    while start < s.len()
        invariant
            start <= s@.len(),
            pats.wf(),
            out.deep_view() + effects_of_lines(lines(s@.skip(start as int))) == parse_strace_spec(
                s@,
            ),
            s@ == input@,
        decreases s@.len() - start,
    {
        let ghost rest = s@.skip(start as int);
        assert(rest =~= s@.subrange(start as int, s@.len() as int));
        let (le, next) = match find_char_in(&s, start, s.len(), '\n') {
            Some(k) => {
                let le = if k > start && s[k - 1] == '\r' {
                    k - 1
                } else {
                    k
                };
                assert(strip_cr(rest.take(k - start)) =~= s@.subrange(start as int, le as int));
                assert(rest.skip(k - start + 1) =~= s@.skip(k + 1));
                (le, k + 1)
            },
            None => (s.len(), s.len()),
        };
        let ghost line = s@.subrange(start as int, le as int);
        assert(lines(rest) =~= seq![line] + lines(s@.skip(next as int))) by {
            if next == s@.len() && le == s@.len() && find_char(rest, '\n') is None {
                assert(s@.skip(next as int) =~= Seq::<char>::empty());
                assert(lines(s@.skip(next as int)) =~= Seq::<Seq<char>>::empty());
            }
        }
        assert((seq![line] + lines(s@.skip(next as int))).drop_first() =~= lines(
            s@.skip(next as int),
        ));
        let ghost old_out = out.deep_view();
        match parse_line_at(&s, start, le, &pats) {
            Some(e) => {
                out.push(e);
                assert(out.deep_view() =~= old_out + seq![e.deep_view()]);
            },
            None => {},
        }
        start = next;
    }
    assert(s@.skip(start as int) =~= Seq::<char>::empty());
    assert(lines(s@.skip(start as int)) =~= Seq::<Seq<char>>::empty());
    assert(out.deep_view() + Seq::<SpecEffect>::empty() =~= out.deep_view());
    out
}

} // verus!

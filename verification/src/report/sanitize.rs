//! Terminal-injection-safe sanitizer for model output strings.
//!
//! Strips:
//!   * ANSI/CSI sequences (`ESC[`)
//!   * OSC sequences (`ESC]`), OSC 8 hyperlinks included
//!   * BiDi overrides (U+202A..U+202E, U+2066..U+2069)
//!   * zero-width characters (U+200B/C/D, U+FEFF)
//!   * all other control characters except `\n` and `\t`
//!
//! Keeps printable Unicode, newlines and tabs.
use crate::text::{push_char, str_chars};
use vstd::prelude::*;

verus! {

pub open spec fn esc() -> char {
    '\u{1b}'
}

/// `char::is_control`: general category Cc.
pub open spec fn is_control(c: char) -> bool {
    c <= '\u{1f}' || ('\u{7f}' <= c && c <= '\u{9f}')
}

/// A BiDi override or isolate.
pub open spec fn is_bidi(c: char) -> bool {
    ('\u{202a}' <= c && c <= '\u{202e}') || ('\u{2066}' <= c && c <= '\u{2069}')
}

/// A zero-width character or byte-order mark.
pub open spec fn is_zero_width(c: char) -> bool {
    c == '\u{200b}' || c == '\u{200c}' || c == '\u{200d}' || c == '\u{feff}'
}

/// A character that the sanitizer lets through.
pub open spec fn is_kept(c: char) -> bool {
    &&& !is_bidi(c)
    &&& !is_zero_width(c)
    &&& (!is_control(c) || c == '\n' || c == '\t')
}

/// What remains after a CSI body: everything up to and including the first
/// ASCII letter or `~` is dropped.
pub open spec fn skip_csi(s: Seq<char>) -> Seq<char>
    decreases s.len(),
{
    if s.len() == 0 {
        s
    } else if ('a' <= s[0] && s[0] <= 'z') || ('A' <= s[0] && s[0] <= 'Z') || s[0] == '~' {
        s.drop_first()
    } else {
        skip_csi(s.drop_first())
    }
}

/// What remains after an OSC body: everything up to and including BEL, or
/// up to an ESC and the one character after it, is dropped.
pub open spec fn skip_osc(s: Seq<char>) -> Seq<char>
    decreases s.len(),
{
    if s.len() == 0 {
        s
    } else if s[0] == '\u{7}' {
        s.drop_first()
    } else if s[0] == esc() {
        if s.len() > 1 {
            s.skip(2)
        } else {
            s.drop_first()
        }
    } else {
        skip_osc(s.drop_first())
    }
}

/// The sanitized text.
pub open spec fn sanitize_spec(s: Seq<char>) -> Seq<char>
    decreases s.len(),
{
    if s.len() == 0 {
        seq![]
    } else {
        let c = s[0];
        let rest = s.drop_first();
        if c == esc() {
            if rest.len() > 0 && rest[0] == '[' {
                proof {
                    lemma_skip_csi_len(rest.drop_first());
                }
                sanitize_spec(skip_csi(rest.drop_first()))
            } else if rest.len() > 0 && rest[0] == ']' {
                proof {
                    lemma_skip_osc_len(rest.drop_first());
                }
                sanitize_spec(skip_osc(rest.drop_first()))
            } else {
                sanitize_spec(rest)
            }
        } else if is_kept(c) {
            seq![c] + sanitize_spec(rest)
        } else {
            sanitize_spec(rest)
        }
    }
}

pub proof fn lemma_skip_csi_len(s: Seq<char>)
    ensures
        skip_csi(s).len() <= s.len(),
    decreases s.len(),
{
    if s.len() > 0 {
        lemma_skip_csi_len(s.drop_first());
    }
}

pub proof fn lemma_skip_osc_len(s: Seq<char>)
    ensures
        skip_osc(s).len() <= s.len(),
    decreases s.len(),
{
    if s.len() > 0 {
        lemma_skip_osc_len(s.drop_first());
    }
}

/// Every character of the sanitized text is one that the sanitizer keeps:
/// no control character other than `\n` and `\t`, no BiDi override, no
/// zero-width character.
pub proof fn lemma_sanitize_output_clean(s: Seq<char>)
    ensures
        forall|i: int|
            0 <= i < sanitize_spec(s).len() ==> is_kept(#[trigger] sanitize_spec(s)[i]),
    decreases s.len(),
{
    if s.len() > 0 {
        let rest = s.drop_first();
        if s[0] == esc() {
            if rest.len() > 0 && rest[0] == '[' {
                lemma_skip_csi_len(rest.drop_first());
                lemma_sanitize_output_clean(skip_csi(rest.drop_first()));
                assert(sanitize_spec(s) == sanitize_spec(skip_csi(rest.drop_first())));
            } else if rest.len() > 0 && rest[0] == ']' {
                lemma_skip_osc_len(rest.drop_first());
                lemma_sanitize_output_clean(skip_osc(rest.drop_first()));
                assert(sanitize_spec(s) == sanitize_spec(skip_osc(rest.drop_first())));
            } else {
                lemma_sanitize_output_clean(rest);
                assert(sanitize_spec(s) == sanitize_spec(rest));
            }
        } else {
            lemma_sanitize_output_clean(rest);
            if !is_kept(s[0]) {
                assert(sanitize_spec(s) == sanitize_spec(rest));
            } else {
                assert forall|i: int| 0 <= i < sanitize_spec(s).len() implies is_kept(
                    #[trigger] sanitize_spec(s)[i],
                ) by {
                    if i > 0 {
                        assert(sanitize_spec(s)[i] == sanitize_spec(rest)[i - 1]);
                    }
                }
            }
        }
    }
}

/// Text made only of characters that the sanitizer keeps passes unchanged.
pub proof fn lemma_sanitize_keeps_clean_text(s: Seq<char>)
    requires
        forall|i: int| 0 <= i < s.len() ==> is_kept(#[trigger] s[i]),
    ensures
        sanitize_spec(s) == s,
    decreases s.len(),
{
    if s.len() > 0 {
        assert(is_kept(s[0]));
        assert(s[0] != esc());
        let rest = s.drop_first();
        assert forall|i: int| 0 <= i < rest.len() implies is_kept(#[trigger] rest[i]) by {
            assert(rest[i] == s[i + 1]);
        }
        lemma_sanitize_keeps_clean_text(rest);
        assert(seq![s[0]] + rest =~= s);
    }
}

/// Sanitizing twice gives what sanitizing once gives.
pub proof fn lemma_sanitize_idempotent(s: Seq<char>)
    ensures
        sanitize_spec(sanitize_spec(s)) == sanitize_spec(s),
{
    lemma_sanitize_output_clean(s);
    lemma_sanitize_keeps_clean_text(sanitize_spec(s));
}

/// A letter of the ASCII alphabet, or `~`: what ends a CSI sequence.
pub open spec fn ends_csi(c: char) -> bool {
    ('a' <= c && c <= 'z') || ('A' <= c && c <= 'Z') || c == '~'
}

proof fn lemma_skip_csi_params(params: Seq<char>, f: char, t: Seq<char>)
    requires
        forall|i: int| 0 <= i < params.len() ==> !ends_csi(#[trigger] params[i]),
        ends_csi(f),
    ensures
        skip_csi(params + seq![f] + t) == t,
    decreases params.len(),
{
    let s = params + seq![f] + t;
    if params.len() == 0 {
        assert(s =~= seq![f] + t);
        assert(s.drop_first() =~= t);
    } else {
        assert(s[0] == params[0]);
        assert(s.drop_first() =~= params.drop_first() + seq![f] + t);
        assert forall|i: int| 0 <= i < params.drop_first().len() implies !ends_csi(
            #[trigger] params.drop_first()[i],
        ) by {
            assert(params.drop_first()[i] == params[i + 1]);
        }
        lemma_skip_csi_params(params.drop_first(), f, t);
    }
}

/// A CSI sequence — ESC, `[`, parameters holding no ASCII letter and no
/// `~`, then a final ASCII letter (either case) or `~` — is removed whole:
/// what follows it is sanitized as if it stood alone.
pub proof fn lemma_csi_removed(params: Seq<char>, f: char, t: Seq<char>)
    requires
        forall|i: int| 0 <= i < params.len() ==> !ends_csi(#[trigger] params[i]),
        ends_csi(f),
    ensures
        sanitize_spec(seq![esc(), '['] + params + seq![f] + t) == sanitize_spec(t),
{
    let s = seq![esc(), '['] + params + seq![f] + t;
    assert(s[0] == esc());
    assert(s.drop_first()[0] == '[');
    assert(s.drop_first().drop_first() =~= params + seq![f] + t);
    lemma_skip_csi_params(params, f, t);
}

proof fn lemma_skip_osc_body(body: Seq<char>, t: Seq<char>)
    requires
        forall|i: int| 0 <= i < body.len() ==> #[trigger] body[i] != '\u{7}' && body[i] != esc(),
    ensures
        skip_osc(body + seq!['\u{7}'] + t) == t,
    decreases body.len(),
{
    let s = body + seq!['\u{7}'] + t;
    if body.len() == 0 {
        assert(s =~= seq!['\u{7}'] + t);
        assert(s.drop_first() =~= t);
    } else {
        assert(s[0] == body[0]);
        assert(s.drop_first() =~= body.drop_first() + seq!['\u{7}'] + t);
        assert forall|i: int| 0 <= i < body.drop_first().len() implies #[trigger] body.drop_first()[i]
            != '\u{7}' && body.drop_first()[i] != esc() by {
            assert(body.drop_first()[i] == body[i + 1]);
        }
        lemma_skip_osc_body(body.drop_first(), t);
    }
}

/// An OSC sequence — ESC, `]`, a body holding neither BEL nor ESC, then
/// BEL — is removed whole, OSC 8 hyperlinks included.
pub proof fn lemma_osc_removed(body: Seq<char>, t: Seq<char>)
    requires
        forall|i: int| 0 <= i < body.len() ==> #[trigger] body[i] != '\u{7}' && body[i] != esc(),
    ensures
        sanitize_spec(seq![esc(), ']'] + body + seq!['\u{7}'] + t) == sanitize_spec(t),
{
    let s = seq![esc(), ']'] + body + seq!['\u{7}'] + t;
    assert(s[0] == esc());
    assert(s.drop_first()[0] == ']');
    assert(s.drop_first().drop_first() =~= body + seq!['\u{7}'] + t);
    lemma_skip_osc_body(body, t);
}

/// Printable ASCII, newline and tab pass through in place: such a
/// character stays in front of the sanitized rest.
pub proof fn lemma_printable_kept(c: char, t: Seq<char>)
    requires
        (' ' <= c && c <= '~') || c == '\n' || c == '\t',
    ensures
        sanitize_spec(seq![c] + t) == seq![c] + sanitize_spec(t),
{
    let s = seq![c] + t;
    assert(s[0] == c);
    assert(s.drop_first() =~= t);
}

/// Any other character outside the C0 and C1 control ranges passes through
/// in place, unless it is a BiDi override or isolate (U+202A..U+202E,
/// U+2066..U+2069) or zero-width (U+200B..U+200D, U+FEFF), which are dropped.
pub proof fn lemma_non_control(c: char, t: Seq<char>)
    requires
        c > '\u{9f}',
    ensures
        ('\u{202a}' <= c && c <= '\u{202e}') || ('\u{2066}' <= c && c <= '\u{2069}') || ('\u{200b}'
            <= c && c <= '\u{200d}') || c == '\u{feff}' ==> sanitize_spec(seq![c] + t) == sanitize_spec(
            t,
        ),
        !(('\u{202a}' <= c && c <= '\u{202e}') || ('\u{2066}' <= c && c <= '\u{2069}') || (
        '\u{200b}' <= c && c <= '\u{200d}') || c == '\u{feff}') ==> sanitize_spec(seq![c] + t) == seq![
            c,
        ] + sanitize_spec(t),
{
    let s = seq![c] + t;
    assert(s[0] == c);
    assert(s.drop_first() =~= t);
}

/// ESC followed by anything but `[` or `]` is dropped alone; what follows
/// it is sanitized as usual.
pub proof fn lemma_lone_escape(x: char, t: Seq<char>)
    requires
        x != '[',
        x != ']',
    ensures
        sanitize_spec(seq![esc(), x] + t) == sanitize_spec(seq![x] + t),
{
    let s = seq![esc(), x] + t;
    assert(s[0] == esc());
    assert(s.drop_first() =~= seq![x] + t);
}

/// A control character other than ESC, newline and tab is dropped.
pub proof fn lemma_control_dropped(c: char, t: Seq<char>)
    requires
        c <= '\u{1f}' || ('\u{7f}' <= c && c <= '\u{9f}'),
        c != esc(),
        c != '\n',
        c != '\t',
    ensures
        sanitize_spec(seq![c] + t) == sanitize_spec(t),
{
    let s = seq![c] + t;
    assert(s[0] == c);
    assert(s.drop_first() =~= t);
}

fn is_kept_char(c: char) -> (b: bool)
    ensures
        b == is_kept(c),
{
    let bidi = ('\u{202a}' <= c && c <= '\u{202e}') || ('\u{2066}' <= c && c <= '\u{2069}');
    let zw = c == '\u{200b}' || c == '\u{200c}' || c == '\u{200d}' || c == '\u{feff}';
    let control = c <= '\u{1f}' || ('\u{7f}' <= c && c <= '\u{9f}');
    !bidi && !zw && (!control || c == '\n' || c == '\t')
}

/// Strips terminal escape sequences, BiDi overrides, zero-width characters
/// and control characters other than newline and tab.
pub fn sanitize(input: &str) -> (out: String)
    ensures
        out@ == sanitize_spec(input@),
{
    let s = str_chars(input);
    let n = s.len();
    let mut out = String::new();
    let mut i: usize = 0;
    assert(s@.skip(0) =~= s@);
    while i < n
        invariant
            n == s@.len(),
            i <= n,
            out@ + sanitize_spec(s@.skip(i as int)) == sanitize_spec(s@),
            s@ == input@,
        decreases n - i,
    {
        let ghost rest = s@.skip(i as int);
        let c = s[i];
        assert(rest[0] == c);
        assert(rest.drop_first() =~= s@.skip(i + 1));
        if c == '\u{1b}' {
            if i + 1 < n && s[i + 1] == '[' {
                let mut j = i + 2;
                assert(rest.drop_first().drop_first() =~= s@.skip(j as int));
                while j < n
                    invariant_except_break
                        i + 2 <= j <= n,
                        n == s@.len(),
                        skip_csi(s@.skip(i + 2)) == skip_csi(s@.skip(j as int)),
                    ensures
                        i + 2 <= j <= n,
                        skip_csi(s@.skip(i + 2)) == s@.skip(j as int),
                    decreases n - j,
                {
                    let p = s[j];
                    assert(s@.skip(j as int)[0] == p);
                    assert(s@.skip(j as int).drop_first() =~= s@.skip(j + 1));
                    j = j + 1;
                    if ('a' <= p && p <= 'z') || ('A' <= p && p <= 'Z') || p == '~' {
                        break;
                    }
                }
                proof {
                    if j == n {
                        assert(s@.skip(j as int) =~= Seq::<char>::empty());
                    }
                }
                i = j;
            } else if i + 1 < n && s[i + 1] == ']' {
                let mut j = i + 2;
                assert(rest.drop_first().drop_first() =~= s@.skip(j as int));
                while j < n
                    invariant_except_break
                        i + 2 <= j <= n,
                        n == s@.len(),
                        skip_osc(s@.skip(i + 2)) == skip_osc(s@.skip(j as int)),
                    ensures
                        i + 2 <= j <= n,
                        skip_osc(s@.skip(i + 2)) == s@.skip(j as int),
                    decreases n - j,
                {
                    let p = s[j];
                    assert(s@.skip(j as int)[0] == p);
                    assert(s@.skip(j as int).drop_first() =~= s@.skip(j + 1));
                    j = j + 1;
                    if p == '\u{7}' {
                        break;
                    }
                    if p == '\u{1b}' {
                        if j < n {
                            assert(s@.skip(j - 1).skip(2) =~= s@.skip(j + 1));
                            j = j + 1;
                        }
                        break;
                    }
                }
                proof {
                    if j == n {
                        assert(s@.skip(j as int) =~= Seq::<char>::empty());
                    }
                }
                i = j;
            } else {
                i = i + 1;
            }
        } else if is_kept_char(c) {
            let ghost before = out@;
            push_char(&mut out, c);
            assert(out@ + sanitize_spec(s@.skip(i + 1)) =~= before + (seq![c] + sanitize_spec(
                rest.drop_first(),
            )));
            i = i + 1;
        } else {
            i = i + 1;
        }
    }
    assert(s@.skip(i as int) =~= Seq::<char>::empty());
    assert(out@ + Seq::<char>::empty() =~= out@);
    out
}

} // verus!

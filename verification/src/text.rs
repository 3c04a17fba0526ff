//! Character-level helpers shared by the parsers and renderers: the
//! characters of a string, UTF-8 encoding, whitespace trimming and
//! searching.
use vstd::prelude::*;
use vstd::utf8::*;

verus! {

broadcast use vstd::utf8::group_utf8_lib;

/// The characters of `s`, in order.
pub fn str_chars(s: &str) -> (v: Vec<char>)
    ensures
        v@ == s@,
{
    let mut v: Vec<char> = Vec::new();
    for c in it: s.chars()
        invariant
            v@ == it.seq().take(it.index() as int),
            it.seq() == s@,
    {
        v.push(c);
    }
    v
}

/// Appends one character to a string (`String::push`).
#[verifier::external_body]
pub(crate) fn push_char(s: &mut String, c: char)
    ensures
        final(s)@ == old(s)@.push(c),
{
    s.push(c);
}

/// `String::from_utf8`: the decoded text when `bytes` is valid UTF-8.
#[verifier::external_body]
pub(crate) fn utf8_string(bytes: Vec<u8>) -> (r: Option<String>)
    ensures
        r is Some <==> valid_utf8(bytes@),
        r matches Some(s) ==> s@ == decode_utf8(bytes@),
{
    String::from_utf8(bytes).ok()
}

/// A string holding the characters `chars[from..to]`.
pub fn string_from_chars(chars: &Vec<char>, from: usize, to: usize) -> (s: String)
    requires
        from <= to <= chars@.len(),
    ensures
        s@ == chars@.subrange(from as int, to as int),
{
    let mut s = String::new();
    let mut i = from;
    while i < to
        invariant
            from <= i <= to <= chars@.len(),
            s@ == chars@.subrange(from as int, i as int),
        decreases to - i,
    {
        push_char(&mut s, chars[i]);
        i = i + 1;
        assert(s@ =~= chars@.subrange(from as int, i as int));
    }
    s
}

/// Appends `t` to `s`.
pub fn push_str(s: &mut String, t: &str)
    ensures
        final(s)@ == old(s)@ + t@,
{
    s.append(t);
}

/// The UTF-8 encoding of one character, appended to `out`.
pub fn push_utf8(out: &mut Vec<u8>, c: char)
    ensures
        final(out)@ == old(out)@ + encode_scalar(c as u32),
{
    let v = c as u32;
    if v <= 0x7F {
        out.push((v & 0x7F) as u8);
    } else if v <= 0x7FF {
        out.push(0xC0 | ((v >> 6) & 0x1F) as u8);
        out.push(0x80 | (v & 0x3F) as u8);
    } else if v <= 0xFFFF {
        out.push(0xE0 | ((v >> 12) & 0x0F) as u8);
        out.push(0x80 | ((v >> 6) & 0x3F) as u8);
        out.push(0x80 | (v & 0x3F) as u8);
    } else {
        out.push(0xF0 | ((v >> 18) & 0x7) as u8);
        out.push(0x80 | ((v >> 12) & 0x3F) as u8);
        out.push(0x80 | ((v >> 6) & 0x3F) as u8);
        out.push(0x80 | (v & 0x3F) as u8);
    }
    assert(final(out)@ =~= old(out)@ + encode_scalar(c as u32));
}

/// Encoding a sequence extended by one character appends that character's encoding.
pub proof fn lemma_encode_utf8_push(s: Seq<char>, c: char)
    ensures
        encode_utf8(s.push(c)) == encode_utf8(s) + encode_scalar(c as u32),
    decreases s.len(),
{
    if s.len() == 0 {
        assert(s.push(c).drop_first() =~= Seq::<char>::empty());
        assert(encode_utf8(Seq::<char>::empty()) =~= Seq::<u8>::empty());
        assert(encode_utf8(s.push(c)) =~= encode_scalar(c as u32));
        assert(encode_utf8(s) =~= Seq::<u8>::empty());
    } else {
        lemma_encode_utf8_push(s.drop_first(), c);
        assert(s.push(c).drop_first() =~= s.drop_first().push(c));
        assert(encode_utf8(s.push(c)) =~= encode_scalar(s[0] as u32) + encode_utf8(
            s.drop_first().push(c),
        ));
    }
}

/// The UTF-8 encoding of `chars[from..to]`.
pub fn encode_chars(chars: &Vec<char>, from: usize, to: usize) -> (out: Vec<u8>)
    requires
        from <= to <= chars@.len(),
    ensures
        out@ == encode_utf8(chars@.subrange(from as int, to as int)),
{
    let mut out: Vec<u8> = Vec::new();
    let mut i = from;
    assert(chars@.subrange(from as int, from as int) =~= Seq::<char>::empty());
    assert(encode_utf8(Seq::<char>::empty()) =~= Seq::<u8>::empty());
    while i < to
        invariant
            from <= i <= to <= chars@.len(),
            out@ == encode_utf8(chars@.subrange(from as int, i as int)),
        decreases to - i,
    {
        proof {
            lemma_encode_utf8_push(chars@.subrange(from as int, i as int), chars@[i as int]);
            assert(chars@.subrange(from as int, i as int).push(chars@[i as int])
                =~= chars@.subrange(from as int, i + 1));
        }
        push_utf8(&mut out, chars[i]);
        i = i + 1;
    }
    out
}

/// Unicode `White_Space` (the characters for which `char::is_whitespace` holds).
pub open spec fn is_ws(c: char) -> bool {
    ||| ('\u{9}' <= c && c <= '\u{d}')
    ||| c == ' '
    ||| c == '\u{85}'
    ||| c == '\u{a0}'
    ||| c == '\u{1680}'
    ||| ('\u{2000}' <= c && c <= '\u{200a}')
    ||| c == '\u{2028}'
    ||| c == '\u{2029}'
    ||| c == '\u{202f}'
    ||| c == '\u{205f}'
    ||| c == '\u{3000}'
}

/// `char::is_whitespace`.
pub fn is_whitespace(c: char) -> (b: bool)
    ensures
        b == is_ws(c),
{
    ('\u{9}' <= c && c <= '\u{d}') || c == ' ' || c == '\u{85}' || c == '\u{a0}' || c
        == '\u{1680}' || ('\u{2000}' <= c && c <= '\u{200a}') || c == '\u{2028}' || c
        == '\u{2029}' || c == '\u{202f}' || c == '\u{205f}' || c == '\u{3000}'
}

/// `s` without its leading whitespace (`str::trim_start`).
pub open spec fn trim_start(s: Seq<char>) -> Seq<char>
    decreases s.len(),
{
    if s.len() > 0 && is_ws(s[0]) {
        trim_start(s.drop_first())
    } else {
        s
    }
}

/// `s` without its trailing whitespace (`str::trim_end`).
pub open spec fn trim_end(s: Seq<char>) -> Seq<char>
    decreases s.len(),
{
    if s.len() > 0 && is_ws(s.last()) {
        trim_end(s.drop_last())
    } else {
        s
    }
}

/// `str::trim`.
pub open spec fn trim(s: Seq<char>) -> Seq<char> {
    trim_end(trim_start(s))
}

/// The index at which `trim_start(s[from..])` begins.
pub fn skip_ws(s: &Vec<char>, from: usize, to: usize) -> (k: usize)
    requires
        from <= to <= s@.len(),
    ensures
        from <= k <= to,
        trim_start(s@.subrange(from as int, to as int)) == s@.subrange(k as int, to as int),
{
    let mut k = from;
    while k < to && is_whitespace(s[k])
        invariant
            from <= k <= to <= s@.len(),
            trim_start(s@.subrange(from as int, to as int)) == trim_start(
                s@.subrange(k as int, to as int),
            ),
        decreases to - k,
    {
        assert(s@.subrange(k as int, to as int).drop_first() =~= s@.subrange(k + 1, to as int));
        k = k + 1;
    }
    k
}

/// The index at which `trim_end(s[from..to])` ends.
pub fn skip_ws_back(s: &Vec<char>, from: usize, to: usize) -> (k: usize)
    requires
        from <= to <= s@.len(),
    ensures
        from <= k <= to,
        trim_end(s@.subrange(from as int, to as int)) == s@.subrange(from as int, k as int),
{
    let mut k = to;
    while k > from && is_whitespace(s[k - 1])
        invariant
            from <= k <= to <= s@.len(),
            trim_end(s@.subrange(from as int, to as int)) == trim_end(
                s@.subrange(from as int, k as int),
            ),
        decreases k - from,
    {
        assert(s@.subrange(from as int, k as int).drop_last() =~= s@.subrange(
            from as int,
            k - 1,
        ));
        k = k - 1;
    }
    k
}

/// `s.trim()`, owned.
pub fn trim_string(s: &str) -> (r: String)
    ensures
        r@ == trim(s@),
{
    let c = str_chars(s);
    let a = skip_ws(&c, 0, c.len());
    let b = skip_ws_back(&c, a, c.len());
    assert(c@.subrange(0, c@.len() as int) =~= c@);
    string_from_chars(&c, a, b)
}

/// `s.trim_end()`, owned.
pub fn trim_end_string(s: &str) -> (r: String)
    ensures
        r@ == trim_end(s@),
{
    let c = str_chars(s);
    let b = skip_ws_back(&c, 0, c.len());
    assert(c@.subrange(0, c@.len() as int) =~= c@);
    string_from_chars(&c, 0, b)
}

/// Whether two strings are equal.
pub fn str_eq(a: &str, b: &str) -> (r: bool)
    ensures
        r == (a@ == b@),
{
    let x = str_chars(a);
    let y = str_chars(b);
    if x.len() != y.len() {
        return false;
    }
    let mut i: usize = 0;
    while i < x.len()
        invariant
            i <= x@.len(),
            x@.len() == y@.len(),
            x@ == a@,
            y@ == b@,
            forall|j: int| 0 <= j < i ==> x@[j] == y@[j],
        decreases x@.len() - i,
    {
        if x[i] != y[i] {
            assert(x@[i as int] != y@[i as int]);
            return false;
        }
        i = i + 1;
    }
    assert(x@ =~= y@);
    true
}

/// What `str::to_uppercase` returns for `s` (Unicode case mapping).
pub uninterp spec fn upper(s: Seq<char>) -> Seq<char>;

/// What `str::to_lowercase` returns for `s` (Unicode case mapping).
pub uninterp spec fn lower(s: Seq<char>) -> Seq<char>;

/// `str::to_uppercase`.
#[verifier::external_body]
pub(crate) fn to_uppercase(s: &str) -> (r: String)
    ensures
        r@ == upper(s@),
{
    s.to_uppercase()
}

/// `str::to_lowercase`.
#[verifier::external_body]
pub(crate) fn to_lowercase(s: &str) -> (r: String)
    ensures
        r@ == lower(s@),
{
    s.to_lowercase()
}

/// The first index of `c` in `s`, if any (`str::find` with a `char`).
pub open spec fn find_char(s: Seq<char>, c: char) -> Option<int>
    decreases s.len(),
{
    if s.len() == 0 {
        None
    } else if s[0] == c {
        Some(0)
    } else {
        match find_char(s.drop_first(), c) {
            Some(i) => Some(i + 1),
            None => None,
        }
    }
}

/// What `find_char` returns is an index of `c`.
pub proof fn lemma_find_char_range(s: Seq<char>, c: char)
    ensures
        find_char(s, c) matches Some(i) ==> 0 <= i < s.len() && s[i] == c,
    decreases s.len(),
{
    if s.len() > 0 && s[0] != c {
        lemma_find_char_range(s.drop_first(), c);
    }
}

/// `find_char` is the least index holding `c`.
pub proof fn lemma_find_char(s: Seq<char>, c: char, k: int)
    requires
        0 <= k <= s.len(),
        k < s.len() ==> s[k] == c,
        forall|j: int| 0 <= j < k ==> s[j] != c,
    ensures
        find_char(s, c) == (if k < s.len() {
            Some(k)
        } else {
            None::<int>
        }),
    decreases s.len(),
{
    if s.len() > 0 && k > 0 {
        assert forall|j: int| 0 <= j < k - 1 implies s.drop_first()[j] != c by {
            assert(s.drop_first()[j] == s[j + 1]);
        }
        lemma_find_char(s.drop_first(), c, k - 1);
    }
}

/// Whether `s[from..to]` holds `c`, and where first.
pub fn find_char_in(s: &Vec<char>, from: usize, to: usize, c: char) -> (r: Option<usize>)
    requires
        from <= to <= s@.len(),
    ensures
        match r {
            Some(k) => from <= k < to && find_char(s@.subrange(from as int, to as int), c) == Some(
                k - from,
            ),
            None => find_char(s@.subrange(from as int, to as int), c) is None,
        },
{
    let mut k = from;
    while k < to
        invariant
            from <= k <= to <= s@.len(),
            forall|j: int| from <= j < k ==> s@[j] != c,
        decreases to - k,
    {
        if s[k] == c {
            proof {
                lemma_find_char(s@.subrange(from as int, to as int), c, k - from);
            }
            return Some(k);
        }
        k = k + 1;
    }
    proof {
        lemma_find_char(s@.subrange(from as int, to as int), c, to - from);
    }
    None
}

/// Whether `s` begins with `p`.
pub open spec fn starts_with(s: Seq<char>, p: Seq<char>) -> bool {
    p.len() <= s.len() && s.subrange(0, p.len() as int) == p
}

/// Whether `s[from..to]` begins with `p`.
pub fn has_prefix(s: &Vec<char>, from: usize, to: usize, p: &Vec<char>) -> (b: bool)
    requires
        from <= to <= s@.len(),
    ensures
        b == starts_with(s@.subrange(from as int, to as int), p@),
{
    if p.len() > to - from {
        return false;
    }
    let mut i: usize = 0;
    while i < p.len()
        invariant
            p@.len() <= to - from,
            from <= to <= s@.len(),
            i <= p@.len(),
            forall|j: int| 0 <= j < i ==> s@[from + j] == p@[j],
        decreases p@.len() - i,
    {
        if s[from + i] != p[i] {
            assert(s@.subrange(from as int, to as int).subrange(0, p@.len() as int)[i as int]
                != p@[i as int]);
            return false;
        }
        i = i + 1;
    }
    assert(s@.subrange(from as int, to as int).subrange(0, p@.len() as int) =~= p@);
    true
}

/// A line without a `\r` that stood before its `\n`.
pub open spec fn strip_cr(l: Seq<char>) -> Seq<char> {
    if l.len() > 0 && l.last() == '\r' {
        l.drop_last()
    } else {
        l
    }
}

/// `str::lines`: split at `\n` or `\r\n`; a final line ending adds no empty line.
pub open spec fn lines(s: Seq<char>) -> Seq<Seq<char>>
    decreases s.len(),
{
    if s.len() == 0 {
        seq![]
    } else {
        match find_char(s, '\n') {
            Some(i) => {
                proof {
                    lemma_find_char_range(s, '\n');
                }
                seq![strip_cr(s.take(i))] + lines(s.skip(i + 1))
            },
            None => seq![s],
        }
    }
}

/// `s.lines()`, collected.
pub fn split_lines(s: &str) -> (r: Vec<String>)
    ensures
        strings_view(r@) == lines(s@),
{
    let c = str_chars(s);
    let mut out: Vec<String> = Vec::new();
    let mut start: usize = 0;
    assert(c@.skip(0) =~= c@);
    while start < c.len()
        invariant
            start <= c@.len(),
            c@ == s@,
            strings_view(out@) + lines(c@.skip(start as int)) == lines(c@),
        decreases c@.len() - start,
    {
        let ghost rest = c@.skip(start as int);
        assert(rest =~= c@.subrange(start as int, c@.len() as int));
        let (le, next) = match find_char_in(&c, start, c.len(), '\n') {
            Some(k) => {
                let le = if k > start && c[k - 1] == '\r' {
                    k - 1
                } else {
                    k
                };
                assert(strip_cr(rest.take(k - start)) =~= c@.subrange(start as int, le as int));
                assert(rest.skip(k - start + 1) =~= c@.skip(k + 1));
                (le, k + 1)
            },
            None => (c.len(), c.len()),
        };
        let ghost line = c@.subrange(start as int, le as int);
        assert(lines(rest) =~= seq![line] + lines(c@.skip(next as int))) by {
            if next == c@.len() && le == c@.len() && find_char(rest, '\n') is None {
                assert(c@.skip(next as int) =~= Seq::<char>::empty());
                assert(lines(c@.skip(next as int)) =~= Seq::<Seq<char>>::empty());
            }
        }
        let l = string_from_chars(&c, start, le);
        let ghost before = strings_view(out@);
        out.push(l);
        assert(strings_view(out@) =~= before.push(line));
        assert(before.push(line) + lines(c@.skip(next as int)) =~= before + (seq![line] + lines(
            c@.skip(next as int),
        )));
        start = next;
    }
    assert(c@.skip(start as int) =~= Seq::<char>::empty());
    assert(lines(c@.skip(start as int)) =~= Seq::<Seq<char>>::empty());
    assert(strings_view(out@) + Seq::<Seq<char>>::empty() =~= strings_view(out@));
    out
}

/// The first index at which `p` occurs in `s` (`str::find` with a `&str`).
pub open spec fn find_str(s: Seq<char>, p: Seq<char>) -> Option<int>
    decreases s.len(),
{
    if starts_with(s, p) {
        Some(0)
    } else if s.len() == 0 {
        None
    } else {
        match find_str(s.drop_first(), p) {
            Some(i) => Some(i + 1),
            None => None,
        }
    }
}

/// What `find_str` returns is an index at which `p` occurs.
pub proof fn lemma_find_str_range(s: Seq<char>, p: Seq<char>)
    ensures
        find_str(s, p) matches Some(i) ==> 0 <= i <= s.len() && starts_with(s.skip(i), p),
    decreases s.len(),
{
    assert(s.skip(0) =~= s);
    if !starts_with(s, p) && s.len() > 0 {
        lemma_find_str_range(s.drop_first(), p);
        if let Some(i) = find_str(s.drop_first(), p) {
            assert(s.drop_first().skip(i) =~= s.skip(i + 1));
        }
    }
}

/// `find_str` is the least index at which `p` occurs.
pub proof fn lemma_find_str(s: Seq<char>, p: Seq<char>, k: int)
    requires
        0 <= k <= s.len(),
        k < s.len() ==> starts_with(s.skip(k), p),
        k == s.len() ==> !starts_with(s.skip(k), p),
        forall|j: int| 0 <= j < k ==> !starts_with(#[trigger] s.skip(j), p),
    ensures
        find_str(s, p) == (if k < s.len() {
            Some(k)
        } else {
            None::<int>
        }),
    decreases s.len(),
{
    assert(s.skip(0) =~= s);
    if s.len() > 0 && k > 0 {
        assert forall|j: int| 0 <= j < k - 1 implies !starts_with(
            #[trigger] s.drop_first().skip(j),
            p,
        ) by {
            assert(s.drop_first().skip(j) =~= s.skip(j + 1));
        }
        assert(s.drop_first().skip(k - 1) =~= s.skip(k));
        lemma_find_str(s.drop_first(), p, k - 1);
    } else if s.len() == 0 {
        assert(s.skip(k) =~= s);
    }
}

/// Where `p` first occurs within `s[from..to]`.
pub fn find_str_in(s: &Vec<char>, from: usize, to: usize, p: &Vec<char>) -> (r: Option<usize>)
    requires
        from <= to <= s@.len(),
    ensures
        match r {
            Some(k) => from <= k <= to && find_str(s@.subrange(from as int, to as int), p@) == Some(
                k - from,
            ),
            None => find_str(s@.subrange(from as int, to as int), p@) is None,
        },
{
    let ghost t = s@.subrange(from as int, to as int);
    let mut k = from;
    loop
        invariant
            from <= k <= to <= s@.len(),
            t == s@.subrange(from as int, to as int),
            forall|j: int| 0 <= j < k - from ==> !starts_with(#[trigger] t.skip(j), p@),
        decreases to - k,
    {
        assert(t.skip(k - from) =~= s@.subrange(k as int, to as int));
        if has_prefix(s, k, to, p) {
            proof {
                if k == to {
                    // `p` is empty: it occurs at the end of `t` only if nowhere before.
                    lemma_find_str_empty(t, p@);
                    if k > from {
                        assert(t.skip(0) =~= t);
                        assert(t.subrange(0, 0) =~= p@);
                        assert(starts_with(t.skip(0), p@));
                    }
                } else {
                    lemma_find_str(t, p@, k - from);
                }
            }
            return Some(k);
        }
        if k == to {
            proof {
                lemma_find_str(t, p@, k - from);
            }
            return None;
        }
        k = k + 1;
    }
}

/// An empty pattern occurs at index 0.
proof fn lemma_find_str_empty(t: Seq<char>, p: Seq<char>)
    requires
        starts_with(t.skip(t.len() as int), p),
    ensures
        find_str(t, p) == Some(0int),
{
    assert(p.len() == 0);
    assert(t.subrange(0, 0) =~= p);
}

/// Whether `p` occurs in `s` (`str::contains` with a `&str`).
pub open spec fn contains_str(s: Seq<char>, p: Seq<char>) -> bool {
    find_str(s, p) is Some
}

/// `str::contains` with a `&str` pattern.
pub fn str_contains(s: &str, p: &str) -> (b: bool)
    ensures
        b == contains_str(s@, p@),
{
    let c = str_chars(s);
    let pc = str_chars(p);
    assert(c@.subrange(0, c@.len() as int) =~= c@);
    find_str_in(&c, 0, c.len(), &pc).is_some()
}

/// `r` before each character of `s` and once more at the end: what
/// `str::replace` makes of the empty pattern.
pub open spec fn interleave(s: Seq<char>, r: Seq<char>) -> Seq<char>
    decreases s.len(),
{
    if s.len() == 0 {
        r
    } else {
        r + seq![s[0]] + interleave(s.drop_first(), r)
    }
}

/// Every non-overlapping occurrence of `p` in `s`, from the left, replaced
/// by `r` (`str::replace` with a `&str` pattern); the empty pattern occurs
/// before every character and at the end.
pub open spec fn replace_all(s: Seq<char>, p: Seq<char>, r: Seq<char>) -> Seq<char>
    decreases s.len(),
{
    if p.len() == 0 {
        interleave(s, r)
    } else {
        match find_str(s, p) {
            Some(i) => {
                proof {
                    lemma_find_str_range(s, p);
                }
                s.take(i) + r + replace_all(s.skip(i + p.len()), p, r)
            },
            None => s,
        }
    }
}

/// `s.replace(p, r)`.
pub fn replace_str(s: &str, p: &str, r: &str) -> (out: String)
    ensures
        out@ == replace_all(s@, p@, r@),
{
    let c = str_chars(s);
    let pc = str_chars(p);
    let mut out = String::new();
    if pc.len() == 0 {
        let mut i: usize = 0;
        assert(c@.skip(0) =~= c@);
        while i < c.len()
            invariant
                i <= c@.len(),
                c@ == s@,
                out@ + interleave(c@.skip(i as int), r@) == interleave(c@, r@),
            decreases c@.len() - i,
        {
            assert(c@.skip(i as int).drop_first() =~= c@.skip(i + 1));
            let ghost before = out@;
            push_str(&mut out, r);
            push_char(&mut out, c[i]);
            assert(before + interleave(c@.skip(i as int), r@) =~= out@ + interleave(
                c@.skip(i + 1),
                r@,
            ));
            i = i + 1;
        }
        assert(c@.skip(i as int) =~= Seq::<char>::empty());
        push_str(&mut out, r);
        return out;
    }
    let mut start: usize = 0;
    assert(c@.skip(0) =~= c@);
    loop
        invariant
            start <= c@.len(),
            c@ == s@,
            pc@ == p@,
            p@.len() > 0,
            out@ + replace_all(c@.skip(start as int), p@, r@) == replace_all(c@, p@, r@),
        decreases c@.len() - start,
    {
        let ghost rest = c@.skip(start as int);
        assert(rest =~= c@.subrange(start as int, c@.len() as int));
        match find_str_in(&c, start, c.len(), &pc) {
            Some(k) => {
                proof {
                    lemma_find_str_range(rest, p@);
                }
                let ghost i = k - start;
                assert(rest.take(i) =~= c@.subrange(start as int, k as int));
                assert(rest.skip(i + p@.len()) =~= c@.skip(k + pc@.len()));
                let piece = string_from_chars(&c, start, k);
                let ghost before = out@;
                push_str(&mut out, piece.as_str());
                push_str(&mut out, r);
                assert(before + replace_all(rest, p@, r@) =~= out@ + replace_all(
                    c@.skip(k + pc@.len()),
                    p@,
                    r@,
                ));
                start = k + pc.len();
            },
            None => {
                let piece = string_from_chars(&c, start, c.len());
                push_str(&mut out, piece.as_str());
                return out;
            },
        }
    }
}

/// The decimal digit character for `d` in `0..10`.
pub open spec fn digit_char(d: int) -> char {
    (48 + d) as char
}

/// The decimal representation of `n` (`u64`'s `Display`): no sign, no
/// leading zeros.
pub open spec fn decimal(n: nat) -> Seq<char>
    decreases n,
{
    if n < 10 {
        seq![digit_char(n as int)]
    } else {
        decimal(n / 10).push(digit_char((n % 10) as int))
    }
}

/// The decimal representation of `n`.
pub fn decimal_string(n: u64) -> (s: String)
    ensures
        s@ == decimal(n as nat),
    decreases n,
{
    if n < 10 {
        let mut s = String::new();
        push_char(&mut s, ((48 + n) as u8) as char);
        s
    } else {
        let mut s = decimal_string(n / 10);
        push_char(&mut s, ((48 + n % 10) as u8) as char);
        s
    }
}

/// The strings of `xs` with `sep` between each two (`[String]::join`).
pub open spec fn join(xs: Seq<Seq<char>>, sep: Seq<char>) -> Seq<char>
    decreases xs.len(),
{
    if xs.len() == 0 {
        seq![]
    } else if xs.len() == 1 {
        xs[0]
    } else {
        join(xs.drop_last(), sep) + sep + xs.last()
    }
}

/// The views of a sequence of strings.
pub open spec fn strings_view(xs: Seq<String>) -> Seq<Seq<char>> {
    xs.map_values(|s: String| s@)
}

/// `xs.join(sep)`.
pub fn join_strings(xs: &Vec<String>, sep: &str) -> (s: String)
    ensures
        s@ == join(strings_view(xs@), sep@),
{
    let ghost v = strings_view(xs@);
    let mut s = String::new();
    let mut i: usize = 0;
    assert(v.take(0) =~= Seq::<Seq<char>>::empty());
    while i < xs.len()
        invariant
            i <= xs@.len(),
            v == strings_view(xs@),
            s@ == join(v.take(i as int), sep@),
        decreases xs@.len() - i,
    {
        assert(v.take(i + 1).drop_last() =~= v.take(i as int));
        assert(v[i as int] == xs@[i as int]@);
        if i > 0 {
            push_str(&mut s, sep);
        } else {
            assert(v.take(1) =~= seq![v[0]]);
        }
        push_str(&mut s, xs[i].as_str());
        i = i + 1;
    }
    assert(v.take(i as int) =~= v);
    s
}

} // verus!

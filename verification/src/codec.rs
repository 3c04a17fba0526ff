//! Text encodings used throughout: lower-case hex (`hex`), standard base64
//! with padding (`base64`), SHA3-256 (`sha3`) and HTML text escaping
//! (`html_escape`). Each outside call stands behind one function here.
use base64::Engine;
use sha3::Digest;
use vstd::prelude::*;

verus! {

/// The lower-case hex digit for `n` in `0..16`.
pub open spec fn hex_digit(n: int) -> char {
    if n < 10 {
        (48 + n) as char
    } else {
        (87 + n) as char
    }
}

/// Lower-case hex: two digits per byte, high nibble first.
pub open spec fn hex_lower(d: Seq<u8>) -> Seq<char>
    decreases d.len(),
{
    if d.len() == 0 {
        seq![]
    } else {
        seq![hex_digit((d[0] as int) / 16), hex_digit((d[0] as int) % 16)] + hex_lower(d.drop_first())
    }
}

/// `hex::encode`: lower-case hex, two digits per byte, high nibble first.
#[verifier::external_body]
pub(crate) fn hex_encode(data: &[u8]) -> (s: String)
    ensures
        s@ == hex_lower(data@),
{
    hex::encode(data)
}

/// The character of the standard base64 alphabet for `v` in `0..64`.
pub open spec fn b64_char(v: int) -> char {
    if v < 26 {
        (65 + v) as char
    } else if v < 52 {
        (71 + v) as char
    } else if v < 62 {
        (v - 4) as char
    } else if v == 62 {
        '+'
    } else {
        '/'
    }
}

/// Standard base64 (RFC 4648 alphabet) with `=` padding.
pub open spec fn base64_std(d: Seq<u8>) -> Seq<char>
    decreases d.len(),
{
    if d.len() == 0 {
        seq![]
    } else if d.len() == 1 {
        seq![b64_char((d[0] as int) / 4), b64_char(((d[0] as int) % 4) * 16), '=', '=']
    } else if d.len() == 2 {
        seq![
            b64_char((d[0] as int) / 4),
            b64_char(((d[0] as int) % 4) * 16 + (d[1] as int) / 16),
            b64_char(((d[1] as int) % 16) * 4),
            '=',
        ]
    } else {
        seq![
            b64_char((d[0] as int) / 4),
            b64_char(((d[0] as int) % 4) * 16 + (d[1] as int) / 16),
            b64_char(((d[1] as int) % 16) * 4 + (d[2] as int) / 64),
            b64_char((d[2] as int) % 64),
        ] + base64_std(d.skip(3))
    }
}

/// `base64::engine::general_purpose::STANDARD.encode`.
#[verifier::external_body]
pub(crate) fn base64_encode(data: &[u8]) -> (s: String)
    ensures
        s@ == base64_std(data@),
{
    base64::engine::general_purpose::STANDARD.encode(data)
}

/// A character that can appear in standard base64 output.
pub open spec fn is_base64_char(c: char) -> bool {
    ('A' <= c && c <= 'Z') || ('a' <= c && c <= 'z') || ('0' <= c && c <= '9') || c == '+' || c
        == '/' || c == '='
}

/// Base64 output is made of the base64 alphabet and `=` only; in particular it
/// holds no `<` or `>` and so cannot open or close a markup tag.
pub proof fn lemma_base64_alphabet(d: Seq<u8>)
    ensures
        forall|i: int|
            0 <= i < base64_std(d).len() ==> is_base64_char(#[trigger] base64_std(d)[i]),
    decreases d.len(),
{
    if d.len() > 2 {
        lemma_base64_alphabet(d.skip(3));
        let head = seq![
            b64_char((d[0] as int) / 4),
            b64_char(((d[0] as int) % 4) * 16 + (d[1] as int) / 16),
            b64_char(((d[1] as int) % 16) * 4 + (d[2] as int) / 64),
            b64_char((d[2] as int) % 64),
        ];
        assert forall|i: int| 0 <= i < base64_std(d).len() implies is_base64_char(
            #[trigger] base64_std(d)[i],
        ) by {
            if i >= 4 {
                assert(base64_std(d)[i] == base64_std(d.skip(3))[i - 4]);
            }
        }
    }
}

/// The SHA3-256 digest of `data`.
pub uninterp spec fn sha3_256(data: Seq<u8>) -> Seq<u8>;

/// `sha3::Sha3_256` over `data`: the digest depends on the bytes alone.
#[verifier::external_body]
pub(crate) fn sha3_256_of(data: &[u8]) -> (h: [u8; 32])
    ensures
        h@ == sha3_256(data@),
{
    let mut hasher = sha3::Sha3_256::new();
    hasher.update(data);
    hasher.finalize().into()
}

/// What `html_escape::encode_text` writes for one character.
pub open spec fn html_text_char(c: char) -> Seq<char> {
    if c == '&' {
        "&amp;"@
    } else if c == '<' {
        "&lt;"@
    } else if c == '>' {
        "&gt;"@
    } else {
        seq![c]
    }
}

/// `html_escape::encode_text`: `&`, `<` and `>` become entities.
pub open spec fn html_text(s: Seq<char>) -> Seq<char>
    decreases s.len(),
{
    if s.len() == 0 {
        seq![]
    } else {
        html_text_char(s[0]) + html_text(s.drop_first())
    }
}

/// `html_escape::encode_text`.
#[verifier::external_body]
pub(crate) fn html_encode_text(s: &str) -> (r: String)
    ensures
        r@ == html_text(s@),
{
    html_escape::encode_text(s).into_owned()
}

} // verus!

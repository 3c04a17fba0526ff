//! What the server answers: the report page for the current token only,
//! and the strict headers on every response.
use super::render::{render, render_spec};
use super::token::{TokenStore, is_token};
use crate::report::schema::Report;
use vstd::prelude::*;

verus! {

/// The answer to a request for the report that carries `tok`: the page when
/// `tok` is the current token, which it then replaces; `None` (served as
/// 403 Forbidden) otherwise, with the token left as it was.
pub fn report_page(tokens: &mut TokenStore, report: &Report, tok: &str) -> (r: Option<String>)
    ensures
        r is Some == (tok@ == old(tokens).token()),
        r matches Some(p) ==> p@ == render_spec(*report),
        r is Some ==> is_token(final(tokens).token()),
        r is None ==> final(tokens).token() == old(tokens).token(),
{
    if !tokens.check_and_rotate(tok) {
        return None;
    }
    Some(render(report))
}

/// The Content-Security-Policy: nothing but inline style and local images,
/// no script, no framing.
pub const CONTENT_SECURITY_POLICY: &'static str = "default-src 'none'; style-src 'self' 'unsafe-inline'; img-src 'self' data:; script-src 'none'; frame-ancestors 'none';";

/// The headers set on every response, by name and value.
pub open spec fn security_headers_spec() -> Seq<(Seq<char>, Seq<char>)> {
    seq![
        ("content-security-policy"@, CONTENT_SECURITY_POLICY@),
        ("cross-origin-resource-policy"@, "same-origin"@),
        ("cross-origin-opener-policy"@, "same-origin"@),
        ("x-frame-options"@, "DENY"@),
        ("x-content-type-options"@, "nosniff"@),
        ("referrer-policy"@, "no-referrer"@),
        ("cache-control"@, "no-store, max-age=0"@),
    ]
}

/// The headers set on every response, in the order they are set.
pub fn security_header_list() -> (v: Vec<(&'static str, &'static str)>)
    ensures
        v@.map_values(|h: (&'static str, &'static str)| (h.0@, h.1@)) == security_headers_spec(),
{
    let v = vec![
        ("content-security-policy", CONTENT_SECURITY_POLICY),
        ("cross-origin-resource-policy", "same-origin"),
        ("cross-origin-opener-policy", "same-origin"),
        ("x-frame-options", "DENY"),
        ("x-content-type-options", "nosniff"),
        ("referrer-policy", "no-referrer"),
        ("cache-control", "no-store, max-age=0"),
    ];
    assert(v@.map_values(|h: (&'static str, &'static str)| (h.0@, h.1@)) =~= security_headers_spec());
    v
}

} // verus!

//! The decisions of the transparent proxy hop: which headers cross it, where
//! a request goes, and how the backend base URL is normalised.
use vstd::prelude::*;

use crate::text::{concat, from_chars, str_eq, to_chars};

verus! {

/// `char::to_ascii_lowercase`.
pub open spec fn ascii_lower(c: char) -> u32 {
    let u = c as u32;
    if 0x41 <= u && u <= 0x5A {
        (u + 32) as u32
    } else {
        u
    }
}

/// `str::eq_ignore_ascii_case`.
pub open spec fn same_ignoring_ascii_case(a: Seq<char>, b: Seq<char>) -> bool {
    a.len() == b.len() && forall|i: int| 0 <= i < a.len() ==> ascii_lower(#[trigger] a[i]) == ascii_lower(b[i])
}

/// Headers that are connection-specific and must not be forwarded across a
/// proxy hop (RFC 9110, section 7.6.1), plus `host`, which the client sets for the
/// backend.
pub open spec fn hop_by_hop_names() -> Seq<Seq<char>> {
    seq![
        "connection"@,
        "keep-alive"@,
        "proxy-authenticate"@,
        "proxy-authorization"@,
        "te"@,
        "trailer"@,
        "transfer-encoding"@,
        "upgrade"@,
        "host"@,
    ]
}

/// The header name is one of the hop-by-hop names, ignoring ASCII case.
pub open spec fn hop_by_hop(name: Seq<char>) -> bool {
    exists|i: int| 0 <= i < hop_by_hop_names().len() && same_ignoring_ascii_case(name, #[trigger] hop_by_hop_names()[i])
}

fn eq_ignore_ascii_case(a: &[char], b: &[char]) -> (r: bool)
    ensures
        r == same_ignoring_ascii_case(a@, b@),
{
    if a.len() != b.len() {
        return false;
    }
    let mut i: usize = 0;
    while i < a.len()
        invariant
            a.len() == b.len(),
            i <= a.len(),
            forall|j: int| 0 <= j < i ==> ascii_lower(#[trigger] a@[j]) == ascii_lower(b@[j]),
        decreases a.len() - i,
    {
        let x = a[i] as u32;
        let y = b[i] as u32;
        let lx = if 0x41 <= x && x <= 0x5A { x + 32 } else { x };
        let ly = if 0x41 <= y && y <= 0x5A { y + 32 } else { y };
        if lx != ly {
            return false;
        }
        i = i + 1;
    }
    true
}

/// Whether a header is hop-by-hop and must not cross the proxy.
pub fn is_hop_by_hop(name: &str) -> (r: bool)
    ensures
        r == hop_by_hop(name@),
{
    let n = to_chars(name);
    let names: [&str; 9] = [
        "connection",
        "keep-alive",
        "proxy-authenticate",
        "proxy-authorization",
        "te",
        "trailer",
        "transfer-encoding",
        "upgrade",
        "host",
    ];
    let mut i: usize = 0;
    while i < 9
        invariant
            i <= 9,
            n@ == name@,
            forall|k: int| 0 <= k < 9 ==> #[trigger] names@[k]@ == hop_by_hop_names()[k],
            forall|k: int| 0 <= k < i ==> !same_ignoring_ascii_case(name@, #[trigger] hop_by_hop_names()[k]),
        decreases 9 - i,
    {
        let h = to_chars(names[i]);
        if eq_ignore_ascii_case(n.as_slice(), h.as_slice()) {
            return true;
        }
        i = i + 1;
    }
    false
}

/// Whether a client header is copied onto the backend request: every header
/// but the hop-by-hop ones.
pub fn forward_request_header(name: &str) -> (r: bool)
    ensures
        r == !hop_by_hop(name@),
{
    !is_hop_by_hop(name)
}

/// Whether a backend response header is relayed to the client: every header
/// but the hop-by-hop ones and `content-length` (the body is re-streamed and
/// the server sets its own framing).
pub fn relay_response_header(name: &str) -> (r: bool)
    ensures
        r == !(hop_by_hop(name@) || same_ignoring_ascii_case(name@, "content-length"@)),
{
    if is_hop_by_hop(name) {
        return false;
    }
    let n = to_chars(name);
    let cl = to_chars("content-length");
    !eq_ignore_ascii_case(n.as_slice(), cl.as_slice())
}

/// `s` without its trailing `/` characters (`str::trim_end_matches('/')`).
pub open spec fn without_trailing_slashes(s: Seq<char>) -> Seq<char>
    decreases s.len(),
{
    if s.len() > 0 && s.last() == '/' {
        without_trailing_slashes(s.drop_last())
    } else {
        s
    }
}

/// The backend base URL with any trailing slash removed.
pub fn normalize_backend(backend: &str) -> (r: String)
    ensures
        r@ == without_trailing_slashes(backend@),
{
    let s = to_chars(backend);
    let mut j: usize = s.len();
    assert(s@.take(s.len() as int) =~= s@);
    while j > 0 && s[j - 1] == '/'
        invariant
            j <= s.len(),
            without_trailing_slashes(s@) == without_trailing_slashes(s@.take(j as int)),
        decreases j,
    {
        assert(s@.take(j as int).drop_last() =~= s@.take(j - 1));
        j = j - 1;
    }
    let kept = crate::text::slice_of(s.as_slice(), 0, j);
    assert(kept@ =~= s@.take(j as int));
    from_chars(kept.as_slice())
}

/// The URL a request is forwarded to: the backend base URL followed by the
/// request's path and query (`/` when it has none).
pub open spec fn target_url(backend: Seq<char>, path_and_query: Option<Seq<char>>) -> Seq<char> {
    match path_and_query {
        Some(pq) => backend + pq,
        None => backend + "/"@,
    }
}

/// The URL a request is forwarded to.
pub fn proxy_target(backend: &str, path_and_query: Option<&str>) -> (r: String)
    ensures
        r@ == target_url(backend@, path_and_query.deep_view()),
{
    let b = to_chars(backend);
    let pq = match path_and_query {
        Some(p) => to_chars(p),
        None => to_chars("/"),
    };
    from_chars(concat(b.as_slice(), pq.as_slice()).as_slice())
}

/// The hop-by-hop set is exactly these nine names, ignoring ASCII case:
/// `connection`, `keep-alive`, `proxy-authenticate`, `proxy-authorization`,
/// `te`, `trailer`, `transfer-encoding`, `upgrade` and `host`. Every other
/// client header (`authorization`, `content-type`, ...) is forwarded, and every
/// other backend header but `content-length` is relayed.
pub proof fn law_hop_by_hop_set(name: Seq<char>)
    ensures
        hop_by_hop(name) <==> {
            ||| same_ignoring_ascii_case(name, "connection"@)
            ||| same_ignoring_ascii_case(name, "keep-alive"@)
            ||| same_ignoring_ascii_case(name, "proxy-authenticate"@)
            ||| same_ignoring_ascii_case(name, "proxy-authorization"@)
            ||| same_ignoring_ascii_case(name, "te"@)
            ||| same_ignoring_ascii_case(name, "trailer"@)
            ||| same_ignoring_ascii_case(name, "transfer-encoding"@)
            ||| same_ignoring_ascii_case(name, "upgrade"@)
            ||| same_ignoring_ascii_case(name, "host"@)
        },
{
    let hs = hop_by_hop_names();
    assert(hs.len() == 9);
    assert(hs[0] == "connection"@);
    assert(hs[1] == "keep-alive"@);
    assert(hs[2] == "proxy-authenticate"@);
    assert(hs[3] == "proxy-authorization"@);
    assert(hs[4] == "te"@);
    assert(hs[5] == "trailer"@);
    assert(hs[6] == "transfer-encoding"@);
    assert(hs[7] == "upgrade"@);
    assert(hs[8] == "host"@);
}

/// `c` with an ASCII capital letter replaced by its small letter.
pub open spec fn small_letter(c: char) -> char {
    if 'A' <= c && c <= 'Z' {
        ((c as u32) + 32) as char
    } else {
        c
    }
}

/// Header names are matched without regard to ASCII case: a name is
/// hop-by-hop exactly when its all-small-letter spelling is.
pub proof fn law_hop_by_hop_ignores_case(name: Seq<char>)
    ensures
        hop_by_hop(name) == hop_by_hop(name.map_values(|c: char| small_letter(c))),
{
    let low = name.map_values(|c: char| small_letter(c));
    assert forall|i: int| 0 <= i < name.len() implies ascii_lower(#[trigger] low[i]) == ascii_lower(
        name[i],
    ) by {
        let c = name[i];
        if 'A' <= c && c <= 'Z' {
            assert(0x41 <= (c as u32) <= 0x5A);
            assert((((c as u32) + 32) as char) as u32 == (c as u32) + 32);
        }
    }
    let hs = hop_by_hop_names();
    assert forall|k: int| 0 <= k < hs.len() implies same_ignoring_ascii_case(name, #[trigger] hs[k])
        == same_ignoring_ascii_case(low, hs[k]) by {
        if same_ignoring_ascii_case(name, hs[k]) {
            assert forall|i: int| 0 <= i < low.len() implies ascii_lower(#[trigger] low[i])
                == ascii_lower(hs[k][i]) by {
                assert(ascii_lower(name[i]) == ascii_lower(hs[k][i]));
            }
        }
        if same_ignoring_ascii_case(low, hs[k]) {
            assert forall|i: int| 0 <= i < name.len() implies ascii_lower(#[trigger] name[i])
                == ascii_lower(hs[k][i]) by {
                assert(ascii_lower(low[i]) == ascii_lower(hs[k][i]));
            }
        }
    }
}

/// The endpoint whose requests go through the guardrail loop.
pub open spec fn chat_completions_path() -> Seq<char> {
    "/v1/chat/completions"@
}

/// Whether a request goes through the guardrail loop: a `POST` whose URI path
/// (without the query) is the chat-completions endpoint. Every other request
/// passes through unchanged.
pub fn guarded_route(is_post: bool, path: &str) -> (r: bool)
    ensures
        r == (is_post && path@ == chat_completions_path()),
{
    is_post && str_eq(path, "/v1/chat/completions")
}

/// Whether a backend reply is handed to the guardrail loop: a success status
/// (`2xx`). Any other reply is relayed to the client as it came.
pub fn judged_status(status: u16) -> (r: bool)
    ensures
        r == (200 <= status && status < 300),
{
    200 <= status && status < 300
}

} // verus!

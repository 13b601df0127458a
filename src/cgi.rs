//! The bridge to the version-control CGI backend: the environment it is run
//! with, and how the header block of its output becomes a response head.

use vstd::prelude::*;

use crate::text::{concat, find, opt_text, owned, str_eq, to_chars, from_chars, slice_from, slice_to, chars_find};

verus! {

/// Whether a character has the Unicode `White_Space` property.
pub uninterp spec fn unicode_white_space(c: char) -> bool;

/// Relies on `char::is_whitespace`: whether `c` has the Unicode `White_Space`
/// property, which space, tab, line feed and carriage return have.
#[verifier::external_body]
fn is_whitespace(c: char) -> (r: bool)
    ensures
        r == unicode_white_space(c),
        (c == ' ' || c == '\t' || c == '\n' || c == '\r') ==> r,
{
    c.is_whitespace()
}

/// The variables, in order, that the CGI backend runs with, and nothing else.
pub open spec fn backend_env(root: Seq<char>, tail: Seq<char>, method: Seq<char>, query: Seq<char>, remote: Option<Seq<char>>, content_type: Option<Seq<char>>) -> Seq<(Seq<char>, Seq<char>)> {
    let head = seq![
        ("GIT_PROJECT_ROOT"@, root),
        ("PATH_INFO"@, seq!['/'] + tail),
        ("REQUEST_METHOD"@, method),
        ("QUERY_STRING"@, query),
        ("REMOTE_USER"@, Seq::<char>::empty()),
        ("REMOTE_ADDR"@, match remote {
            Some(ip) => ip,
            None => "127.0.0.1"@,
        }),
    ];
    let with_type = match content_type {
        Some(t) => head.push(("CONTENT_TYPE"@, t)),
        None => head,
    };
    with_type.push(("GIT_HTTP_EXPORT_ALL"@, "true"@))
}

/// The view of a list of string pairs.
pub open spec fn pairs_view(v: Seq<(String, String)>) -> Seq<(Seq<char>, Seq<char>)> {
    v.map_values(|p: (String, String)| (p.0@, p.1@))
}

/// The environment of the CGI backend for a request below `/git/index/`:
/// the index root, the path below it, the method, the query, an empty remote
/// user, the client's address (`127.0.0.1` when unknown), the content type
/// when given, and export of every repository.
pub fn git_backend_env(root: &str, tail: &str, method: &str, query: &str, remote: Option<&str>, content_type: Option<&str>) -> (r: Vec<(String, String)>)
    ensures
        pairs_view(r@) == backend_env(root@, tail@, method@, query@, opt_text(remote), opt_text(content_type)),
{
    let mut r: Vec<(String, String)> = Vec::new();
    r.push((owned("GIT_PROJECT_ROOT"), owned(root)));
    r.push((owned("PATH_INFO"), concat("/", tail)));
    r.push((owned("REQUEST_METHOD"), owned(method)));
    r.push((owned("QUERY_STRING"), owned(query)));
    r.push((owned("REMOTE_USER"), String::new()));
    let addr = match remote {
        Some(ip) => owned(ip),
        None => owned("127.0.0.1"),
    };
    r.push((owned("REMOTE_ADDR"), addr));
    match content_type {
        Some(t) => r.push((owned("CONTENT_TYPE"), owned(t))),
        None => {},
    }
    r.push((owned("GIT_HTTP_EXPORT_ALL"), owned("true")));
    proof {
        reveal_strlit("/");
        assert("/"@ =~= seq!['/']);
    }
    assert(pairs_view(r@) =~= backend_env(root@, tail@, method@, query@, opt_text(remote), opt_text(content_type)));
    r
}

/// `s` without its trailing white space.
pub open spec fn trim_end_of(s: Seq<char>) -> Seq<char>
    decreases s.len(),
{
    if s.len() > 0 && unicode_white_space(s.last()) {
        trim_end_of(s.drop_last())
    } else {
        s
    }
}

/// One line of the backend's header block.
#[derive(Debug, Clone, PartialEq, Eq)]
pub enum HeaderLine {
    /// The blank line that ends the block.
    End,
    /// A `Key: Value` line.
    Header { key: String, value: String },
    /// A line of neither shape.
    Other,
}

/// `: `, what separates a header's key from its value.
pub open spec fn header_sep() -> Seq<char> {
    seq![':', ' ']
}

/// What a line of the header block is, once its trailing white space is
/// dropped: blank, `Key: Value` cut at the first `: `, or neither.
pub open spec fn header_line_of(line: Seq<char>) -> Option<Option<(Seq<char>, Seq<char>)>> {
    let t = trim_end_of(line);
    if t.len() == 0 {
        None
    } else {
        match find(t, header_sep()) {
            Some(i) => Some(Some((t.take(i as int), t.skip((i + 2) as int)))),
            None => Some(None),
        }
    }
}

/// What a line of the header block is.
pub fn parse_header_line(line: &str) -> (r: HeaderLine)
    ensures
        header_line_of(line@) is None <==> r is End,
        header_line_of(line@) == Some(Option::<(Seq<char>, Seq<char>)>::None) <==> r is Other,
        r matches HeaderLine::Header { key, value } ==> header_line_of(line@) == Some(Some((key@, value@))),
{
    let cs = to_chars(line);
    let mut n: usize = cs.len();
    assert(cs@.take(n as int) =~= cs@);
    while n > 0 && is_whitespace(cs[n - 1])
        invariant
            n <= cs.len(),
            cs@ == line@,
            trim_end_of(line@) == trim_end_of(cs@.take(n as int)),
        decreases n,
    {
        assert(cs@.take(n as int).drop_last() =~= cs@.take(n - 1));
        n = n - 1;
    }
    let t = slice_to(&cs, n);
    assert(trim_end_of(t@) == t@);
    if t.len() == 0 {
        return HeaderLine::End;
    }
    let sep: Vec<char> = vec![':', ' '];
    assert(sep@ =~= header_sep());
    match chars_find(t.as_slice(), sep.as_slice()) {
        Some(i) => {
            proof {
                crate::text::lemma_find_fits(t@, header_sep(), 0);
            }
            let key = from_chars(slice_to(&t, i).as_slice());
            let value = from_chars(slice_from(&t, i + 2).as_slice());
            HeaderLine::Header { key, value }
        },
        None => HeaderLine::Other,
    }
}

/// The first position at or after `i` whose key is `k`.
pub open spec fn key_index_from(v: Seq<(Seq<char>, Seq<char>)>, k: Seq<char>, i: nat) -> Option<nat>
    decreases v.len() - i,
{
    if i >= v.len() {
        None
    } else if v[i as int].0 == k {
        Some(i)
    } else {
        key_index_from(v, k, i + 1)
    }
}

/// The headers with `k` set to `val`: the first entry of that key updated,
/// else a new entry at the end.
pub open spec fn with_key(v: Seq<(Seq<char>, Seq<char>)>, k: Seq<char>, val: Seq<char>) -> Seq<(Seq<char>, Seq<char>)> {
    match key_index_from(v, k, 0) {
        Some(i) => v.update(i as int, (k, val)),
        None => v.push((k, val)),
    }
}

/// Sets header `key` to `value` among the headers collected so far; a later
/// value of a key replaces the earlier one.
pub fn record_header(headers: &mut Vec<(String, String)>, key: String, value: String)
    ensures
        pairs_view(final(headers)@) == with_key(pairs_view(old(headers)@), key@, value@),
{
    let ghost hv = pairs_view(headers@);
    let mut i: usize = 0;
    while i < headers.len()
        invariant
            i <= headers.len(),
            hv == pairs_view(headers@),
            hv == pairs_view(old(headers)@),
            key_index_from(hv, key@, 0) == key_index_from(hv, key@, i as nat),
        decreases headers.len() - i,
    {
        if str_eq(headers[i].0.as_str(), key.as_str()) {
            let ghost kv = key@;
            let ghost vv = value@;
            headers.set(i, (key, value));
            assert(pairs_view(headers@) =~= hv.update(i as int, (kv, vv)));
            return;
        }
        i = i + 1;
    }
    let ghost kv = key@;
    let ghost vv = value@;
    headers.push((key, value));
    assert(pairs_view(headers@) =~= hv.push((kv, vv)));
}

/// The decimal value of an ASCII digit.
pub open spec fn digit_value(c: char) -> int {
    (c as u32) as int - 48
}

/// The status code that a `Status` value begins with: three ASCII digits,
/// the first not `0`.
pub open spec fn status_of(v: Seq<char>) -> Option<u16> {
    if v.len() >= 3 && '1' <= v[0] && v[0] <= '9' && '0' <= v[1] && v[1] <= '9' && '0' <= v[2] && v[2] <= '9' {
        Some((100 * digit_value(v[0]) + 10 * digit_value(v[1]) + digit_value(v[2])) as u16)
    } else {
        None
    }
}

/// The status code that a `Status` header's value begins with.
pub fn status_code(value: &str) -> (r: Option<u16>)
    ensures
        r == status_of(value@),
        r matches Some(c) ==> 100 <= c <= 999,
{
    let cs = to_chars(value);
    if cs.len() >= 3 && '1' <= cs[0] && cs[0] <= '9' && '0' <= cs[1] && cs[1] <= '9' && '0' <= cs[2] && cs[2] <= '9' {
        let d0 = (cs[0] as u32 - 48) as u16;
        let d1 = (cs[1] as u32 - 48) as u16;
        let d2 = (cs[2] as u32 - 48) as u16;
        Some(100 * d0 + 10 * d1 + d2)
    } else {
        None
    }
}

/// The head of the response to a CGI request.
#[derive(Debug, Clone, PartialEq, Eq)]
pub struct CgiResponseHead {
    /// The status code.
    pub status: u16,
    /// The headers, in order, without `Status`.
    pub headers: Vec<(String, String)>,
}

/// The headers other than `Status`, in order.
pub open spec fn without_status(v: Seq<(Seq<char>, Seq<char>)>) -> Seq<(Seq<char>, Seq<char>)>
    decreases v.len(),
{
    if v.len() == 0 {
        Seq::empty()
    } else if v.last().0 == "Status"@ {
        without_status(v.drop_last())
    } else {
        without_status(v.drop_last()).push(v.last())
    }
}

/// The status that the headers give: that of the last `Status` header,
/// 200 when there is none, `None` when its value has no status code.
pub open spec fn status_from_headers(v: Seq<(Seq<char>, Seq<char>)>) -> Option<u16>
    decreases v.len(),
{
    if v.len() == 0 {
        Some(200)
    } else if v.last().0 == "Status"@ {
        status_of(v.last().1)
    } else {
        status_from_headers(v.drop_last())
    }
}

/// The response head that the backend's headers give: the status that its
/// `Status` header begins with (200 without one) and every other header;
/// `None` when the `Status` value has no status code.
pub fn cgi_response_head(headers: &Vec<(String, String)>) -> (r: Option<CgiResponseHead>)
    ensures
        r is Some <==> status_from_headers(pairs_view(headers@)) is Some,
        r matches Some(h) ==> Some(h.status) == status_from_headers(pairs_view(headers@))
            && pairs_view(h.headers@) == without_status(pairs_view(headers@)),
{
    let ghost hv = pairs_view(headers@);
    let mut status: Option<u16> = Some(200);
    let mut out: Vec<(String, String)> = Vec::new();
    let mut i: usize = 0;
    assert(hv.take(0) =~= Seq::<(Seq<char>, Seq<char>)>::empty());
    assert(pairs_view(out@) =~= Seq::<(Seq<char>, Seq<char>)>::empty());
    while i < headers.len()
        invariant
            i <= headers.len(),
            hv == pairs_view(headers@),
            status == status_from_headers(hv.take(i as int)),
            pairs_view(out@) == without_status(hv.take(i as int)),
        decreases headers.len() - i,
    {
        assert(hv.take(i + 1).drop_last() =~= hv.take(i as int));
        assert(hv.take(i + 1).last() == hv[i as int]);
        if str_eq(headers[i].0.as_str(), "Status") {
            status = status_code(headers[i].1.as_str());
        } else {
            let ghost before = out@;
            out.push((headers[i].0.clone(), headers[i].1.clone()));
            assert(pairs_view(out@) =~= pairs_view(before).push(hv[i as int]));
        }
        i = i + 1;
    }
    assert(hv.take(i as int) =~= hv);
    match status {
        Some(code) => Some(CgiResponseHead { status: code, headers: out }),
        None => None,
    }
}

} // verus!

use vstd::prelude::*;
use vstd::utf8::encode_utf8;
use crate::text::{append_str, decimal, push_decimal, same_text};

verus! {

/// What a response holds, as mathematical values.
pub struct ResponseView {
    pub status_code: u16,
    pub status_text: Seq<char>,
    pub headers: Seq<(Seq<char>, Seq<char>)>,
    pub body: Seq<u8>,
}

/// An HTTP response: status, headers with unique keys, and body.
pub struct Response {
    pub body: Vec<u8>,
    pub status_code: u16,
    pub status_text: String,
    pub headers: Vec<(String, String)>,
}

pub open spec fn headers_view(hs: Seq<(String, String)>) -> Seq<(Seq<char>, Seq<char>)> {
    hs.map_values(|p: (String, String)| (p.0@, p.1@))
}

impl View for Response {
    type V = ResponseView;

    open spec fn view(&self) -> ResponseView {
        ResponseView {
            status_code: self.status_code,
            status_text: self.status_text@,
            headers: headers_view(self.headers@),
            body: self.body@,
        }
    }
}

/// The reason phrase for a status code; codes outside the table read "OK".
pub open spec fn status_text_of(code: u16) -> Seq<char> {
    if code == 200 {
        "OK"@
    } else if code == 201 {
        "Created"@
    } else if code == 204 {
        "No Content"@
    } else if code == 400 {
        "Bad Request"@
    } else if code == 401 {
        "Unauthorized"@
    } else if code == 403 {
        "Forbidden"@
    } else if code == 404 {
        "Not Found"@
    } else if code == 500 {
        "Internal Server Error"@
    } else {
        "OK"@
    }
}

/// The headers that every new response starts with, for a body of `len` bytes.
pub open spec fn default_headers(len: nat) -> Seq<(Seq<char>, Seq<char>)> {
    seq![
        ("Content-Type"@, "text/plain; charset=utf-8"@),
        ("Connection"@, "close"@),
        ("Content-Length"@, decimal(len)),
    ]
}

/// The response that `Response::new(code, body)` builds.
pub open spec fn new_view(code: u16, body: Seq<u8>) -> ResponseView {
    ResponseView {
        status_code: code,
        status_text: status_text_of(code),
        headers: default_headers(body.len()),
        body: body,
    }
}

/// The canonical response for a request that no route matches.
pub open spec fn not_found_view() -> ResponseView {
    new_view(404, "Not Found"@.map_values(|c: char| c as u8))
}

/// `hs` without the entries whose key is `k`, in order.
pub open spec fn remove_key(hs: Seq<(Seq<char>, Seq<char>)>, k: Seq<char>) -> Seq<(Seq<char>, Seq<char>)>
    decreases hs.len(),
{
    if hs.len() == 0 {
        Seq::empty()
    } else if hs.last().0 == k {
        remove_key(hs.drop_last(), k)
    } else {
        remove_key(hs.drop_last(), k).push(hs.last())
    }
}

/// `hs` with the header `k` set to `v`: any earlier entry for `k` goes.
pub open spec fn set_header(hs: Seq<(Seq<char>, Seq<char>)>, k: Seq<char>, v: Seq<char>) -> Seq<
    (Seq<char>, Seq<char>),
> {
    remove_key(hs, k).push((k, v))
}

/// The value that the last header with key `k` gives it among `hs`.
pub open spec fn lookup(hs: Seq<(Seq<char>, Seq<char>)>, k: Seq<char>) -> Option<Seq<char>>
    decreases hs.len(),
{
    if hs.len() == 0 {
        None
    } else if hs.last().0 == k {
        Some(hs.last().1)
    } else {
        lookup(hs.drop_last(), k)
    }
}

/// The number of entries with key `k` among `hs`.
pub open spec fn key_count(hs: Seq<(Seq<char>, Seq<char>)>, k: Seq<char>) -> nat
    decreases hs.len(),
{
    if hs.len() == 0 {
        0
    } else {
        key_count(hs.drop_last(), k) + if hs.last().0 == k { 1nat } else { 0nat }
    }
}

/// No two entries share a key.
pub open spec fn keys_unique(hs: Seq<(Seq<char>, Seq<char>)>) -> bool {
    forall|i: int, j: int| 0 <= i < j < hs.len() ==> hs[i].0 != hs[j].0
}

/// The header lines of the wire form, each "key: value\r\n".
pub open spec fn header_lines(hs: Seq<(Seq<char>, Seq<char>)>) -> Seq<char>
    decreases hs.len(),
{
    if hs.len() == 0 {
        Seq::empty()
    } else {
        header_lines(hs.drop_last()) + hs.last().0 + ": "@ + hs.last().1 + "\r\n"@
    }
}

/// The status line, the header lines and the empty line that ends them.
pub open spec fn head_text(r: ResponseView) -> Seq<char> {
    "HTTP/1.1 "@ + decimal(r.status_code as nat) + " "@ + r.status_text + "\r\n"@ + header_lines(
        r.headers,
    ) + "\r\n"@
}

/// The wire form with the body.
pub open spec fn wire_with_body(r: ResponseView) -> Seq<u8> {
    encode_utf8(head_text(r)) + r.body
}

/// The wire form without the body.
pub open spec fn wire_headers_only(r: ResponseView) -> Seq<u8> {
    encode_utf8(head_text(r))
}

proof fn lemma_remove_key_unique(hs: Seq<(Seq<char>, Seq<char>)>, k: Seq<char>)
    requires
        keys_unique(hs),
    ensures
        keys_unique(remove_key(hs, k)),
        forall|i: int| 0 <= i < remove_key(hs, k).len() ==> remove_key(hs, k)[i].0 != k,
        forall|i: int|
            0 <= i < remove_key(hs, k).len() ==> exists|j: int|
                0 <= j < hs.len() && hs[j] == #[trigger] remove_key(hs, k)[i],
    decreases hs.len(),
{
    if hs.len() > 0 {
        let d = hs.drop_last();
        assert(keys_unique(d));
        lemma_remove_key_unique(d, k);
        let r = remove_key(d, k);
        assert forall|i: int| 0 <= i < r.len() implies exists|j: int|
            0 <= j < hs.len() && hs[j] == #[trigger] r[i] by {
            let j = choose|j: int| 0 <= j < d.len() && d[j] == r[i];
            assert(hs[j] == r[i]);
        }
        if hs.last().0 != k {
            let r2 = r.push(hs.last());
            assert forall|i: int, j: int| 0 <= i < j < r2.len() implies r2[i].0 != r2[j].0 by {
                if j == r2.len() - 1 {
                    let jj = choose|jj: int| 0 <= jj < d.len() && d[jj] == r[i];
                    assert(hs[jj] == r[i]);
                    assert(hs[hs.len() - 1] == hs.last());
                }
            }
            assert forall|i: int| 0 <= i < r2.len() implies exists|j: int|
                0 <= j < hs.len() && hs[j] == #[trigger] r2[i] by {
                if i == r2.len() - 1 {
                    assert(hs[hs.len() - 1] == r2[i]);
                } else {
                    assert(r2[i] == r[i]);
                }
            }
        }
    }
}

proof fn lemma_remove_key_count(hs: Seq<(Seq<char>, Seq<char>)>, k: Seq<char>)
    ensures
        key_count(remove_key(hs, k), k) == 0,
    decreases hs.len(),
{
    if hs.len() > 0 {
        lemma_remove_key_count(hs.drop_last(), k);
        let r = remove_key(hs.drop_last(), k);
        if hs.last().0 != k {
            assert(r.push(hs.last()).drop_last() =~= r);
        }
    }
}

proof fn lemma_remove_key_lookup(hs: Seq<(Seq<char>, Seq<char>)>, k: Seq<char>, k2: Seq<char>)
    requires
        k2 != k,
    ensures
        lookup(remove_key(hs, k), k2) == lookup(hs, k2),
    decreases hs.len(),
{
    if hs.len() > 0 {
        lemma_remove_key_lookup(hs.drop_last(), k, k2);
        let r = remove_key(hs.drop_last(), k);
        if hs.last().0 != k {
            assert(r.push(hs.last()).drop_last() =~= r);
        }
    }
}

/// Setting a header leaves exactly one entry for its key, holding the new value,
/// and leaves every other key as it was.
pub proof fn lemma_set_header(hs: Seq<(Seq<char>, Seq<char>)>, k: Seq<char>, v: Seq<char>)
    ensures
        key_count(set_header(hs, k, v), k) == 1,
        lookup(set_header(hs, k, v), k) == Some(v),
        forall|k2: Seq<char>| k2 != k ==> lookup(set_header(hs, k, v), k2) == lookup(hs, k2),
{
    lemma_remove_key_count(hs, k);
    let r = remove_key(hs, k);
    assert(r.push((k, v)).drop_last() =~= r);
    assert forall|k2: Seq<char>| k2 != k implies lookup(set_header(hs, k, v), k2) == lookup(
        hs,
        k2,
    ) by {
        lemma_remove_key_lookup(hs, k, k2);
    }
}

/// Setting the same header twice leaves one entry for the key, with the second value.
pub proof fn lemma_set_header_twice(
    hs: Seq<(Seq<char>, Seq<char>)>,
    k: Seq<char>,
    v1: Seq<char>,
    v2: Seq<char>,
)
    ensures
        key_count(set_header(set_header(hs, k, v1), k, v2), k) == 1,
        lookup(set_header(set_header(hs, k, v1), k, v2), k) == Some(v2),
{
    lemma_set_header(set_header(hs, k, v1), k, v2);
}

/// The key order of a pushed header view.
proof fn lemma_headers_view_push(hs: Seq<(String, String)>, p: (String, String))
    ensures
        headers_view(hs.push(p)) == headers_view(hs).push((p.0@, p.1@)),
{
    assert(headers_view(hs.push(p)) =~= headers_view(hs).push((p.0@, p.1@)));
}

proof fn lemma_default_headers_unique(len: nat)
    ensures
        keys_unique(default_headers(len)),
{
    reveal_strlit("Content-Type");
    reveal_strlit("Connection");
    reveal_strlit("Content-Length");
    let hs = default_headers(len);
    assert("Content-Type"@[8] != "Connection"@[8]);
    assert("Content-Type"@[8] != "Content-Length"@[8]);
    assert("Connection"@.len() != "Content-Length"@.len());
}

/// Builds a string from a literal.
fn owned(s: &str) -> (r: String)
    ensures
        r@ == s@,
{
    s.to_owned()
}

/// Appends each byte of `b` to `out`.
fn append_bytes(out: &mut Vec<u8>, b: &Vec<u8>)
    ensures
        final(out)@ == old(out)@ + b@,
{
    let mut k: usize = 0;
    while k < b.len()
        invariant
            0 <= k <= b@.len(),
            out@ == old(out)@ + b@.subrange(0, k as int),
        decreases b@.len() - k,
    {
        out.push(b[k]);
        k = k + 1;
        assert(out@ =~= old(out)@ + b@.subrange(0, k as int));
    }
    assert(b@.subrange(0, b@.len() as int) =~= b@);
}

/// `headers` with `key` set to `value`: entries for `key` go, the new one comes last.
pub fn put_header(headers: Vec<(String, String)>, key: &str, value: &str) -> (r: Vec<(String, String)>)
    ensures
        headers_view(r@) == set_header(headers_view(headers@), key@, value@),
        keys_unique(headers_view(headers@)) ==> keys_unique(headers_view(r@)),
{
    let ghost hv = headers_view(headers@);
    let mut kept: Vec<(String, String)> = Vec::new();
    let mut j: usize = 0;
    while j < headers.len()
        invariant
            hv == headers_view(headers@),
            0 <= j <= headers@.len(),
            headers_view(kept@) == remove_key(hv.take(j as int), key@),
        decreases headers@.len() - j,
    {
        let same = same_text(headers[j].0.as_str(), key);
        proof {
            assert(hv.take(j as int + 1).drop_last() =~= hv.take(j as int));
            assert(hv.take(j as int + 1).last() == hv[j as int]);
        }
        if !same {
            let p = (headers[j].0.clone(), headers[j].1.clone());
            proof {
                lemma_headers_view_push(kept@, p);
            }
            kept.push(p);
        }
        j = j + 1;
    }
    let p = (owned(key), owned(value));
    proof {
        lemma_headers_view_push(kept@, p);
        assert(hv.take(headers@.len() as int) =~= hv);
    }
    kept.push(p);
    proof {
        if keys_unique(hv) {
            lemma_remove_key_unique(hv, key@);
            let rk = remove_key(hv, key@);
            let n = rk.push((key@, value@));
            assert forall|i: int, j: int| 0 <= i < j < n.len() implies n[i].0 != n[j].0 by {
                if j == n.len() - 1 {
                    assert(n[i] == rk[i]);
                }
            }
        }
    }
    kept
}

impl Response {
    /// Whether the header keys are pairwise distinct.
    pub open spec fn wf(&self) -> bool {
        keys_unique(self@.headers)
    }

    /// A response with the reason phrase of the code and the default headers.
    pub fn new(status_code: u16, body: Vec<u8>) -> (r: Response)
        ensures
            r@ == new_view(status_code, body@),
            r.wf(),
    {
        let status_text = if status_code == 200 {
            owned("OK")
        } else if status_code == 201 {
            owned("Created")
        } else if status_code == 204 {
            owned("No Content")
        } else if status_code == 400 {
            owned("Bad Request")
        } else if status_code == 401 {
            owned("Unauthorized")
        } else if status_code == 403 {
            owned("Forbidden")
        } else if status_code == 404 {
            owned("Not Found")
        } else if status_code == 500 {
            owned("Internal Server Error")
        } else {
            owned("OK")
        };
        let mut length = String::new();
        push_decimal(&mut length, body.len() as u64);
        let mut headers: Vec<(String, String)> = Vec::new();
        headers.push((owned("Content-Type"), owned("text/plain; charset=utf-8")));
        headers.push((owned("Connection"), owned("close")));
        headers.push((owned("Content-Length"), length));
        let r = Response { status_code, status_text, headers, body };
        proof {
            assert(headers_view(r.headers@) =~= default_headers(body@.len()));
            lemma_default_headers_unique(body@.len());
        }
        r
    }

    /// A 200 response carrying the bytes of `text`.
    pub fn text(text: &str) -> (r: Response)
        ensures
            r@ == new_view(200, encode_utf8(text@)),
            r.wf(),
    {
        Response::new(200, vstd::slice::slice_to_vec(text.as_bytes()))
    }

    /// A 200 response whose Content-Type is HTML.
    pub fn html(body: &str) -> (r: Response)
        ensures
            r@ == (ResponseView {
                headers: set_header(
                    default_headers(encode_utf8(body@).len()),
                    "Content-Type"@,
                    "text/html; charset=utf-8"@,
                ),
                ..new_view(200, encode_utf8(body@))
            }),
            r.wf(),
    {
        Response::new(200, vstd::slice::slice_to_vec(body.as_bytes())).with_header(
            "Content-Type",
            "text/html; charset=utf-8",
        )
    }

    /// The canonical 404 response, with body "Not Found".
    pub fn not_found() -> (r: Response)
        ensures
            r@ == not_found_view(),
            r.wf(),
    {
        let body: Vec<u8> = vec![78u8, 111, 116, 32, 70, 111, 117, 110, 100];
        proof {
            reveal_strlit("Not Found");
            assert(body@ =~= "Not Found"@.map_values(|c: char| c as u8));
        }
        Response::new(404, body)
    }

    /// Sets header `key` to `value`, replacing any entry with the same key.
    pub fn with_header(self, key: &str, value: &str) -> (r: Response)
        ensures
            r@ == (ResponseView { headers: set_header(self@.headers, key@, value@), ..self@ }),
            self.wf() ==> r.wf(),
    {
        let Response { body, status_code, status_text, headers } = self;
        let kept = put_header(headers, key, value);
        Response { body, status_code, status_text, headers: kept }
    }

    /// The status line and the header lines, then the empty line.
    fn head(&self) -> (r: String)
        ensures
            r@ == head_text(self@),
    {
        let mut out = owned("HTTP/1.1 ");
        push_decimal(&mut out, self.status_code as u64);
        append_str(&mut out, " ");
        append_str(&mut out, self.status_text.as_str());
        append_str(&mut out, "\r\n");
        let ghost hv = self@.headers;
        let ghost pre = out@;
        let mut j: usize = 0;
        while j < self.headers.len()
            invariant
                hv == self@.headers,
                0 <= j <= hv.len(),
                out@ == pre + header_lines(hv.take(j as int)),
            decreases hv.len() - j,
        {
            append_str(&mut out, self.headers[j].0.as_str());
            append_str(&mut out, ": ");
            append_str(&mut out, self.headers[j].1.as_str());
            append_str(&mut out, "\r\n");
            proof {
                let t = hv.take(j as int + 1);
                assert(t.drop_last() =~= hv.take(j as int));
                assert(t.last() == hv[j as int]);
                assert(out@ =~= pre + header_lines(t));
            }
            j = j + 1;
        }
        append_str(&mut out, "\r\n");
        proof {
            assert(hv.take(hv.len() as int) =~= hv);
            assert(out@ =~= head_text(self@));
        }
        out
    }

    /// The wire form: status line, header lines, empty line, then the body.
    pub fn to_http_bytes(&self) -> (r: Vec<u8>)
        ensures
            r@ == wire_with_body(self@),
    {
        let head = self.head();
        let mut out = vstd::slice::slice_to_vec(head.as_str().as_bytes());
        append_bytes(&mut out, &self.body);
        out
    }

    /// The wire form without the body; the headers, Content-Length included, stay.
    pub fn to_http_bytes_head_only(&self) -> (r: Vec<u8>)
        ensures
            r@ == wire_headers_only(self@),
    {
        let head = self.head();
        vstd::slice::slice_to_vec(head.as_str().as_bytes())
    }
}

} // verus!

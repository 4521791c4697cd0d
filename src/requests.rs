use vstd::prelude::*;
use vstd::utf8::encode_utf8;
use crate::text::{
    chars_of, lemma_skip_word_bounds, lemma_skip_ws_bounds, same_text, skip_word, skip_word_exec,
    skip_ws, skip_ws_exec, string_of, trimmed, trimmed_string,
};
use crate::response::{headers_view, keys_unique, put_header, set_header};

verus! {

/// The request methods that the server understands.
#[derive(Debug, Clone, Copy, PartialEq, Eq, Hash, Structural)]
pub enum Method {
    GET,
    POST,
    PUT,
    PATCH,
    DELETE,
    OPTIONS,
    HEAD,
}

/// The method whose token is exactly `t`.
pub open spec fn method_of(t: Seq<char>) -> Option<Method> {
    if t == "GET"@ {
        Some(Method::GET)
    } else if t == "POST"@ {
        Some(Method::POST)
    } else if t == "PUT"@ {
        Some(Method::PUT)
    } else if t == "PATCH"@ {
        Some(Method::PATCH)
    } else if t == "DELETE"@ {
        Some(Method::DELETE)
    } else if t == "OPTIONS"@ {
        Some(Method::OPTIONS)
    } else if t == "HEAD"@ {
        Some(Method::HEAD)
    } else {
        None
    }
}

/// The token of a method on the wire.
pub open spec fn method_token(m: Method) -> Seq<char> {
    match m {
        Method::GET => "GET"@,
        Method::POST => "POST"@,
        Method::PUT => "PUT"@,
        Method::PATCH => "PATCH"@,
        Method::DELETE => "DELETE"@,
        Method::OPTIONS => "OPTIONS"@,
        Method::HEAD => "HEAD"@,
    }
}

impl Method {
    /// Reads a method from its exact upper-case token.
    pub fn from_str(method: &str) -> (r: Option<Method>)
        ensures
            r == method_of(method@),
    {
        if same_text(method, "GET") {
            Some(Method::GET)
        } else if same_text(method, "POST") {
            Some(Method::POST)
        } else if same_text(method, "PUT") {
            Some(Method::PUT)
        } else if same_text(method, "PATCH") {
            Some(Method::PATCH)
        } else if same_text(method, "DELETE") {
            Some(Method::DELETE)
        } else if same_text(method, "OPTIONS") {
            Some(Method::OPTIONS)
        } else if same_text(method, "HEAD") {
            Some(Method::HEAD)
        } else {
            None
        }
    }
}

/// A parsed request: its method, its path and the bytes of its body.
#[derive(Debug, Clone)]
pub struct Request {
    pub method: Method,
    pub path: String,
    pub body: Vec<u8>,
}

impl View for Request {
    type V = (Method, Seq<char>, Seq<u8>);

    open spec fn view(&self) -> (Method, Seq<char>, Seq<u8>) {
        (self.method, self.path@, self.body@)
    }
}

/// The first index at or after `i` that holds a line feed (or the length).
pub open spec fn nl_from(s: Seq<char>, i: int) -> int
    decreases s.len() - i,
{
    if i < 0 || i >= s.len() || s[i] == '\n' {
        i
    } else {
        nl_from(s, i + 1)
    }
}

/// Where the line after the one starting at `i` starts.
pub open spec fn line_next(s: Seq<char>, i: int) -> int {
    let k = nl_from(s, i);
    if k < s.len() {
        k + 1
    } else {
        s.len() as int
    }
}

/// The line that starts at `i`, without its line ending ("\n" or "\r\n").
pub open spec fn line_at(s: Seq<char>, i: int) -> Seq<char> {
    let k = nl_from(s, i);
    if k < s.len() && k > i && s[k - 1] == '\r' {
        s.subrange(i, k - 1)
    } else {
        s.subrange(i, k)
    }
}

pub proof fn lemma_nl_from_bounds(s: Seq<char>, i: int)
    requires
        0 <= i <= s.len(),
    ensures
        i <= nl_from(s, i) <= s.len(),
        nl_from(s, i) < s.len() ==> s[nl_from(s, i)] == '\n',
        forall|k: int| i <= k < nl_from(s, i) ==> s[k] != '\n',
    decreases s.len() - i,
{
    if i < s.len() && s[i] != '\n' {
        lemma_nl_from_bounds(s, i + 1);
    }
}

/// The lines of `s` from index `i` on, as `str::lines` yields them.
pub open spec fn lines_from(s: Seq<char>, i: int) -> Seq<Seq<char>>
    decreases s.len() - i,
    via lines_from_decreases
{
    if i < 0 || i >= s.len() {
        Seq::empty()
    } else {
        seq![line_at(s, i)] + lines_from(s, line_next(s, i))
    }
}

#[via_fn]
proof fn lines_from_decreases(s: Seq<char>, i: int) {
    if 0 <= i < s.len() {
        lemma_nl_from_bounds(s, i);
    }
}

/// Where the line after the first empty line at or after `i` starts (or the length).
pub open spec fn header_end(s: Seq<char>, i: int) -> int
    decreases s.len() - i,
    via header_end_decreases
{
    if i < 0 || i >= s.len() {
        s.len() as int
    } else if line_at(s, i).len() == 0 {
        line_next(s, i)
    } else {
        header_end(s, line_next(s, i))
    }
}

#[via_fn]
proof fn header_end_decreases(s: Seq<char>, i: int) {
    if 0 <= i < s.len() {
        lemma_nl_from_bounds(s, i);
    }
}

/// The lines joined with a single line feed between each two.
pub open spec fn join_lines(ls: Seq<Seq<char>>) -> Seq<char>
    decreases ls.len(),
{
    if ls.len() == 0 {
        Seq::empty()
    } else if ls.len() == 1 {
        ls[0]
    } else {
        join_lines(ls.drop_last()) + seq!['\n'] + ls.last()
    }
}

/// The method token of a request line: its first whitespace-separated word.
pub open spec fn first_word(l: Seq<char>) -> Seq<char> {
    l.subrange(skip_ws(l, 0), skip_word(l, skip_ws(l, 0)))
}

/// Where the second word of a request line starts.
pub open spec fn second_start(l: Seq<char>) -> int {
    skip_ws(l, skip_word(l, skip_ws(l, 0)))
}

/// The path of a request line: its second whitespace-separated word.
pub open spec fn second_word(l: Seq<char>) -> Seq<char> {
    l.subrange(second_start(l), skip_word(l, second_start(l)))
}

/// Whether a request line holds at least two words.
pub open spec fn has_two_words(l: Seq<char>) -> bool {
    second_start(l) < l.len()
}

/// The request that raw text describes, if its first line names a known method and a path.
pub open spec fn parse_request(s: Seq<char>) -> Option<(Method, Seq<char>, Seq<u8>)> {
    let first = line_at(s, 0);
    if s.len() == 0 || !has_two_words(first) {
        None
    } else {
        match method_of(first_word(first)) {
            None => None,
            Some(m) => Some(
                (
                    m,
                    second_word(first),
                    encode_utf8(join_lines(lines_from(s, header_end(s, line_next(s, 0))))),
                ),
            ),
        }
    }
}

/// Text whose first line lacks a second word, or whose first word is no known method,
/// is not a request.
pub proof fn lemma_malformed_rejected(s: Seq<char>)
    requires
        !has_two_words(line_at(s, 0)) || method_of(first_word(line_at(s, 0))) is None,
    ensures
        parse_request(s) is None,
{
}

proof fn lemma_nl_from_at(s: Seq<char>, i: int, j: int)
    requires
        0 <= i <= j < s.len(),
        s[j] == '\n',
        forall|k: int| i <= k < j ==> s[k] != '\n',
    ensures
        nl_from(s, i) == j,
    decreases j - i,
{
    if i < j {
        lemma_nl_from_at(s, i + 1, j);
    }
}

/// For every method, "<METHOD> /p HTTP/1.1" followed by an empty line parses to that
/// method, the path "/p" and an empty body.
pub proof fn lemma_request_line_parses(m: Method)
    ensures
        parse_request(method_token(m) + " /p HTTP/1.1\r\n\r\n"@) == Some(
            (m, "/p"@, Seq::<u8>::empty()),
        ),
{
    let s = method_token(m) + " /p HTTP/1.1\r\n\r\n"@;
    reveal_strlit(" /p HTTP/1.1\r\n\r\n");
    reveal_strlit("/p");
    reveal_strlit(" /p HTTP/1.1");
    reveal_strlit("GET");
    reveal_strlit("POST");
    reveal_strlit("PUT");
    reveal_strlit("PATCH");
    reveal_strlit("DELETE");
    reveal_strlit("OPTIONS");
    reveal_strlit("HEAD");
    let n = method_token(m).len() as int;
    assert(3 <= n <= 7);
    assert forall|k: int| 0 <= k < n + 13 implies s[k] != '\n' by {
        if k < n {
            assert(s[k] == method_token(m)[k]);
        }
    }
    assert(s[n + 13] == '\n');
    lemma_nl_from_at(s, 0, n + 13);
    let l = line_at(s, 0);
    assert(l =~= method_token(m) + " /p HTTP/1.1"@);
    reveal_with_fuel(skip_ws, 3);
    reveal_with_fuel(skip_word, 10);
    assert(skip_ws(l, 0) == 0);
    assert(skip_word(l, 0) == n);
    assert(skip_ws(l, n as int) == n + 1);
    assert(skip_word(l, n + 1) == n + 3);
    assert(first_word(l) =~= method_token(m));
    assert(second_word(l) =~= "/p"@);
    assert(line_next(s, 0) == n + 14);
    assert(s[n + 15] == '\n');
    lemma_nl_from_at(s, n + 14, n + 15);
    assert(line_at(s, n + 14) =~= Seq::<char>::empty());
    assert(header_end(s, n + 14) == n + 16);
    assert(lines_from(s, n + 16) =~= Seq::<Seq<char>>::empty());
    assert(encode_utf8(Seq::<char>::empty()) =~= Seq::<u8>::empty());
}

/// The header that a line declares: the trimmed text before and after its first colon.
pub open spec fn header_of(l: Seq<char>) -> Option<(Seq<char>, Seq<char>)> {
    if exists|i: int| 0 <= i < l.len() && l[i] == ':' {
        let c = choose|i: int|
            0 <= i < l.len() && l[i] == ':' && forall|j: int| 0 <= j < i ==> l[j] != ':';
        Some((trimmed(l.subrange(0, c)), trimmed(l.subrange(c + 1, l.len() as int))))
    } else {
        None
    }
}

/// The index of the first line feed at or after `i`.
fn nl_exec(s: &Vec<char>, i: usize) -> (r: usize)
    requires
        i <= s@.len(),
    ensures
        r == nl_from(s@, i as int),
{
    let mut k = i;
    while k < s.len() && s[k] != '\n'
        invariant
            i <= k <= s@.len(),
            nl_from(s@, k as int) == nl_from(s@, i as int),
        decreases s@.len() - k,
    {
        k = k + 1;
    }
    k
}

/// The bounds of the line at `i` (without its ending) and where the next line starts.
fn line_bounds(s: &Vec<char>, i: usize) -> (r: (usize, usize))
    requires
        i < s@.len(),
    ensures
        i <= r.0 <= s@.len(),
        s@.subrange(i as int, r.0 as int) == line_at(s@, i as int),
        r.1 == line_next(s@, i as int),
        i < r.1 <= s@.len(),
{
    proof {
        lemma_nl_from_bounds(s@, i as int);
    }
    let k = nl_exec(s, i);
    let end = if k < s.len() && k > i && s[k - 1] == '\r' {
        k - 1
    } else {
        k
    };
    let next = if k < s.len() {
        k + 1
    } else {
        s.len()
    };
    (end, next)
}

/// A copy of `cs[a..b]`.
fn sub_chars(cs: &Vec<char>, a: usize, b: usize) -> (r: Vec<char>)
    requires
        a <= b <= cs@.len(),
    ensures
        r@ == cs@.subrange(a as int, b as int),
{
    let mut out: Vec<char> = Vec::new();
    let mut k = a;
    while k < b
        invariant
            a <= k <= b <= cs@.len(),
            out@ == cs@.subrange(a as int, k as int),
        decreases b - k,
    {
        out.push(cs[k]);
        k = k + 1;
        assert(out@ =~= cs@.subrange(a as int, k as int));
    }
    out
}

proof fn lemma_lines_from_unfold(s: Seq<char>, i: int)
    requires
        0 <= i < s.len(),
    ensures
        lines_from(s, i) == seq![line_at(s, i)] + lines_from(s, line_next(s, i)),
{
}

proof fn lemma_join_push(ls: Seq<Seq<char>>, l: Seq<char>)
    ensures
        join_lines(ls.push(l)) == if ls.len() == 0 {
            l
        } else {
            join_lines(ls) + seq!['\n'] + l
        },
{
    assert(ls.push(l).drop_last() =~= ls);
}

impl Request {
    /// Parses raw request text.
    ///
    /// The first line must hold a known method token and a path; the header lines
    /// up to the first empty line are skipped; the remaining lines, joined with a
    /// line feed, form the body.
    pub fn from_raw(raw: &str) -> (r: Option<Request>)
        ensures
            match r {
                None => parse_request(raw@) is None,
                Some(req) => parse_request(raw@) == Some(req@),
            },
    {
        let cs = chars_of(raw);
        let ghost s = cs@;
        if cs.len() == 0 {
            return None;
        }
        let (end0, next0) = line_bounds(&cs, 0);
        let first = sub_chars(&cs, 0, end0);
        let ghost l = first@;
        proof {
            lemma_skip_ws_bounds(l, 0);
            lemma_skip_word_bounds(l, skip_ws(l, 0));
            lemma_skip_ws_bounds(l, skip_word(l, skip_ws(l, 0)));
            lemma_skip_word_bounds(l, second_start(l));
        }
        let a = skip_ws_exec(&first, 0);
        let b = skip_word_exec(&first, a);
        let c = skip_ws_exec(&first, b);
        let d = skip_word_exec(&first, c);
        if c >= first.len() {
            return None;
        }
        let token = string_of(&first, a, b);
        let method = match Method::from_str(token.as_str()) {
            None => {
                return None;
            },
            Some(m) => m,
        };
        let path = string_of(&first, c, d);
        // skip the header lines
        let mut i = next0;
        let mut found = false;
        while !found && i < cs.len()
            invariant
                s == cs@,
                0 < cs@.len(),
                next0 <= i <= cs@.len(),
                !found ==> header_end(s, i as int) == header_end(s, next0 as int),
                found ==> i == header_end(s, next0 as int),
            decreases cs@.len() - i,
        {
            let (e, n) = line_bounds(&cs, i);
            if e == i {
                found = true;
            }
            i = n;
        }
        // join the remaining lines
        let start = i;
        let ghost done: Seq<Seq<char>> = Seq::empty();
        let mut body_text = String::new();
        while i < cs.len()
            invariant
                s == cs@,
                start <= i <= cs@.len(),
                lines_from(s, start as int) == done + lines_from(s, i as int),
                body_text@ == join_lines(done),
                done.len() == 0 <==> i == start,
            decreases cs@.len() - i,
        {
            let (e, n) = line_bounds(&cs, i);
            let piece = sub_chars(&cs, i, e);
            proof {
                lemma_lines_from_unfold(s, i as int);
                lemma_join_push(done, piece@);
                assert(done.push(piece@) + lines_from(s, n as int) =~= done + lines_from(s, i as int));
            }
            if i > start {
                proof {
                    reveal_strlit("\n");
                }
                crate::text::append_str(&mut body_text, "\n");
            }
            crate::text::append_chars(&mut body_text, &piece);
            proof {
                done = done.push(piece@);
            }
            i = n;
        }
        let body = vstd::slice::slice_to_vec(body_text.as_str().as_bytes());
        Some(Request { method, path, body })
    }
}

/// The header of one line, as the parser reads it.
pub fn parse_header_line(line: &str) -> (r: Option<(String, String)>)
    ensures
        match r {
            None => header_of(line@) is None,
            Some(p) => header_of(line@) == Some((p.0@, p.1@)),
        },
{
    let cs = chars_of(line);
    let mut c: usize = 0;
    while c < cs.len() && cs[c] != ':'
        invariant
            0 <= c <= cs@.len(),
            forall|j: int| 0 <= j < c ==> cs@[j] != ':',
        decreases cs@.len() - c,
    {
        c = c + 1;
    }
    if c == cs.len() {
        return None;
    }
    let key_part = sub_chars(&cs, 0, c);
    let value_part = sub_chars(&cs, c + 1, cs.len());
    let key = trimmed_string(&key_part);
    let value = trimmed_string(&value_part);
    proof {
        let l = cs@;
        assert(0 <= c < l.len() && l[c as int] == ':');
        let d = choose|i: int|
            0 <= i < l.len() && l[i] == ':' && forall|j: int| 0 <= j < i ==> l[j] != ':';
        assert(d == c);
    }
    Some((key, value))
}

/// The headers declared from the line at `i` up to the first empty line, applied to `acc`
/// in order; a later entry for a key replaces an earlier one.
pub open spec fn fold_headers(
    s: Seq<char>,
    i: int,
    acc: Seq<(Seq<char>, Seq<char>)>,
) -> Seq<(Seq<char>, Seq<char>)>
    decreases s.len() - i,
    via fold_headers_decreases
{
    if i < 0 || i >= s.len() || line_at(s, i).len() == 0 {
        acc
    } else {
        fold_headers(
            s,
            line_next(s, i),
            match header_of(line_at(s, i)) {
                Some(h) => set_header(acc, h.0, h.1),
                None => acc,
            },
        )
    }
}

#[via_fn]
proof fn fold_headers_decreases(s: Seq<char>, i: int, acc: Seq<(Seq<char>, Seq<char>)>) {
    if 0 <= i < s.len() {
        lemma_nl_from_bounds(s, i);
    }
}

/// The headers of raw request text: those of the lines after the first one, up to the
/// first empty line; lines without a colon are skipped.
pub fn headers_of(raw: &str) -> (r: Vec<(String, String)>)
    ensures
        raw@.len() == 0 ==> r@.len() == 0,
        raw@.len() > 0 ==> headers_view(r@) == fold_headers(raw@, line_next(raw@, 0), Seq::empty()),
        keys_unique(headers_view(r@)),
{
    let cs = chars_of(raw);
    let ghost s = cs@;
    let mut acc: Vec<(String, String)> = Vec::new();
    if cs.len() == 0 {
        assert(headers_view(acc@) =~= Seq::empty());
        return acc;
    }
    let (_e0, next0) = line_bounds(&cs, 0);
    let mut i = next0;
    proof {
        assert(headers_view(acc@) =~= Seq::empty());
    }
    let mut stop = false;
    while !stop && i < cs.len()
        invariant
            s == cs@,
            0 < cs@.len(),
            0 <= i <= cs@.len(),
            keys_unique(headers_view(acc@)),
            fold_headers(s, i as int, headers_view(acc@)) == fold_headers(
                s,
                next0 as int,
                Seq::empty(),
            ),
            stop ==> fold_headers(s, i as int, headers_view(acc@)) == headers_view(acc@),
        decreases cs@.len() - i, if stop { 0int } else { 1int },
    {
        let (e, n) = line_bounds(&cs, i);
        if e == i {
            stop = true;
        } else {
            let line = string_of(&cs, i, e);
            match parse_header_line(line.as_str()) {
                Some((k, v)) => {
                    acc = put_header(acc, k.as_str(), v.as_str());
                },
                None => {},
            }
            i = n;
        }
    }
    acc
}

} // verus!

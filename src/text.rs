use vstd::prelude::*;

verus! {

/// The characters that `char::is_whitespace` accepts (Unicode White_Space).
pub open spec fn is_ws(c: char) -> bool {
    c == '\t' || c == '\n' || c == '\x0B' || c == '\x0C' || c == '\r' || c == ' '
        || c == '\u{85}' || c == '\u{A0}' || c == '\u{1680}'
        || ('\u{2000}' <= c && c <= '\u{200A}') || c == '\u{2028}' || c == '\u{2029}'
        || c == '\u{202F}' || c == '\u{205F}' || c == '\u{3000}'
}

pub fn is_whitespace(c: char) -> (r: bool)
    ensures
        r == is_ws(c),
{
    c == '\t' || c == '\n' || c == '\x0B' || c == '\x0C' || c == '\r' || c == ' '
        || c == '\u{85}' || c == '\u{A0}' || c == '\u{1680}'
        || ('\u{2000}' <= c && c <= '\u{200A}') || c == '\u{2028}' || c == '\u{2029}'
        || c == '\u{202F}' || c == '\u{205F}' || c == '\u{3000}'
}

/// The first index at or after `i` that does not hold whitespace (or the length).
pub open spec fn skip_ws(s: Seq<char>, i: int) -> int
    decreases s.len() - i,
{
    if i < 0 || i >= s.len() || !is_ws(s[i]) {
        i
    } else {
        skip_ws(s, i + 1)
    }
}

/// The first index at or after `i` that holds whitespace (or the length).
pub open spec fn skip_word(s: Seq<char>, i: int) -> int
    decreases s.len() - i,
{
    if i < 0 || i >= s.len() || is_ws(s[i]) {
        i
    } else {
        skip_word(s, i + 1)
    }
}

/// The index just past the last non-whitespace character before `j`.
pub open spec fn trim_back(s: Seq<char>, j: int) -> int
    decreases j,
{
    if j <= 0 || j > s.len() || !is_ws(s[j - 1]) {
        j
    } else {
        trim_back(s, j - 1)
    }
}

/// `s` without leading and trailing whitespace, as `str::trim` gives it.
pub open spec fn trimmed(s: Seq<char>) -> Seq<char> {
    let a = skip_ws(s, 0);
    let b = trim_back(s, s.len() as int);
    if a >= b {
        Seq::empty()
    } else {
        s.subrange(a, b)
    }
}

pub proof fn lemma_skip_ws_bounds(s: Seq<char>, i: int)
    requires
        0 <= i <= s.len(),
    ensures
        i <= skip_ws(s, i) <= s.len(),
        skip_ws(s, i) < s.len() ==> !is_ws(s[skip_ws(s, i)]),
        forall|k: int| i <= k < skip_ws(s, i) ==> is_ws(s[k]),
    decreases s.len() - i,
{
    if i < s.len() && is_ws(s[i]) {
        lemma_skip_ws_bounds(s, i + 1);
    }
}

pub proof fn lemma_skip_word_bounds(s: Seq<char>, i: int)
    requires
        0 <= i <= s.len(),
    ensures
        i <= skip_word(s, i) <= s.len(),
        skip_word(s, i) < s.len() ==> is_ws(s[skip_word(s, i)]),
        forall|k: int| i <= k < skip_word(s, i) ==> !is_ws(s[k]),
    decreases s.len() - i,
{
    if i < s.len() && !is_ws(s[i]) {
        lemma_skip_word_bounds(s, i + 1);
    }
}

pub proof fn lemma_trim_back_bounds(s: Seq<char>, j: int)
    requires
        0 <= j <= s.len(),
    ensures
        0 <= trim_back(s, j) <= j,
    decreases j,
{
    if j > 0 && is_ws(s[j - 1]) {
        lemma_trim_back_bounds(s, j - 1);
    }
}

/// Index of the first whitespace-free position from `i` in `s`.
pub fn skip_ws_exec(s: &Vec<char>, i: usize) -> (r: usize)
    requires
        i <= s@.len(),
    ensures
        r == skip_ws(s@, i as int),
{
    let mut k = i;
    while k < s.len() && is_whitespace(s[k])
        invariant
            i <= k <= s@.len(),
            skip_ws(s@, k as int) == skip_ws(s@, i as int),
        decreases s@.len() - k,
    {
        k = k + 1;
    }
    k
}

/// Index of the first whitespace position from `i` in `s`.
pub fn skip_word_exec(s: &Vec<char>, i: usize) -> (r: usize)
    requires
        i <= s@.len(),
    ensures
        r == skip_word(s@, i as int),
{
    let mut k = i;
    while k < s.len() && !is_whitespace(s[k])
        invariant
            i <= k <= s@.len(),
            skip_word(s@, k as int) == skip_word(s@, i as int),
        decreases s@.len() - k,
    {
        k = k + 1;
    }
    k
}

/// Index just past the last non-whitespace character before `j`.
pub fn trim_back_exec(s: &Vec<char>, j: usize) -> (r: usize)
    requires
        j <= s@.len(),
    ensures
        r == trim_back(s@, j as int),
{
    let mut k = j;
    while k > 0 && is_whitespace(s[k - 1])
        invariant
            0 <= k <= j <= s@.len(),
            trim_back(s@, k as int) == trim_back(s@, j as int),
        decreases k,
    {
        k = k - 1;
    }
    k
}

/// `cs` without leading and trailing whitespace.
pub fn trimmed_string(cs: &Vec<char>) -> (r: String)
    ensures
        r@ == trimmed(cs@),
{
    proof {
        lemma_skip_ws_bounds(cs@, 0);
        lemma_trim_back_bounds(cs@, cs@.len() as int);
    }
    let a = skip_ws_exec(cs, 0);
    let b = trim_back_exec(cs, cs.len());
    if a >= b {
        String::new()
    } else {
        string_of(cs, a, b)
    }
}

/// The characters of a string, in order.
pub fn chars_of(s: &str) -> (r: Vec<char>)
    ensures
        r@ == s@,
{
    let mut out: Vec<char> = Vec::new();
    for c in it: s.chars()
        invariant
            out@ == it.seq().take(it.index() as int),
    {
        out.push(c);
    }
    out
}

/// Relies on `String::push`: appends one character.
#[verifier::external_body]
fn push_char(s: &mut String, c: char)
    ensures
        final(s)@ == old(s)@.push(c),
{
    s.push(c);
}

/// A string holding `cs[a..b]`.
pub fn string_of(cs: &Vec<char>, a: usize, b: usize) -> (r: String)
    requires
        a <= b <= cs@.len(),
    ensures
        r@ == cs@.subrange(a as int, b as int),
{
    let mut out = String::new();
    let mut k = a;
    while k < b
        invariant
            a <= k <= b <= cs@.len(),
            out@ == cs@.subrange(a as int, k as int),
        decreases b - k,
    {
        push_char(&mut out, cs[k]);
        k = k + 1;
        assert(out@ =~= cs@.subrange(a as int, k as int));
    }
    out
}

/// Appends `cs` to `s`.
pub fn append_chars(s: &mut String, cs: &Vec<char>)
    ensures
        final(s)@ == old(s)@ + cs@,
{
    let mut k: usize = 0;
    while k < cs.len()
        invariant
            0 <= k <= cs@.len(),
            s@ == old(s)@ + cs@.subrange(0, k as int),
        decreases cs@.len() - k,
    {
        push_char(s, cs[k]);
        k = k + 1;
        assert(s@ =~= old(s)@ + cs@.subrange(0, k as int));
    }
    assert(cs@.subrange(0, cs@.len() as int) =~= cs@);
}

/// Appends the characters of `t` to `s`.
pub fn append_str(s: &mut String, t: &str)
    ensures
        final(s)@ == old(s)@ + t@,
{
    let cs = chars_of(t);
    append_chars(s, &cs);
}

/// Whether two strings hold the same characters.
pub fn same_text(a: &str, b: &str) -> (r: bool)
    ensures
        r == (a@ == b@),
{
    let x = chars_of(a);
    let y = chars_of(b);
    if x.len() != y.len() {
        return false;
    }
    let mut k: usize = 0;
    while k < x.len()
        invariant
            x@ == a@,
            y@ == b@,
            x@.len() == y@.len(),
            0 <= k <= x@.len(),
            forall|j: int| 0 <= j < k ==> x@[j] == y@[j],
        decreases x@.len() - k,
    {
        if x[k] != y[k] {
            assert(x@[k as int] != y@[k as int]);
            return false;
        }
        k = k + 1;
    }
    assert(x@ =~= y@);
    true
}

/// The decimal digits of `n`, most significant first, without leading zeros.
pub open spec fn decimal(n: nat) -> Seq<char>
    decreases n,
{
    if n < 10 {
        seq![digit_char(n)]
    } else {
        decimal(n / 10).push(digit_char(n % 10))
    }
}

pub open spec fn digit_char(d: nat) -> char {
    if d == 0 { '0' }
    else if d == 1 { '1' }
    else if d == 2 { '2' }
    else if d == 3 { '3' }
    else if d == 4 { '4' }
    else if d == 5 { '5' }
    else if d == 6 { '6' }
    else if d == 7 { '7' }
    else if d == 8 { '8' }
    else { '9' }
}

fn digit(d: u64) -> (c: char)
    requires
        d < 10,
    ensures
        c == digit_char(d as nat),
{
    if d == 0 { '0' }
    else if d == 1 { '1' }
    else if d == 2 { '2' }
    else if d == 3 { '3' }
    else if d == 4 { '4' }
    else if d == 5 { '5' }
    else if d == 6 { '6' }
    else if d == 7 { '7' }
    else if d == 8 { '8' }
    else { '9' }
}

/// Appends the decimal form of `n` to `s`.
pub fn push_decimal(s: &mut String, n: u64)
    ensures
        final(s)@ == old(s)@ + decimal(n as nat),
    decreases n,
{
    if n < 10 {
        push_char(s, digit(n));
    } else {
        push_decimal(s, n / 10);
        push_char(s, digit(n % 10));
    }
}

} // verus!

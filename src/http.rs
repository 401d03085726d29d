//! The HTTP messages that carry documents: building a GET request and
//! reading a response's status line, headers and body.
use vstd::prelude::*;
use crate::style::{skip_space, word_end};
use crate::text::{white_space, is_white_space, chars_of, string_of, push_text};

verus! {

/// What `String::from_utf8_lossy` gives for a byte sequence.
pub uninterp spec fn lossy_text(b: Seq<u8>) -> Seq<char>;

/// Relies on `String::from_utf8_lossy`: the bytes as text, with each
/// invalid sequence replaced by U+FFFD; valid UTF-8 is decoded unchanged.
#[verifier::external_body]
fn utf8_lossy(b: &[u8]) -> (r: String)
    ensures
        r@ == lossy_text(b@),
        vstd::utf8::valid_utf8(b@) ==> r@ == vstd::utf8::decode_utf8(b@),
{
    String::from_utf8_lossy(b).into_owned()
}

pub struct HttpRequest {
    pub method: String,
    pub path: String,
    pub headers: Vec<(String, String)>,
}

pub struct HttpResponse {
    pub status: u16,
    /// Header names and values in the order they came.
    pub headers: Vec<(String, String)>,
    pub body: Vec<u8>,
}

pub ghost struct ResponseV {
    pub status: u16,
    pub headers: Seq<(Seq<char>, Seq<char>)>,
    pub body: Seq<u8>,
}

pub open spec fn pairs_view(v: Seq<(String, String)>) -> Seq<(Seq<char>, Seq<char>)> {
    Seq::new(v.len(), |i: int| (v[i].0@, v[i].1@))
}

impl HttpResponse {
    pub open spec fn view(&self) -> ResponseV {
        ResponseV { status: self.status, headers: pairs_view(self.headers@), body: self.body@ }
    }
}

/// Whether `\r\n\r\n` starts at `i`.
pub open spec fn blank_line_at(b: Seq<u8>, i: int) -> bool {
    0 <= i && i + 4 <= b.len() && b[i] == 13 && b[i + 1] == 10 && b[i + 2] == 13 && b[i + 3] == 10
}

/// The first position from `i` where `\r\n\r\n` starts, if any.
pub open spec fn find_blank_line(b: Seq<u8>, i: int) -> Option<int>
    decreases b.len() - i,
{
    if i < 0 || i + 4 > b.len() {
        None
    } else if blank_line_at(b, i) {
        Some(i)
    } else {
        find_blank_line(b, i + 1)
    }
}

/// The first position at or after `i` that holds a newline, or the end.
pub open spec fn line_end(t: Seq<char>, i: int) -> int
    decreases t.len() - i,
{
    if i < 0 || i >= t.len() || t[i] == '\n' {
        i
    } else {
        line_end(t, i + 1)
    }
}

pub open spec fn strip_cr(l: Seq<char>) -> Seq<char> {
    if l.len() > 0 && l.last() == '\r' {
        l.drop_last()
    } else {
        l
    }
}

/// The lines of a text from `i` on, as `str::lines` gives them.
pub open spec fn lines_from(t: Seq<char>, i: int) -> Seq<Seq<char>>
    decreases t.len() - i,
{
    if i < 0 || i >= t.len() {
        Seq::empty()
    } else {
        let e = line_end(t, i);
        if e < i || e > t.len() {
            Seq::empty()
        } else if e == t.len() {
            seq![strip_cr(t.subrange(i, e))]
        } else {
            seq![strip_cr(t.subrange(i, e))] + lines_from(t, e + 1)
        }
    }
}

/// The whitespace-separated words of a text from `i` on.
pub open spec fn words_from(v: Seq<char>, i: int) -> Seq<Seq<char>>
    decreases v.len() - i,
{
    let s = skip_space(v, i);
    if i < 0 || s < i || s >= v.len() {
        Seq::empty()
    } else {
        let e = word_end(v, s);
        if e <= s || e > v.len() {
            Seq::empty()
        } else {
            seq![v.subrange(s, e)] + words_from(v, e)
        }
    }
}

pub open spec fn all_digits(d: Seq<char>) -> bool {
    forall|i: int| 0 <= i < d.len() ==> crate::text::is_ascii_digit(#[trigger] d[i])
}

pub open spec fn dec_value(d: Seq<char>) -> nat
    decreases d.len(),
{
    if d.len() == 0 {
        0
    } else {
        dec_value(d.drop_last()) * 10 + (d.last() as u32 - '0' as u32) as nat
    }
}

/// What `u16::from_str` accepts: an optional `+`, then at least one digit,
/// with a value that fits.
pub open spec fn parse_u16(s: Seq<char>) -> Option<u16> {
    let d = if s.len() > 0 && s[0] == '+' {
        s.drop_first()
    } else {
        s
    };
    if d.len() == 0 || !all_digits(d) || dec_value(d) > 65535 {
        None
    } else {
        Some(dec_value(d) as u16)
    }
}

/// The last position before which the text is not all whitespace.
pub open spec fn trim_end(v: Seq<char>, j: int) -> int
    decreases j,
{
    if j <= 0 || j > v.len() || !white_space(v[j - 1]) {
        j
    } else {
        trim_end(v, j - 1)
    }
}

/// The text without leading and trailing whitespace.
pub open spec fn trim(v: Seq<char>) -> Seq<char> {
    let s = skip_space(v, 0);
    let e = trim_end(v, v.len() as int);
    if s < e {
        v.subrange(s, e)
    } else {
        Seq::empty()
    }
}

/// The first colon in a line, if any.
pub open spec fn colon_from(l: Seq<char>, i: int) -> Option<int>
    decreases l.len() - i,
{
    if i < 0 || i >= l.len() {
        None
    } else if l[i] == ':' {
        Some(i)
    } else {
        colon_from(l, i + 1)
    }
}

/// The headers among the lines: each line with a colon gives its trimmed
/// name and value.
pub open spec fn header_pairs(ls: Seq<Seq<char>>) -> Seq<(Seq<char>, Seq<char>)>
    decreases ls.len(),
{
    if ls.len() == 0 {
        Seq::empty()
    } else {
        let l = ls.last();
        header_pairs(ls.drop_last()) + match colon_from(l, 0) {
            Some(c) => seq![(trim(l.subrange(0, c)), trim(l.subrange(c + 1, l.len() as int)))],
            None => Seq::empty(),
        }
    }
}

/// The status code and headers in the head of a response: the status is
/// the second word of the first line, each later line with a colon is a
/// header.
pub open spec fn head_model(t: Seq<char>) -> Option<(u16, Seq<(Seq<char>, Seq<char>)>)> {
    let ls = lines_from(t, 0);
    if ls.len() == 0 {
        None
    } else {
        let parts = words_from(ls[0], 0);
        if parts.len() < 2 {
            None
        } else {
            match parse_u16(parts[1]) {
                None => None,
                Some(status) => Some((status, header_pairs(ls.drop_first()))),
            }
        }
    }
}

/// The response in a byte sequence: the head ends at the first blank line
/// and is read as text, the body is every byte after that line.
pub open spec fn response_model(b: Seq<u8>) -> Option<ResponseV> {
    match find_blank_line(b, 0) {
        None => None,
        Some(split) => match head_model(lossy_text(b.subrange(0, split))) {
            None => None,
            Some((status, headers)) => Some(
                ResponseV { status, headers, body: b.subrange(split + 4, b.len() as int) },
            ),
        },
    }
}

pub open spec fn char_lists(v: Seq<Vec<char>>) -> Seq<Seq<char>> {
    Seq::new(v.len(), |i: int| v[i]@)
}

pub(crate) fn slice_chars(v: &Vec<char>, lo: usize, hi: usize) -> (r: Vec<char>)
    requires
        lo <= hi <= v@.len(),
    ensures
        r@ == v@.subrange(lo as int, hi as int),
{
    let mut r: Vec<char> = Vec::new();
    let mut i = lo;
    while i < hi
        invariant
            lo <= i <= hi <= v@.len(),
            r@ == v@.subrange(lo as int, i as int),
        decreases hi - i,
    {
        r.push(v[i]);
        assert(v@.subrange(lo as int, i + 1) =~= v@.subrange(lo as int, i as int).push(v@[i as int]));
        i = i + 1;
    }
    r
}

fn find_blank(b: &[u8]) -> (r: Option<usize>)
    ensures
        r is Some ==> find_blank_line(b@, 0) == Some(r->0 as int),
        r is None ==> find_blank_line(b@, 0) is None,
{
    let n = b.len();
    if n < 4 {
        return None;
    }
    let mut i: usize = 0;
    while n - i >= 4
        invariant
            n == b@.len(),
            n >= 4,
            i <= n,
            find_blank_line(b@, 0) == find_blank_line(b@, i as int),
        decreases n - i,
    {
        if b[i] == 13 && b[i + 1] == 10 && b[i + 2] == 13 && b[i + 3] == 10 {
            return Some(i);
        }
        i = i + 1;
    }
    None
}

fn lines_of(t: &Vec<char>) -> (r: Vec<Vec<char>>)
    ensures
        char_lists(r@) == lines_from(t@, 0),
{
    let n = t.len();
    let mut acc: Vec<Vec<char>> = Vec::new();
    let mut i: usize = 0;
    while i < n
        invariant
            n == t@.len(),
            i <= n,
            lines_from(t@, 0) == char_lists(acc@) + lines_from(t@, i as int),
        decreases n - i,
    {
        let mut e = i;
        while e < n && t[e] != '\n'
            invariant
                i <= e <= n,
                n == t@.len(),
                line_end(t@, e as int) == line_end(t@, i as int),
            decreases n - e,
        {
            e = e + 1;
        }
        let line = if e > i && t[e - 1] == '\r' {
            slice_chars(t, i, e - 1)
        } else {
            slice_chars(t, i, e)
        };
        let ghost before = char_lists(acc@);
        assert(line@ == strip_cr(t@.subrange(i as int, e as int)));
        acc.push(line);
        assert(char_lists(acc@) =~= before.push(line@));
        if e == n {
            assert(lines_from(t@, i as int) == seq![line@]);
            assert(char_lists(acc@) =~= before + seq![line@]);
            return acc;
        }
        assert(before + (seq![line@] + lines_from(t@, e + 1)) =~= before.push(line@) + lines_from(
            t@,
            e + 1,
        ));
        i = e + 1;
    }
    assert(lines_from(t@, i as int) == Seq::<Seq<char>>::empty());
    assert(char_lists(acc@) + Seq::<Seq<char>>::empty() =~= char_lists(acc@));
    acc
}

pub(crate) fn words_of(v: &Vec<char>) -> (r: Vec<Vec<char>>)
    ensures
        char_lists(r@) == words_from(v@, 0),
{
    let n = v.len();
    let mut acc: Vec<Vec<char>> = Vec::new();
    let mut i: usize = 0;
    loop
        invariant
            n == v@.len(),
            i <= n,
            words_from(v@, 0) == char_lists(acc@) + words_from(v@, i as int),
        decreases n - i,
    {
        let mut s = i;
        while s < n && is_white_space(v[s])
            invariant
                i <= s <= n,
                n == v@.len(),
                skip_space(v@, s as int) == skip_space(v@, i as int),
            decreases n - s,
        {
            s = s + 1;
        }
        if s >= n {
            assert(char_lists(acc@) + Seq::<Seq<char>>::empty() =~= char_lists(acc@));
            return acc;
        }
        let mut e = s;
        while e < n && !is_white_space(v[e])
            invariant
                s <= e <= n,
                n == v@.len(),
                word_end(v@, e as int) == word_end(v@, s as int),
            decreases n - e,
        {
            e = e + 1;
        }
        let w = slice_chars(v, s, e);
        let ghost before = char_lists(acc@);
        acc.push(w);
        assert(char_lists(acc@) =~= before.push(w@));
        assert(before + (seq![w@] + words_from(v@, e as int)) =~= before.push(w@) + words_from(
            v@,
            e as int,
        ));
        i = e;
    }
}

proof fn lemma_dec_take_monotone(d: Seq<char>, k: int)
    requires
        0 <= k <= d.len(),
        all_digits(d),
    ensures
        dec_value(d.take(k)) <= dec_value(d),
    decreases d.len() - k,
{
    if k < d.len() {
        assert(d.take(k + 1).drop_last() =~= d.take(k));
        lemma_dec_take_monotone(d, k + 1);
    } else {
        assert(d.take(k) =~= d);
    }
}

fn u16_of(s: &Vec<char>) -> (r: Option<u16>)
    ensures
        r == parse_u16(s@),
{
    let n = s.len();
    let start: usize = if n > 0 && s[0] == '+' { 1 } else { 0 };
    let ghost d = if s@.len() > 0 && s@[0] == '+' {
        s@.drop_first()
    } else {
        s@
    };
    assert(d =~= s@.subrange(start as int, n as int));
    if start >= n {
        assert(d.len() == 0);
        return None;
    }
    let mut acc: u32 = 0;
    let mut i = start;
    while i < n
        invariant
            n == s@.len(),
            start <= i <= n,
            d == s@.subrange(start as int, n as int),
            d == (if s@.len() > 0 && s@[0] == '+' {
                s@.drop_first()
            } else {
                s@
            }),
            acc <= 65535,
            acc == dec_value(d.take(i - start)),
            all_digits(d.take(i - start)),
        decreases n - i,
    {
        let c = s[i];
        if !('0' <= c && c <= '9') {
            assert(d[i - start] == c);
            assert(!crate::text::is_ascii_digit(d[i - start]));
            return None;
        }
        assert(d.take(i - start + 1).drop_last() =~= d.take(i - start));
        assert(d.take(i - start + 1).last() == c);
        acc = acc * 10 + (c as u32 - '0' as u32);
        if acc > 65535 {
            proof {
                if all_digits(d) {
                    lemma_dec_take_monotone(d, i - start + 1);
                }
            }
            return None;
        }
        i = i + 1;
    }
    assert(d.take(n - start) =~= d);
    Some(acc as u16)
}

fn trimmed(v: &Vec<char>, lo: usize, hi: usize) -> (r: String)
    requires
        lo <= hi <= v@.len(),
    ensures
        r@ == trim(v@.subrange(lo as int, hi as int)),
{
    let w = slice_chars(v, lo, hi);
    let n = w.len();
    let mut s: usize = 0;
    while s < n && is_white_space(w[s])
        invariant
            s <= n == w@.len(),
            skip_space(w@, s as int) == skip_space(w@, 0),
        decreases n - s,
    {
        s = s + 1;
    }
    let mut e: usize = n;
    while e > 0 && is_white_space(w[e - 1])
        invariant
            e <= n == w@.len(),
            trim_end(w@, e as int) == trim_end(w@, n as int),
        decreases e,
    {
        e = e - 1;
    }
    if s < e {
        string_of(&w, s, e)
    } else {
        String::new()
    }
}

fn colon_in(l: &Vec<char>) -> (r: Option<usize>)
    ensures
        r is Some ==> colon_from(l@, 0) == Some(r->0 as int),
        r is None ==> colon_from(l@, 0) is None,
{
    let n = l.len();
    let mut i: usize = 0;
    while i < n
        invariant
            n == l@.len(),
            i <= n,
            colon_from(l@, 0) == colon_from(l@, i as int),
        decreases n - i,
    {
        if l[i] == ':' {
            return Some(i);
        }
        i = i + 1;
    }
    None
}

pub proof fn lemma_colon_bound(l: Seq<char>, i: int)
    requires
        0 <= i,
    ensures
        colon_from(l, i) is Some ==> i <= colon_from(l, i)->0 < l.len(),
    decreases l.len() - i,
{
    if 0 <= i < l.len() && l[i] != ':' {
        lemma_colon_bound(l, i + 1);
    }
}

impl HttpResponse {
    /// Reads a response: `None` when there is no blank line ending the
    /// head, no status line, or its second word is not a `u16`.
    pub fn parse(bytes: &[u8]) -> (r: Option<Self>)
        ensures
            match response_model(bytes@) {
                Some(m) => r is Some && r->0@ == m,
                None => r is None,
            },
    {
        let split = match find_blank(bytes) {
            Some(k) => k,
            None => {
                return None;
            },
        };
        let n = bytes.len();
        proof {
            lemma_find_bounds(bytes@, 0);
        }
        assert(split + 4 <= n);
        let body = vstd::slice::slice_to_vec(
            vstd::slice::slice_subrange(bytes, split + 4, bytes.len()),
        );
        let head = vstd::slice::slice_subrange(bytes, 0, split);
        let text = utf8_lossy(head);
        assert(head@ == bytes@.subrange(0, split as int));
        match parse_head(text.as_str()) {
            None => None,
            Some((status, headers)) => Some(HttpResponse { status, headers, body }),
        }
    }
}

pub open spec fn head_view(h: (u16, Vec<(String, String)>)) -> (u16, Seq<(Seq<char>, Seq<char>)>) {
    (h.0, pairs_view(h.1@))
}

/// Reads the status code and headers from the text of a response head.
pub fn parse_head(head: &str) -> (r: Option<(u16, Vec<(String, String)>)>)
    ensures
        match head_model(head@) {
            Some(m) => r is Some && head_view(r->0) == m,
            None => r is None,
        },
{
    let chars = chars_of(head);
    let lines = lines_of(&chars);
    if lines.len() == 0 {
        return None;
    }
    assert(char_lists(lines@)[0] == lines@[0]@);
    let parts = words_of(&lines[0]);
    if parts.len() < 2 {
        return None;
    }
    let status = match u16_of(&parts[1]) {
        Some(s) => s,
        None => {
            return None;
        },
    };
    let ghost ls = char_lists(lines@);
    let nl = lines.len();
    let mut headers: Vec<(String, String)> = Vec::new();
    let mut i: usize = 1;
    while i < nl
        invariant
            nl == lines@.len() == ls.len(),
            ls == char_lists(lines@),
            1 <= i <= nl,
            pairs_view(headers@) == header_pairs(ls.drop_first().take(i - 1)),
        decreases nl - i,
    {
        let l = &lines[i];
        assert(ls.drop_first().take(i as int).drop_last() =~= ls.drop_first().take(i - 1));
        assert(ls.drop_first().take(i as int).last() == l@);
        let ghost before = pairs_view(headers@);
        match colon_in(l) {
            Some(c) => {
                proof {
                    lemma_colon_bound(l@, 0);
                }
                let key = trimmed(l, 0, c);
                let value = trimmed(l, c + 1, l.len());
                headers.push((key, value));
                assert(pairs_view(headers@) =~= before + seq![(key@, value@)]);
            },
            None => {
                assert(before + Seq::<(Seq<char>, Seq<char>)>::empty() =~= before);
            },
        }
        i = i + 1;
    }
    assert(ls.drop_first().take(nl - 1) =~= ls.drop_first());
    Some((status, headers))
}

proof fn lemma_find_bounds(b: Seq<u8>, i: int)
    requires
        0 <= i,
    ensures
        find_blank_line(b, i) is Some ==> i <= find_blank_line(b, i)->0 && find_blank_line(b, i)->0
            + 4 <= b.len(),
    decreases b.len() - i,
{
    if !(i + 4 > b.len()) && !blank_line_at(b, i) {
        lemma_find_bounds(b, i + 1);
    }
}

/// The text of a GET request for `path` on `host`, closing the connection
/// after the response.
pub open spec fn get_request_text(host: Seq<char>, path: Seq<char>) -> Seq<char> {
    "GET "@ + path + " HTTP/1.1\r\nHost: "@ + host
        + "\r\nUser-Agent: YolofiBrowser/0.1\r\nConnection: close\r\n\r\n"@
}

/// The bytes of a GET request (UTF-8).
pub fn build_get_request(host: &str, path: &str) -> (r: Vec<u8>)
    ensures
        r@ == vstd::utf8::encode_utf8(get_request_text(host@, path@)),
{
    let mut s = String::new();
    push_text(&mut s, "GET ");
    push_text(&mut s, path);
    push_text(&mut s, " HTTP/1.1\r\nHost: ");
    push_text(&mut s, host);
    push_text(&mut s, "\r\nUser-Agent: YolofiBrowser/0.1\r\nConnection: close\r\n\r\n");
    assert(s@ =~= get_request_text(host@, path@));
    s.as_str().as_bytes_vec()
}

} // verus!

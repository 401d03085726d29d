//! Lexing of HTML text into start tags, end tags and characters.
use vstd::prelude::*;
use crate::text::{white_space, is_ascii_letter, chars_of, is_white_space, string_of};
use crate::dom::{Attribute, attrs_view};

verus! {

pub enum Token {
    StartTag(String, Vec<Attribute>),
    EndTag(String),
    Character(char),
    Eof,
}

pub ghost enum TokenV {
    StartTag(Seq<char>, Seq<(Seq<char>, Seq<char>)>),
    EndTag(Seq<char>),
    Character(char),
    Eof,
}

impl Token {
    pub open spec fn view(&self) -> TokenV {
        match self {
            Token::StartTag(n, a) => TokenV::StartTag(n@, attrs_view(a@)),
            Token::EndTag(n) => TokenV::EndTag(n@),
            Token::Character(c) => TokenV::Character(*c),
            Token::Eof => TokenV::Eof,
        }
    }
}

/// The kinds of character that end a scanned run.
pub enum Stop {
    /// End of a tag name: whitespace, `>` or `/`.
    TagName,
    /// End of an attribute name: whitespace, `>`, `/` or `=`.
    AttrName,
    /// End of an unquoted attribute value: whitespace or `>`.
    Unquoted,
    /// The given quote character, or `>` when looking for the end of a tag.
    Exactly(char),
    /// Anything that is neither whitespace nor `/`.
    NotSpaceOrSlash,
}

pub open spec fn stops(k: Stop, c: char) -> bool {
    match k {
        Stop::TagName => white_space(c) || c == '>' || c == '/',
        Stop::AttrName => white_space(c) || c == '>' || c == '/' || c == '=',
        Stop::Unquoted => white_space(c) || c == '>',
        Stop::Exactly(q) => c == q,
        Stop::NotSpaceOrSlash => !(white_space(c) || c == '/'),
    }
}

/// The first position at or after `i` that holds a stopping character, or
/// the end of the text.
pub open spec fn scan(s: Seq<char>, i: int, k: Stop) -> int
    decreases s.len() - i,
{
    if i < 0 || i >= s.len() || stops(k, s[i]) {
        i
    } else {
        scan(s, i + 1, k)
    }
}

pub proof fn lemma_scan_bounds(s: Seq<char>, i: int, k: Stop)
    requires
        0 <= i <= s.len(),
    ensures
        i <= scan(s, i, k) <= s.len(),
        scan(s, i, k) < s.len() ==> stops(k, s[scan(s, i, k)]),
        forall|j: int| i <= j < scan(s, i, k) ==> !stops(k, #[trigger] s[j]),
    decreases s.len() - i,
{
    if i < s.len() && !stops(k, s[i]) {
        lemma_scan_bounds(s, i + 1, k);
    }
}

/// The value of an attribute starting at `v`, and the position after it.
pub open spec fn lex_value(s: Seq<char>, v: int) -> (Seq<char>, int) {
    if v < s.len() && (s[v] == '"' || s[v] == '\'') {
        let e = scan(s, v + 1, Stop::Exactly(s[v]));
        (s.subrange(v + 1, e), if e < s.len() { e + 1 } else { e })
    } else {
        let e = scan(s, v, Stop::Unquoted);
        (s.subrange(v, e), e)
    }
}

/// The attributes of a start tag from `i` up to and including its `>`, and
/// the position after the tag.
pub open spec fn lex_attrs(s: Seq<char>, i: int) -> (Seq<(Seq<char>, Seq<char>)>, int)
    decreases s.len() - i,
{
    let j = scan(s, i, Stop::NotSpaceOrSlash);
    if i < 0 || j < i || j >= s.len() {
        (Seq::empty(), s.len() as int)
    } else if s[j] == '>' {
        (Seq::empty(), j + 1)
    } else if s[j] == '=' {
        lex_attrs(s, j + 1)
    } else {
        let ne = scan(s, j, Stop::AttrName);
        let name = s.subrange(j, ne);
        let vk = if ne < s.len() && s[ne] == '=' {
            lex_value(s, ne + 1)
        } else {
            (Seq::<char>::empty(), ne)
        };
        if vk.1 <= i || vk.1 > s.len() {
            (Seq::empty(), s.len() as int)
        } else {
            let rest = lex_attrs(s, vk.1);
            (seq![(name, vk.0)] + rest.0, rest.1)
        }
    }
}

/// The token that starts at position `p` (which is inside the text) and the
/// position after it.
pub open spec fn lex(s: Seq<char>, p: int) -> (TokenV, int) {
    let c = s[p];
    if c == '<' && p + 2 < s.len() && s[p + 1] == '/' && is_ascii_letter(s[p + 2]) {
        let ne = scan(s, p + 2, Stop::TagName);
        let ge = scan(s, ne, Stop::Exactly('>'));
        (TokenV::EndTag(s.subrange(p + 2, ne)), if ge < s.len() { ge + 1 } else { ge })
    } else if c == '<' && p + 1 < s.len() && is_ascii_letter(s[p + 1]) {
        let ne = scan(s, p + 1, Stop::TagName);
        let a = lex_attrs(s, ne);
        (TokenV::StartTag(s.subrange(p + 1, ne), a.0), a.1)
    } else {
        (TokenV::Character(c), p + 1)
    }
}

} // verus!

verus! {

pub proof fn lemma_lex_attrs_bounds(s: Seq<char>, i: int)
    requires
        0 <= i <= s.len(),
    ensures
        i <= lex_attrs(s, i).1 <= s.len(),
    decreases s.len() - i,
{
    let j = scan(s, i, Stop::NotSpaceOrSlash);
    lemma_scan_bounds(s, i, Stop::NotSpaceOrSlash);
    if j < s.len() && s[j] != '>' {
        if s[j] == '=' {
            lemma_lex_attrs_bounds(s, j + 1);
        } else {
            let ne = scan(s, j, Stop::AttrName);
            let vk = if ne < s.len() && s[ne] == '=' {
                lex_value(s, ne + 1)
            } else {
                (Seq::<char>::empty(), ne)
            };
            if vk.1 > i && vk.1 <= s.len() {
                lemma_lex_attrs_bounds(s, vk.1);
            }
        }
    }
}

pub proof fn lemma_lex_progress(s: Seq<char>, p: int)
    requires
        0 <= p < s.len(),
    ensures
        p < lex(s, p).1 <= s.len(),
{
    let c = s[p];
    if c == '<' && p + 2 < s.len() && s[p + 1] == '/' && is_ascii_letter(s[p + 2]) {
        lemma_scan_bounds(s, p + 2, Stop::TagName);
        let ne = scan(s, p + 2, Stop::TagName);
        lemma_scan_bounds(s, ne, Stop::Exactly('>'));
    } else if c == '<' && p + 1 < s.len() && is_ascii_letter(s[p + 1]) {
        lemma_scan_bounds(s, p + 1, Stop::TagName);
        let ne = scan(s, p + 1, Stop::TagName);
        lemma_lex_attrs_bounds(s, ne);
    }
}

/// The tokens of the text from position `p` to its end.
pub open spec fn tokens_from(s: Seq<char>, p: int) -> Seq<TokenV>
    decreases s.len() - p,
{
    if p < 0 || p >= s.len() {
        Seq::empty()
    } else {
        let t = lex(s, p);
        if t.1 <= p || t.1 > s.len() {
            Seq::empty()
        } else {
            seq![t.0] + tokens_from(s, t.1)
        }
    }
}

/// The tokens of a whole text.
pub open spec fn tokenize(s: Seq<char>) -> Seq<TokenV> {
    tokens_from(s, 0)
}

fn stop_at(k: &Stop, c: char) -> (r: bool)
    ensures
        r == stops(*k, c),
{
    match k {
        Stop::TagName => is_white_space(c) || c == '>' || c == '/',
        Stop::AttrName => is_white_space(c) || c == '>' || c == '/' || c == '=',
        Stop::Unquoted => is_white_space(c) || c == '>',
        Stop::Exactly(q) => c == *q,
        Stop::NotSpaceOrSlash => !(is_white_space(c) || c == '/'),
    }
}

fn is_letter(c: char) -> (r: bool)
    ensures
        r == is_ascii_letter(c),
{
    ('a' <= c && c <= 'z') || ('A' <= c && c <= 'Z')
}

pub struct Tokenizer {
    input: Vec<char>,
    pos: usize,
}

impl Tokenizer {
    /// The whole text being tokenized.
    pub closed spec fn text(&self) -> Seq<char> {
        self.input@
    }

    /// The position of the next character to read.
    pub closed spec fn position(&self) -> int {
        self.pos as int
    }

    pub closed spec fn wf(&self) -> bool {
        self.pos <= self.input@.len()
    }

    pub fn new(input: &str) -> (r: Self)
        ensures
            r.wf(),
            r.text() == input@,
            r.position() == 0,
    {
        Tokenizer { input: chars_of(input), pos: 0 }
    }

    fn scan_run(&self, i: usize, k: Stop) -> (r: usize)
        requires
            i <= self.input@.len(),
        ensures
            r == scan(self.input@, i as int, k),
    {
        proof {
            lemma_scan_bounds(self.input@, i as int, k);
        }
        let mut j = i;
        while j < self.input.len() && !stop_at(&k, self.input[j])
            invariant
                i <= j <= self.input@.len(),
                scan(self.input@, j as int, k) == scan(self.input@, i as int, k),
            decreases self.input@.len() - j,
        {
            j = j + 1;
        }
        j
    }

    fn read_value(&self, v: usize) -> (r: (String, usize))
        requires
            v <= self.input@.len(),
        ensures
            r.0@ == lex_value(self.input@, v as int).0,
            r.1 == lex_value(self.input@, v as int).1,
    {
        let n = self.input.len();
        if v < n && (self.input[v] == '"' || self.input[v] == '\'') {
            let q = self.input[v];
            let e = self.scan_run(v + 1, Stop::Exactly(q));
            proof {
                lemma_scan_bounds(self.input@, v + 1, Stop::Exactly(q));
            }
            let value = string_of(&self.input, v + 1, e);
            (value, if e < n { e + 1 } else { e })
        } else {
            let e = self.scan_run(v, Stop::Unquoted);
            proof {
                lemma_scan_bounds(self.input@, v as int, Stop::Unquoted);
            }
            (string_of(&self.input, v, e), e)
        }
    }

    fn read_attributes(&self, i0: usize) -> (r: (Vec<Attribute>, usize))
        requires
            i0 <= self.input@.len(),
        ensures
            attrs_view(r.0@) == lex_attrs(self.input@, i0 as int).0,
            r.1 == lex_attrs(self.input@, i0 as int).1,
    {
        let ghost s = self.input@;
        let n = self.input.len();
        let mut acc: Vec<Attribute> = Vec::new();
        let mut i = i0;
        loop
            invariant
                s == self.input@,
                n == s.len(),
                i0 <= i <= n,
                lex_attrs(s, i0 as int).0 == attrs_view(acc@) + lex_attrs(s, i as int).0,
                lex_attrs(s, i0 as int).1 == lex_attrs(s, i as int).1,
            decreases n - i,
        {
            let j = self.scan_run(i, Stop::NotSpaceOrSlash);
            proof {
                lemma_scan_bounds(s, i as int, Stop::NotSpaceOrSlash);
            }
            if j >= n {
                assert(attrs_view(acc@) + Seq::empty() =~= attrs_view(acc@));
                return (acc, n);
            } else if self.input[j] == '>' {
                assert(attrs_view(acc@) + Seq::empty() =~= attrs_view(acc@));
                return (acc, j + 1);
            } else if self.input[j] == '=' {
                i = j + 1;
            } else {
                let ne = self.scan_run(j, Stop::AttrName);
                proof {
                    lemma_scan_bounds(s, j as int, Stop::AttrName);
                }
                let name = string_of(&self.input, j, ne);
                let (value, k) = if ne < n && self.input[ne] == '=' {
                    self.read_value(ne + 1)
                } else {
                    (String::new(), ne)
                };
                proof {
                    if ne < n && s[ne as int] == '=' {
                        lemma_scan_bounds(s, ne + 1, Stop::Unquoted);
                        if ne + 1 < n && (s[ne + 1] == '"' || s[ne + 1] == '\'') {
                            lemma_scan_bounds(s, ne + 2, Stop::Exactly(s[ne + 1]));
                        }
                    }
                }
                assert(k > i && k <= n);
                let ghost old_acc = acc@;
                acc.push(Attribute { name, value });
                assert(attrs_view(acc@) =~= attrs_view(old_acc) + seq![(name@, value@)]);
                assert(attrs_view(acc@) + lex_attrs(s, k as int).0 =~= attrs_view(old_acc) + (
                seq![(name@, value@)] + lex_attrs(s, k as int).0));
                i = k;
            }
        }
    }

    /// Reads a tag name from `i`; returns it and the position after it.
    fn read_tag_name(&self, i: usize) -> (r: (String, usize))
        requires
            i <= self.input@.len(),
        ensures
            r.1 == scan(self.input@, i as int, Stop::TagName),
            i <= r.1 <= self.input@.len(),
            r.0@ == self.input@.subrange(i as int, r.1 as int),
    {
        let e = self.scan_run(i, Stop::TagName);
        proof {
            lemma_scan_bounds(self.input@, i as int, Stop::TagName);
        }
        (string_of(&self.input, i, e), e)
    }

    /// The next token, or `None` at the end of the input.
    pub fn next_token(&mut self) -> (r: Option<Token>)
        requires
            old(self).wf(),
        ensures
            final(self).wf(),
            final(self).text() == old(self).text(),
            old(self).position() >= old(self).text().len() ==> r is None && final(self).position()
                == old(self).position(),
            old(self).position() < old(self).text().len() ==> r is Some && r->0@ == lex(
                old(self).text(),
                old(self).position(),
            ).0 && final(self).position() == lex(old(self).text(), old(self).position()).1,
    {
        let n = self.input.len();
        let p = self.pos;
        if p >= n {
            return None;
        }
        proof {
            lemma_lex_progress(self.input@, p as int);
        }
        let c = self.input[p];
        if c == '<' && n - p > 2 && self.input[p + 1] == '/' && is_letter(self.input[p + 2]) {
            let (name, ne) = self.read_tag_name(p + 2);
            let ge = self.scan_run(ne, Stop::Exactly('>'));
            self.pos = if ge < n { ge + 1 } else { ge };
            Some(Token::EndTag(name))
        } else if c == '<' && n - p > 1 && is_letter(self.input[p + 1]) {
            let (name, ne) = self.read_tag_name(p + 1);
            let (attrs, end) = self.read_attributes(ne);
            self.pos = end;
            Some(Token::StartTag(name, attrs))
        } else {
            self.pos = p + 1;
            Some(Token::Character(c))
        }
    }
}

} // verus!

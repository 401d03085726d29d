//! Lexing of CSS text into identifiers, hashes, numbers, strings and
//! delimiters. Whitespace and comments separate tokens and are dropped.
use vstd::prelude::*;
use crate::text::{
    white_space,
    alphabetic,
    alphanumeric,
    is_ascii_digit,
    chars_of,
    is_white_space,
    is_alphabetic,
    is_alphanumeric,
    string_of,
};

verus! {

pub enum Token {
    Ident(String),
    /// A `#` followed by the name after it.
    Hash(String),
    Delim(char),
    /// A quoted string, without its quotes.
    String(String),
    /// The digits (and dots) of a number, as written.
    Number(String),
    Whitespace,
    Eof,
}

pub ghost enum TokenV {
    Ident(Seq<char>),
    Hash(Seq<char>),
    Delim(char),
    Str(Seq<char>),
    Number(Seq<char>),
    Whitespace,
    Eof,
}

impl Token {
    pub open spec fn view(&self) -> TokenV {
        match self {
            Token::Ident(s) => TokenV::Ident(s@),
            Token::Hash(s) => TokenV::Hash(s@),
            Token::Delim(c) => TokenV::Delim(*c),
            Token::String(s) => TokenV::Str(s@),
            Token::Number(s) => TokenV::Number(s@),
            Token::Whitespace => TokenV::Whitespace,
            Token::Eof => TokenV::Eof,
        }
    }
}

pub enum CssStop {
    /// Anything that cannot continue an identifier.
    IdentEnd,
    /// Anything but a digit or a dot.
    NumberEnd,
    /// The given quote character.
    Quote(char),
}

pub open spec fn ident_char(c: char) -> bool {
    alphanumeric(c) || c == '-' || c == '_'
}

pub open spec fn css_stops(k: CssStop, c: char) -> bool {
    match k {
        CssStop::IdentEnd => !ident_char(c),
        CssStop::NumberEnd => !(is_ascii_digit(c) || c == '.'),
        CssStop::Quote(q) => c == q,
    }
}

pub open spec fn css_scan(s: Seq<char>, i: int, k: CssStop) -> int
    decreases s.len() - i,
{
    if i < 0 || i >= s.len() || css_stops(k, s[i]) {
        i
    } else {
        css_scan(s, i + 1, k)
    }
}

pub proof fn lemma_css_scan_bounds(s: Seq<char>, i: int, k: CssStop)
    requires
        0 <= i <= s.len(),
    ensures
        i <= css_scan(s, i, k) <= s.len(),
    decreases s.len() - i,
{
    if i < s.len() && !css_stops(k, s[i]) {
        lemma_css_scan_bounds(s, i + 1, k);
    }
}

/// The position just after the `*/` that closes a comment whose body
/// starts at `q`, or the end of the text.
pub open spec fn comment_end(s: Seq<char>, q: int) -> int
    decreases s.len() - q,
{
    if q < 0 || q >= s.len() {
        s.len() as int
    } else if s[q] == '*' && q + 1 < s.len() && s[q + 1] == '/' {
        q + 2
    } else {
        comment_end(s, q + 1)
    }
}

pub proof fn lemma_comment_end_bounds(s: Seq<char>, q: int)
    requires
        0 <= q <= s.len(),
    ensures
        q <= comment_end(s, q) <= s.len(),
    decreases s.len() - q,
{
    if q < s.len() && !(s[q] == '*' && q + 1 < s.len() && s[q + 1] == '/') {
        lemma_comment_end_bounds(s, q + 1);
    }
}

/// The first position at or after `p` that is neither whitespace nor inside
/// a comment.
pub open spec fn skip_trivia(s: Seq<char>, p: int) -> int
    decreases s.len() - p,
{
    if p < 0 || p >= s.len() {
        p
    } else if white_space(s[p]) {
        skip_trivia(s, p + 1)
    } else if s[p] == '/' && p + 1 < s.len() && s[p + 1] == '*' {
        let e = comment_end(s, p + 2);
        if e <= p || e > s.len() {
            p
        } else {
            skip_trivia(s, e)
        }
    } else {
        p
    }
}

pub proof fn lemma_skip_trivia_bounds(s: Seq<char>, p: int)
    requires
        0 <= p <= s.len(),
    ensures
        p <= skip_trivia(s, p) <= s.len(),
    decreases s.len() - p,
{
    if p < s.len() {
        if white_space(s[p]) {
            lemma_skip_trivia_bounds(s, p + 1);
        } else if s[p] == '/' && p + 1 < s.len() && s[p + 1] == '*' {
            lemma_comment_end_bounds(s, p + 2);
            let e = comment_end(s, p + 2);
            if e > p && e <= s.len() {
                lemma_skip_trivia_bounds(s, e);
            }
        }
    }
}

/// The token that starts at `p` (inside the text, not at trivia) and the
/// position after it.
pub open spec fn css_lex(s: Seq<char>, p: int) -> (TokenV, int) {
    let c = s[p];
    if c == '{' || c == '}' || c == ':' || c == ';' || c == '.' || c == ',' {
        (TokenV::Delim(c), p + 1)
    } else if c == '#' {
        let e = css_scan(s, p + 1, CssStop::IdentEnd);
        (TokenV::Hash(s.subrange(p + 1, e)), e)
    } else if alphabetic(c) || c == '-' {
        let e = css_scan(s, p + 1, CssStop::IdentEnd);
        (TokenV::Ident(s.subrange(p, e)), e)
    } else if is_ascii_digit(c) {
        let e = css_scan(s, p + 1, CssStop::NumberEnd);
        (TokenV::Number(s.subrange(p, e)), e)
    } else if c == '"' || c == '\'' {
        let e = css_scan(s, p + 1, CssStop::Quote(c));
        (TokenV::Str(s.subrange(p + 1, e)), if e < s.len() { e + 1 } else { e })
    } else {
        (TokenV::Delim(c), p + 1)
    }
}

pub proof fn lemma_css_lex_progress(s: Seq<char>, p: int)
    requires
        0 <= p < s.len(),
    ensures
        p < css_lex(s, p).1 <= s.len(),
{
    lemma_css_scan_bounds(s, p + 1, CssStop::IdentEnd);
    lemma_css_scan_bounds(s, p + 1, CssStop::NumberEnd);
    lemma_css_scan_bounds(s, p + 1, CssStop::Quote(s[p]));
}

/// The tokens of the text from `p` to its end (the end itself gives no
/// token).
pub open spec fn css_tokens_from(s: Seq<char>, p: int) -> Seq<TokenV>
    decreases s.len() - p,
{
    let q = skip_trivia(s, p);
    if p < 0 || q < p || q >= s.len() {
        Seq::empty()
    } else {
        let t = css_lex(s, q);
        if t.1 <= q || t.1 > s.len() {
            Seq::empty()
        } else {
            seq![t.0] + css_tokens_from(s, t.1)
        }
    }
}

pub open spec fn css_tokenize(s: Seq<char>) -> Seq<TokenV> {
    css_tokens_from(s, 0)
}

pub struct Tokenizer {
    input: Vec<char>,
    pos: usize,
}

fn css_stop_at(k: &CssStop, c: char) -> (r: bool)
    ensures
        r == css_stops(*k, c),
{
    match k {
        CssStop::IdentEnd => !(is_alphanumeric(c) || c == '-' || c == '_'),
        CssStop::NumberEnd => !(('0' <= c && c <= '9') || c == '.'),
        CssStop::Quote(q) => c == *q,
    }
}

impl Tokenizer {
    pub closed spec fn text(&self) -> Seq<char> {
        self.input@
    }

    pub closed spec fn position(&self) -> int {
        self.pos as int
    }

    pub closed spec fn wf(&self) -> bool {
        self.pos <= self.input@.len()
    }

    pub fn new(input: &str) -> (r: Self)
        ensures
            r.wf(),
            r.text() == input@,
            r.position() == 0,
    {
        Tokenizer { input: chars_of(input), pos: 0 }
    }

    fn scan_run(&self, i: usize, k: CssStop) -> (r: usize)
        requires
            i <= self.input@.len(),
        ensures
            r == css_scan(self.input@, i as int, k),
            i <= r <= self.input@.len(),
    {
        proof {
            lemma_css_scan_bounds(self.input@, i as int, k);
        }
        let mut j = i;
        while j < self.input.len() && !css_stop_at(&k, self.input[j])
            invariant
                i <= j <= self.input@.len(),
                css_scan(self.input@, j as int, k) == css_scan(self.input@, i as int, k),
            decreases self.input@.len() - j,
        {
            j = j + 1;
        }
        j
    }

    fn comment_end(&self, q: usize) -> (r: usize)
        requires
            q <= self.input@.len(),
        ensures
            r == comment_end(self.input@, q as int),
    {
        let n = self.input.len();
        let mut j = q;
        while j < n
            invariant
                n == self.input@.len(),
                q <= j <= n,
                comment_end(self.input@, j as int) == comment_end(self.input@, q as int),
            decreases n - j,
        {
            if self.input[j] == '*' && n - j > 1 && self.input[j + 1] == '/' {
                return j + 2;
            }
            j = j + 1;
        }
        n
    }

    fn consume_whitespace(&mut self)
        requires
            old(self).wf(),
        ensures
            final(self).wf(),
            final(self).text() == old(self).text(),
            final(self).position() == skip_trivia(old(self).text(), old(self).position()),
    {
        let n = self.input.len();
        while self.pos < n
            invariant
                self.wf(),
                n == self.input@.len(),
                self.input@ == old(self).input@,
                skip_trivia(self.input@, self.pos as int) == skip_trivia(self.input@, old(self).pos as int),
            decreases n - self.pos,
        {
            let c = self.input[self.pos];
            if is_white_space(c) {
                self.pos = self.pos + 1;
            } else if c == '/' && n - self.pos > 1 && self.input[self.pos + 1] == '*' {
                let e = self.comment_end(self.pos + 2);
                proof {
                    lemma_comment_end_bounds(self.input@, self.pos + 2);
                }
                self.pos = e;
            } else {
                assert(skip_trivia(self.input@, self.pos as int) == self.pos as int);
                return;
            }
        }
        assert(skip_trivia(self.input@, self.pos as int) == self.pos as int);
    }

    /// The next token; `Eof` once the input is exhausted.
    pub fn next_token(&mut self) -> (r: Token)
        requires
            old(self).wf(),
        ensures
            final(self).wf(),
            final(self).text() == old(self).text(),
            ({
                let s = old(self).text();
                let q = skip_trivia(s, old(self).position());
                if q >= s.len() {
                    r@ == TokenV::Eof && final(self).position() == q
                } else {
                    r@ == css_lex(s, q).0 && final(self).position() == css_lex(s, q).1
                }
            }),
    {
        self.consume_whitespace();
        let n = self.input.len();
        let p = self.pos;
        if p >= n {
            return Token::Eof;
        }
        proof {
            lemma_css_lex_progress(self.input@, p as int);
        }
        let c = self.input[p];
        if c == '{' || c == '}' || c == ':' || c == ';' || c == '.' || c == ',' {
            self.pos = p + 1;
            Token::Delim(c)
        } else if c == '#' {
            let e = self.scan_run(p + 1, CssStop::IdentEnd);
            self.pos = e;
            Token::Hash(string_of(&self.input, p + 1, e))
        } else if is_alphabetic(c) || c == '-' {
            let e = self.scan_run(p + 1, CssStop::IdentEnd);
            self.pos = e;
            Token::Ident(string_of(&self.input, p, e))
        } else if '0' <= c && c <= '9' {
            let e = self.scan_run(p + 1, CssStop::NumberEnd);
            self.pos = e;
            Token::Number(string_of(&self.input, p, e))
        } else if c == '"' || c == '\'' {
            let e = self.scan_run(p + 1, CssStop::Quote(c));
            self.pos = if e < n { e + 1 } else { e };
            Token::String(string_of(&self.input, p + 1, e))
        } else {
            self.pos = p + 1;
            Token::Delim(c)
        }
    }
}

/// Every token of a CSS text, in order.
pub fn tokenize(css: &str) -> (r: Vec<Token>)
    ensures
        Seq::new(r@.len(), |i: int| r@[i]@) == css_tokenize(css@),
{
    let mut t = Tokenizer::new(css);
    let mut out: Vec<Token> = Vec::new();
    let ghost s = css@;
    loop
        invariant
            s == css@,
            t.wf(),
            t.text() == s,
            0 <= t.position() <= s.len(),
            css_tokens_from(s, 0) == Seq::new(out@.len(), |i: int| out@[i]@) + css_tokens_from(
                s,
                t.position(),
            ),
        decreases s.len() - t.position(),
    {
        let ghost p = t.position();
        proof {
            lemma_skip_trivia_bounds(s, p);
        }
        let ghost q = skip_trivia(s, p);
        let tok = t.next_token();
        if let Token::Eof = tok {
            assert(css_tokens_from(s, p) == Seq::<TokenV>::empty());
            assert(Seq::new(out@.len(), |i: int| out@[i]@) + css_tokens_from(s, p) =~= Seq::new(
                out@.len(),
                |i: int| out@[i]@,
            ));
            return out;
        }
        proof {
            lemma_css_lex_progress(s, q);
        }
        let ghost before = Seq::new(out@.len(), |i: int| out@[i]@);
        out.push(tok);
        assert(Seq::new(out@.len(), |i: int| out@[i]@) =~= before.push(tok@));
        assert(before + css_tokens_from(s, p) =~= before.push(tok@) + css_tokens_from(
            s,
            t.position(),
        ));
    }
}

} // verus!

//! The CSS parser: rules made of a selector list and a declaration block.
//! A malformed rule is skipped up to the next `}` and parsing goes on.
use vstd::prelude::*;
use crate::css_tokenizer::{Token, TokenV, tokenize, css_tokenize};
use crate::stylesheet::{
    Stylesheet,
    Rule,
    Selector,
    SimpleSelector,
    Declaration,
    SelectorV,
    DeclarationV,
    RuleV,
    strings_view,
    selectors_view,
    declarations_view,
    rules_view,
};
use crate::text::push_text;

verus! {

/// The token at `i`, or `Eof` past the end.
pub open spec fn tok(toks: Seq<TokenV>, i: int) -> TokenV {
    if 0 <= i < toks.len() {
        toks[i]
    } else {
        TokenV::Eof
    }
}

/// A partial result with `acc` put in front of the items it holds.
pub open spec fn prepend<T>(acc: Seq<T>, r: Result<(Seq<T>, int), int>) -> Result<
    (Seq<T>, int),
    int,
> {
    match r {
        Ok((xs, e)) => Ok((acc + xs, e)),
        Err(e) => Err(e),
    }
}

/// `('.' ident)*` from `k`: the class names and the position after them.
pub open spec fn parse_classes(toks: Seq<TokenV>, k: int) -> Result<(Seq<Seq<char>>, int), int>
    decreases toks.len() - k,
{
    if tok(toks, k) == TokenV::Delim('.') {
        match tok(toks, k + 1) {
            TokenV::Ident(c) => prepend(seq![c], parse_classes(toks, k + 2)),
            _ => Err(k + 1),
        }
    } else {
        Ok((Seq::empty(), k))
    }
}

/// `[ident] ['#' ident] ('.' ident)*`, not empty.
pub open spec fn parse_simple(toks: Seq<TokenV>, p: int) -> Result<(SelectorV, int), int> {
    let (tag, after_tag) = match tok(toks, p) {
        TokenV::Ident(n) => (Some(n), p + 1),
        _ => (None, p),
    };
    let (id, after_id) = match tok(toks, after_tag) {
        TokenV::Hash(h) => (Some(h), after_tag + 1),
        _ => (None, after_tag),
    };
    match parse_classes(toks, after_id) {
        Err(e) => Err(e),
        Ok((cs, after_classes)) => if after_classes == p {
            Err(p)
        } else {
            Ok((SelectorV { tag, id, classes: cs }, after_classes))
        },
    }
}

/// `simple-selector (',' simple-selector)*`.
pub open spec fn parse_selectors(toks: Seq<TokenV>, p: int) -> Result<(Seq<SelectorV>, int), int>
    decreases toks.len() - p,
{
    match parse_simple(toks, p) {
        Err(e) => Err(e),
        Ok((s, q)) => if q <= p || q > toks.len() {
            Err(p)
        } else if tok(toks, q) == TokenV::Delim(',') {
            prepend(seq![s], parse_selectors(toks, q + 1))
        } else {
            Ok((seq![s], q))
        },
    }
}

/// A declaration's value from `k`: an identifier, a hash, a string, or a
/// number with an optional unit.
pub open spec fn parse_value(toks: Seq<TokenV>, k: int) -> Result<(Seq<char>, int), int> {
    match tok(toks, k) {
        TokenV::Ident(v) => Ok((v, k + 1)),
        TokenV::Hash(h) => Ok((seq!['#'] + h, k + 1)),
        TokenV::Str(v) => Ok((v, k + 1)),
        TokenV::Number(n) => match tok(toks, k + 1) {
            TokenV::Ident(u) => Ok((n + u, k + 2)),
            _ => Ok((n, k + 1)),
        },
        _ => Err(k),
    }
}

/// `ident ':' value ';'`; the `;` may be left out before the closing `}`.
pub open spec fn parse_decl(toks: Seq<TokenV>, k: int) -> Result<(DeclarationV, int), int> {
    match tok(toks, k) {
        TokenV::Ident(name) => if tok(toks, k + 1) != TokenV::Delim(':') {
            Err(k + 1)
        } else {
            match parse_value(toks, k + 2) {
                Err(e) => Err(e),
                Ok((value, e)) => if tok(toks, e) == TokenV::Delim(';') {
                    Ok((DeclarationV { name, value }, e + 1))
                } else if tok(toks, e) == TokenV::Delim('}') {
                    Ok((DeclarationV { name, value }, e))
                } else {
                    Err(e)
                },
            }
        },
        _ => Err(k),
    }
}

/// `declaration* '}'`: the declarations and the position after the `}`.
pub open spec fn parse_decls(toks: Seq<TokenV>, k: int) -> Result<(Seq<DeclarationV>, int), int>
    decreases toks.len() - k,
{
    if k < 0 || k >= toks.len() {
        Err(k)
    } else if tok(toks, k) == TokenV::Delim('}') {
        Ok((Seq::empty(), k + 1))
    } else {
        match parse_decl(toks, k) {
            Err(e) => Err(e),
            Ok((d, e)) => if e <= k || e > toks.len() {
                Err(k)
            } else {
                prepend(seq![d], parse_decls(toks, e))
            },
        }
    }
}

/// `selector-list '{' declaration* '}'`: the rule and the position after
/// it, or the position of the first unexpected token.
pub open spec fn parse_rule(toks: Seq<TokenV>, p: int) -> Result<(RuleV, int), int> {
    match parse_selectors(toks, p) {
        Err(e) => Err(e),
        Ok((ss, q)) => if tok(toks, q) != TokenV::Delim('{') {
            Err(q)
        } else {
            match parse_decls(toks, q + 1) {
                Err(e) => Err(e),
                Ok((ds, e)) => Ok((RuleV { selectors: ss, declarations: ds }, e)),
            }
        },
    }
}

/// The position after the first `}` at or after `e`, or the end.
pub open spec fn skip_block(toks: Seq<TokenV>, e: int) -> int
    decreases toks.len() - e,
{
    if e < 0 || e >= toks.len() {
        toks.len() as int
    } else if toks[e] == TokenV::Delim('}') {
        e + 1
    } else {
        skip_block(toks, e + 1)
    }
}

/// Where parsing resumes after the rule attempt at `p`, and the rule when
/// the attempt succeeded.
pub open spec fn rule_step(toks: Seq<TokenV>, p: int) -> (Option<RuleV>, int) {
    match parse_rule(toks, p) {
        Ok((r, q)) => (Some(r), q),
        Err(e) => (None, skip_block(toks, e)),
    }
}

/// The rules from `p` on, in source order, malformed ones left out.
pub open spec fn parse_sheet(toks: Seq<TokenV>, p: int) -> Seq<RuleV>
    decreases toks.len() - p,
{
    let (r, q) = rule_step(toks, p);
    if p < 0 || p >= toks.len() || q <= p || q > toks.len() {
        Seq::empty()
    } else {
        match r {
            Some(rule) => seq![rule] + parse_sheet(toks, q),
            None => parse_sheet(toks, q),
        }
    }
}

/// The end of the top-level block that starts at `p`: just after the first
/// `}` at or after `p`, or the end of the tokens.
pub open spec fn block_end(toks: Seq<TokenV>, p: int) -> int
    decreases toks.len() - p,
{
    if p < 0 || p >= toks.len() {
        toks.len() as int
    } else if toks[p] == TokenV::Delim('}') {
        p + 1
    } else {
        block_end(toks, p + 1)
    }
}

/// A top-level block is well formed when the rule grammar accepts it from
/// its first token.
pub open spec fn well_formed_block(toks: Seq<TokenV>, p: int) -> bool {
    parse_rule(toks, p) is Ok
}

/// How many of the top-level blocks from `p` on (the tokens cut after each
/// `}`) are well formed.
pub open spec fn valid_rule_blocks(toks: Seq<TokenV>, p: int) -> nat
    decreases toks.len() - p,
{
    if p < 0 || p >= toks.len() {
        0
    } else {
        let q = block_end(toks, p);
        if q <= p || q > toks.len() {
            0
        } else {
            (if well_formed_block(toks, p) {
                1nat
            } else {
                0nat
            }) + valid_rule_blocks(toks, q)
        }
    }
}

/// The stylesheet that a CSS text yields.
pub open spec fn parse_model(css: Seq<char>) -> Seq<RuleV> {
    parse_sheet(css_tokenize(css), 0)
}

proof fn lemma_prepend_push<T>(acc: Seq<T>, x: T, r: Result<(Seq<T>, int), int>)
    ensures
        prepend(acc, prepend(seq![x], r)) == prepend(acc.push(x), r),
{
    match r {
        Ok((xs, e)) => {
            assert(acc + (seq![x] + xs) =~= acc.push(x) + xs);
        },
        Err(_) => {},
    }
}

pub open spec fn tokens_view(v: Seq<Token>) -> Seq<TokenV> {
    Seq::new(v.len(), |i: int| v[i]@)
}

pub struct Parser {
    tokens: Vec<Token>,
    pos: usize,
}

impl Parser {
    pub closed spec fn tokens(&self) -> Seq<TokenV> {
        tokens_view(self.tokens@)
    }

    pub closed spec fn position(&self) -> int {
        self.pos as int
    }

    pub fn new(input: &str) -> (r: Self)
        ensures
            r.tokens() == css_tokenize(input@),
            r.position() == 0,
    {
        let tokens = tokenize(input);
        Parser { tokens, pos: 0 }
    }

    fn is_delim(&self, i: usize, c: char) -> (r: bool)
        ensures
            r == (tok(self.tokens(), i as int) == TokenV::Delim(c)),
    {
        if i < self.tokens.len() {
            match &self.tokens[i] {
                Token::Delim(d) => *d == c,
                _ => false,
            }
        } else {
            false
        }
    }

    fn ident_at(&self, i: usize) -> (r: Option<String>)
        ensures
            match tok(self.tokens(), i as int) {
                TokenV::Ident(n) => r is Some && r->0@ == n,
                _ => r is None,
            },
    {
        if i < self.tokens.len() {
            match &self.tokens[i] {
                Token::Ident(n) => Some(n.clone()),
                _ => None,
            }
        } else {
            None
        }
    }

    fn parse_classes(&self, k0: usize) -> (r: Result<(Vec<String>, usize), usize>)
        requires
            k0 <= self.tokens().len(),
        ensures
            match parse_classes(self.tokens(), k0 as int) {
                Ok((cs, e)) => r is Ok && strings_view(r->Ok_0.0@) == cs && r->Ok_0.1 == e,
                Err(e) => r is Err && r->Err_0 == e,
            },
    {
        let n = self.tokens.len();
        proof {
            assert(n == self.tokens().len());
        }
        let ghost toks = self.tokens();
        let mut acc: Vec<String> = Vec::new();
        let mut k = k0;
        while self.is_delim(k, '.')
            invariant
                toks == self.tokens(),
                n == toks.len(),
                k0 <= k <= toks.len(),
                parse_classes(toks, k0 as int) == prepend(
                    strings_view(acc@),
                    parse_classes(toks, k as int),
                ),
            decreases toks.len() - k,
        {
            match self.ident_at(k + 1) {
                Some(c) => {
                    let ghost before = strings_view(acc@);
                    acc.push(c);
                    assert(strings_view(acc@) =~= before.push(c@));
                    proof {
                        lemma_prepend_push(before, c@, parse_classes(toks, k + 2));
                    }
                    k = k + 2;
                },
                None => {
                    return Err(k + 1);
                },
            }
        }
        assert(strings_view(acc@) + Seq::empty() =~= strings_view(acc@));
        Ok((acc, k))
    }

    fn parse_simple(&self, p: usize) -> (r: Result<(SimpleSelector, usize), usize>)
        requires
            p <= self.tokens().len(),
        ensures
            match parse_simple(self.tokens(), p as int) {
                Ok((s, e)) => r is Ok && r->Ok_0.0@ == s && r->Ok_0.1 == e,
                Err(e) => r is Err && r->Err_0 == e,
            },
    {
        let n = self.tokens.len();
        proof {
            assert(n == self.tokens().len());
        }
        let tag_name = self.ident_at(p);
        let after_tag = if tag_name.is_some() { p + 1 } else { p };
        let id = if after_tag < self.tokens.len() {
            match &self.tokens[after_tag] {
                Token::Hash(h) => Some(h.clone()),
                _ => None,
            }
        } else {
            None
        };
        let after_id = if id.is_some() { after_tag + 1 } else { after_tag };
        match self.parse_classes(after_id) {
            Err(e) => Err(e),
            Ok((class, after_classes)) => {
                if after_classes == p {
                    Err(p)
                } else {
                    Ok((SimpleSelector { tag_name, id, class }, after_classes))
                }
            },
        }
    }

    fn parse_selectors(&self, from: usize) -> (r: Result<(Vec<Selector>, usize), usize>)
        requires
            from <= self.tokens().len(),
        ensures
            match parse_selectors(self.tokens(), from as int) {
                Ok((ss, e)) => r is Ok && selectors_view(r->Ok_0.0@) == ss && r->Ok_0.1 == e,
                Err(e) => r is Err && r->Err_0 == e,
            },
    {
        let n = self.tokens.len();
        proof {
            assert(n == self.tokens().len());
        }
        let ghost toks = self.tokens();
        let mut acc: Vec<Selector> = Vec::new();
        let mut p = from;
        loop
            invariant
                toks == self.tokens(),
                n == toks.len(),
                from <= p <= toks.len(),
                parse_selectors(toks, from as int) == prepend(
                    selectors_view(acc@),
                    parse_selectors(toks, p as int),
                ),
            decreases toks.len() - p,
        {
            match self.parse_simple(p) {
                Err(e) => {
                    return Err(e);
                },
                Ok((s, q)) => {
                    if q <= p || q > self.tokens.len() {
                        return Err(p);
                    }
                    let ghost before = selectors_view(acc@);
                    let ghost sv = s@;
                    acc.push(Selector::Simple(s));
                    assert(selectors_view(acc@) =~= before.push(sv));
                    if self.is_delim(q, ',') {
                        proof {
                            lemma_prepend_push(before, sv, parse_selectors(toks, q + 1));
                        }
                        p = q + 1;
                    } else {
                        assert(before + seq![sv] =~= before.push(sv));
                        return Ok((acc, q));
                    }
                },
            }
        }
    }

    fn parse_value(&self, k: usize) -> (r: Result<(String, usize), usize>)
        requires
            k <= self.tokens().len(),
        ensures
            match parse_value(self.tokens(), k as int) {
                Ok((v, e)) => r is Ok && r->Ok_0.0@ == v && r->Ok_0.1 == e,
                Err(e) => r is Err && r->Err_0 == e,
            },
    {
        let n = self.tokens.len();
        proof {
            assert(n == self.tokens().len());
        }
        if k >= self.tokens.len() {
            return Err(k);
        }
        match &self.tokens[k] {
            Token::Ident(v) => Ok((v.clone(), k + 1)),
            Token::Hash(h) => {
                let mut v = String::new();
                v.push('#');
                push_text(&mut v, h.as_str());
                Ok((v, k + 1))
            },
            Token::String(v) => Ok((v.clone(), k + 1)),
            Token::Number(n) => {
                match self.ident_at(k + 1) {
                    Some(u) => {
                        let mut v = n.clone();
                        push_text(&mut v, u.as_str());
                        Ok((v, k + 2))
                    },
                    None => Ok((n.clone(), k + 1)),
                }
            },
            _ => Err(k),
        }
    }

    fn parse_decl(&self, k: usize) -> (r: Result<(Declaration, usize), usize>)
        requires
            k < self.tokens().len(),
        ensures
            match parse_decl(self.tokens(), k as int) {
                Ok((d, e)) => r is Ok && r->Ok_0.0@ == d && r->Ok_0.1 == e,
                Err(e) => r is Err && r->Err_0 == e,
            },
    {
        let n = self.tokens.len();
        proof {
            assert(n == self.tokens().len());
        }
        match self.ident_at(k) {
            None => Err(k),
            Some(name) => {
                if !self.is_delim(k + 1, ':') {
                    return Err(k + 1);
                }
                match self.parse_value(k + 2) {
                    Err(e) => Err(e),
                    Ok((value, e)) => {
                        if self.is_delim(e, ';') {
                            Ok((Declaration { name, value }, e + 1))
                        } else if self.is_delim(e, '}') {
                            Ok((Declaration { name, value }, e))
                        } else {
                            Err(e)
                        }
                    },
                }
            },
        }
    }

    fn parse_declarations(&self, k0: usize) -> (r: Result<(Vec<Declaration>, usize), usize>)
        requires
            k0 <= self.tokens().len(),
        ensures
            match parse_decls(self.tokens(), k0 as int) {
                Ok((ds, e)) => r is Ok && declarations_view(r->Ok_0.0@) == ds && r->Ok_0.1 == e,
                Err(e) => r is Err && r->Err_0 == e,
            },
    {
        let n = self.tokens.len();
        proof {
            assert(n == self.tokens().len());
        }
        let ghost toks = self.tokens();
        let mut acc: Vec<Declaration> = Vec::new();
        let mut k = k0;
        loop
            invariant
                toks == self.tokens(),
                n == toks.len(),
                k0 <= k <= toks.len(),
                parse_decls(toks, k0 as int) == prepend(
                    declarations_view(acc@),
                    parse_decls(toks, k as int),
                ),
            decreases toks.len() - k,
        {
            if k >= self.tokens.len() {
                return Err(k);
            }
            if self.is_delim(k, '}') {
                assert(declarations_view(acc@) + Seq::empty() =~= declarations_view(acc@));
                return Ok((acc, k + 1));
            }
            match self.parse_decl(k) {
                Err(e) => {
                    return Err(e);
                },
                Ok((d, e)) => {
                    if e <= k || e > self.tokens.len() {
                        return Err(k);
                    }
                    let ghost before = declarations_view(acc@);
                    let ghost dv = d@;
                    acc.push(d);
                    assert(declarations_view(acc@) =~= before.push(dv));
                    proof {
                        lemma_prepend_push(before, dv, parse_decls(toks, e as int));
                    }
                    k = e;
                },
            }
        }
    }

    fn parse_rule(&self, p: usize) -> (r: Result<(Rule, usize), usize>)
        requires
            p <= self.tokens().len(),
        ensures
            match parse_rule(self.tokens(), p as int) {
                Ok((rule, e)) => r is Ok && r->Ok_0.0@ == rule && r->Ok_0.1 == e,
                Err(e) => r is Err && r->Err_0 == e,
            },
    {
        let n = self.tokens.len();
        proof {
            assert(n == self.tokens().len());
        }
        match self.parse_selectors(p) {
            Err(e) => Err(e),
            Ok((selectors, q)) => {
                if !self.is_delim(q, '{') {
                    return Err(q);
                }
                match self.parse_declarations(q + 1) {
                    Err(e) => Err(e),
                    Ok((declarations, e)) => Ok((Rule { selectors, declarations }, e)),
                }
            },
        }
    }

    fn skip_block(&self, e0: usize) -> (r: usize)
        ensures
            r == skip_block(self.tokens(), e0 as int),
    {
        let n = self.tokens.len();
        let mut e = e0;
        while e < n
            invariant
                n == self.tokens().len(),
                skip_block(self.tokens(), e as int) == skip_block(self.tokens(), e0 as int),
            decreases n - e,
        {
            if self.is_delim(e, '}') {
                return e + 1;
            }
            e = e + 1;
        }
        n
    }

    /// Parses every rule from the current position to the end.
    pub fn parse_stylesheet(&mut self) -> (r: Stylesheet)
        requires
            old(self).position() <= old(self).tokens().len(),
        ensures
            r@ == parse_sheet(old(self).tokens(), old(self).position()),
            final(self).tokens() == old(self).tokens(),
            final(self).position() == final(self).tokens().len(),
    {
        let ghost toks = self.tokens();
        let ghost from = self.pos as int;
        let mut rules: Vec<Rule> = Vec::new();
        while self.pos < self.tokens.len()
            invariant
                toks == self.tokens(),
                self.pos <= toks.len(),
                parse_sheet(toks, from) == rules_view(rules@) + parse_sheet(toks, self.pos as int),
            decreases toks.len() - self.pos,
        {
            let p = self.pos;
            let (rule, q) = match self.parse_rule(p) {
                Ok((rule, q)) => (Some(rule), q),
                Err(e) => (None, self.skip_block(e)),
            };
            if q <= p || q > self.tokens.len() {
                assert(parse_sheet(toks, p as int) == Seq::<RuleV>::empty());
                self.pos = self.tokens.len();
                assert(parse_sheet(toks, self.pos as int) == Seq::<RuleV>::empty());
            } else {
                match rule {
                    Some(rule) => {
                        let ghost before = rules_view(rules@);
                        let ghost rv = rule@;
                        rules.push(rule);
                        assert(rules_view(rules@) =~= before.push(rv));
                        assert(before + (seq![rv] + parse_sheet(toks, q as int)) =~= before.push(
                            rv,
                        ) + parse_sheet(toks, q as int));
                    },
                    None => {},
                }
                self.pos = q;
            }
        }
        assert(parse_sheet(toks, self.pos as int) == Seq::<RuleV>::empty());
        assert(rules_view(rules@) + Seq::<RuleV>::empty() =~= rules_view(rules@));
        Stylesheet { rules }
    }
}

/// For every CSS text, the stylesheet holds exactly as many rules as the
/// text has well-formed top-level rule blocks.
/// No `}` stands in `[a, b)`.
pub open spec fn no_close(toks: Seq<TokenV>, a: int, b: int) -> bool {
    a <= b && forall|i: int| a <= i < b ==> tok(toks, i) != TokenV::Delim('}')
}

pub open spec fn stays_in_block<T>(toks: Seq<TokenV>, k: int, r: Result<(T, int), int>) -> bool {
    match r {
        Ok((_, e)) => no_close(toks, k, e),
        Err(e) => no_close(toks, k, e),
    }
}

proof fn lemma_classes_in_block(toks: Seq<TokenV>, k: int)
    ensures
        stays_in_block(toks, k, parse_classes(toks, k)),
    decreases toks.len() - k,
{
    if tok(toks, k) == TokenV::Delim('.') {
        if let TokenV::Ident(_) = tok(toks, k + 1) {
            lemma_classes_in_block(toks, k + 2);
        }
    }
}

proof fn lemma_simple_in_block(toks: Seq<TokenV>, p: int)
    ensures
        stays_in_block(toks, p, parse_simple(toks, p)),
{
    let after_tag = match tok(toks, p) {
        TokenV::Ident(_) => p + 1,
        _ => p,
    };
    let after_id = match tok(toks, after_tag) {
        TokenV::Hash(_) => after_tag + 1,
        _ => after_tag,
    };
    lemma_classes_in_block(toks, after_id);
}

proof fn lemma_selectors_in_block(toks: Seq<TokenV>, p: int)
    ensures
        stays_in_block(toks, p, parse_selectors(toks, p)),
    decreases toks.len() - p,
{
    lemma_simple_in_block(toks, p);
    if let Ok((_, q)) = parse_simple(toks, p) {
        if !(q <= p || q > toks.len()) && tok(toks, q) == TokenV::Delim(',') {
            lemma_selectors_in_block(toks, q + 1);
        }
    }
}

proof fn lemma_decl_in_block(toks: Seq<TokenV>, k: int)
    ensures
        stays_in_block(toks, k, parse_decl(toks, k)),
{
}

proof fn lemma_decls_in_block(toks: Seq<TokenV>, k: int)
    requires
        0 <= k,
    ensures
        match parse_decls(toks, k) {
            Ok((_, e)) => k < e && tok(toks, e - 1) == TokenV::Delim('}') && no_close(toks, k, e - 1),
            Err(e) => no_close(toks, k, e),
        },
    decreases toks.len() - k,
{
    if !(k < 0 || k >= toks.len()) && tok(toks, k) != TokenV::Delim('}') {
        lemma_decl_in_block(toks, k);
        if let Ok((_, e)) = parse_decl(toks, k) {
            if !(e <= k || e > toks.len()) {
                lemma_decls_in_block(toks, e);
            }
        }
    }
}

proof fn lemma_rule_in_block(toks: Seq<TokenV>, p: int)
    requires
        0 <= p,
    ensures
        match parse_rule(toks, p) {
            Ok((_, q)) => p < q && tok(toks, q - 1) == TokenV::Delim('}') && no_close(toks, p, q - 1),
            Err(e) => no_close(toks, p, e),
        },
{
    lemma_selectors_in_block(toks, p);
    if let Ok((_, q)) = parse_selectors(toks, p) {
        if tok(toks, q) == TokenV::Delim('{') {
            lemma_decls_in_block(toks, q + 1);
        }
    }
}

proof fn lemma_block_end_skip(toks: Seq<TokenV>, a: int, b: int)
    requires
        0 <= a,
        no_close(toks, a, b),
        b <= toks.len(),
    ensures
        block_end(toks, a) == block_end(toks, b),
        block_end(toks, b) == skip_block(toks, b),
    decreases b - a,
{
    if a < b {
        assert(tok(toks, a) != TokenV::Delim('}'));
        lemma_block_end_skip(toks, a + 1, b);
    } else {
        lemma_block_end_is_skip(toks, b);
    }
}

proof fn lemma_block_end_is_skip(toks: Seq<TokenV>, e: int)
    ensures
        block_end(toks, e) == skip_block(toks, e),
    decreases toks.len() - e,
{
    if 0 <= e < toks.len() && toks[e] != TokenV::Delim('}') {
        lemma_block_end_is_skip(toks, e + 1);
    }
}

proof fn lemma_block_end_bounds(toks: Seq<TokenV>, p: int)
    requires
        0 <= p < toks.len(),
    ensures
        p < block_end(toks, p) <= toks.len(),
    decreases toks.len() - p,
{
    if toks[p] != TokenV::Delim('}') {
        if p + 1 < toks.len() {
            lemma_block_end_bounds(toks, p + 1);
        } else {
            assert(block_end(toks, p + 1) == toks.len());
        }
    }
}

/// Each attempt at a rule covers exactly one top-level block.
proof fn lemma_rule_step_is_block(toks: Seq<TokenV>, p: int)
    requires
        0 <= p < toks.len(),
    ensures
        rule_step(toks, p).1 == block_end(toks, p),
        (rule_step(toks, p).0 is Some) == well_formed_block(toks, p),
{
    lemma_rule_in_block(toks, p);
    match parse_rule(toks, p) {
        Ok((_, q)) => {
            assert(q - 1 < toks.len());
            lemma_block_end_skip(toks, p, q - 1);
        },
        Err(e) => {
            if e > toks.len() {
                assert(tok(toks, toks.len() as int) != TokenV::Delim('}'));
                lemma_block_end_skip(toks, p, toks.len() as int);
                assert(block_end(toks, toks.len() as int) == toks.len());
            } else {
                lemma_block_end_skip(toks, p, e);
            }
        },
    }
}

/// The stylesheet holds one rule for each well-formed top-level block.
pub proof fn lemma_rule_count(toks: Seq<TokenV>, p: int)
    ensures
        parse_sheet(toks, p).len() == valid_rule_blocks(toks, p),
    decreases toks.len() - p,
{
    if 0 <= p < toks.len() {
        lemma_rule_step_is_block(toks, p);
        lemma_block_end_bounds(toks, p);
        lemma_rule_count(toks, block_end(toks, p));
    }
}

} // verus!

//! Style resolution: which rules match an element, and the cascade that
//! picks each property's value.
use vstd::prelude::*;
use crate::dom::{Attribute, ElementData, ElementV, attrs_view};
use crate::stylesheet::{
    Stylesheet,
    Rule,
    Selector,
    SimpleSelector,
    Declaration,
    SelectorV,
    DeclarationV,
    RuleV,
    declarations_view,
};
use crate::text::{white_space, chars_of, is_white_space, same_text};

verus! {

/// The value of the first attribute with the name, if any.
pub open spec fn attr_from(a: Seq<(Seq<char>, Seq<char>)>, name: Seq<char>, i: int) -> Option<
    Seq<char>,
>
    decreases a.len() - i,
{
    if i < 0 || i >= a.len() {
        None
    } else if a[i].0 == name {
        Some(a[i].1)
    } else {
        attr_from(a, name, i + 1)
    }
}

pub open spec fn attr_value(e: ElementV, name: Seq<char>) -> Option<Seq<char>> {
    attr_from(e.attrs, name, 0)
}

/// The first position at or after `i` that is not whitespace.
pub open spec fn skip_space(v: Seq<char>, i: int) -> int
    decreases v.len() - i,
{
    if i < 0 || i >= v.len() || !white_space(v[i]) {
        i
    } else {
        skip_space(v, i + 1)
    }
}

/// The first position at or after `i` that is whitespace, or the end.
pub open spec fn word_end(v: Seq<char>, i: int) -> int
    decreases v.len() - i,
{
    if i < 0 || i >= v.len() || white_space(v[i]) {
        i
    } else {
        word_end(v, i + 1)
    }
}

/// Whether `c` is one of the whitespace-separated words of `v` from `i` on.
pub open spec fn has_word_from(v: Seq<char>, c: Seq<char>, i: int) -> bool
    decreases v.len() - i,
{
    let s = skip_space(v, i);
    if i < 0 || s < i || s >= v.len() {
        false
    } else {
        let e = word_end(v, s);
        if e <= s || e > v.len() {
            false
        } else {
            v.subrange(s, e) == c || has_word_from(v, c, e)
        }
    }
}

/// The class names of an element: the words of its `class` attribute.
pub open spec fn has_class(e: ElementV, c: Seq<char>) -> bool {
    match attr_value(e, "class"@) {
        Some(v) => has_word_from(v, c, 0),
        None => false,
    }
}

/// A simple selector matches an element when each part it gives agrees.
pub open spec fn selector_matches(s: SelectorV, e: ElementV) -> bool {
    &&& (s.tag is None || s.tag == Some(e.tag))
    &&& (s.id is None || attr_value(e, "id"@) == s.id)
    &&& forall|k: int| 0 <= k < s.classes.len() ==> has_class(e, #[trigger] s.classes[k])
}

/// (ids, classes, tags), compared in that order.
pub type Specificity = (usize, usize, usize);

pub open spec fn spec_specificity(s: SelectorV) -> Specificity {
    (
        if s.id is Some { 1 } else { 0 },
        s.classes.len() as usize,
        if s.tag is Some { 1 } else { 0 },
    )
}

/// `a` weighs at least as much as `b`.
pub open spec fn weighs_at_least(a: Specificity, b: Specificity) -> bool {
    a.0 > b.0 || (a.0 == b.0 && (a.1 > b.1 || (a.1 == b.1 && a.2 >= b.2)))
}

/// The heaviest specificity among the selectors that match, if any does.
pub open spec fn best_match(ss: Seq<SelectorV>, e: ElementV) -> Option<Specificity>
    decreases ss.len(),
{
    if ss.len() == 0 {
        None
    } else {
        let prev = best_match(ss.drop_last(), e);
        let s = ss.last();
        if selector_matches(s, e) && (prev is None || !weighs_at_least(
            prev->0,
            spec_specificity(s),
        )) {
            Some(spec_specificity(s))
        } else {
            prev
        }
    }
}

/// A declaration that applies to an element, with the weight of its rule.
pub ghost struct Candidate {
    pub weight: Specificity,
    pub decl: DeclarationV,
}

pub open spec fn weighted(sp: Specificity, ds: Seq<DeclarationV>) -> Seq<Candidate> {
    Seq::new(ds.len(), |i: int| Candidate { weight: sp, decl: ds[i] })
}

/// The declarations of the matching rules, in source order.
pub open spec fn candidates(rules: Seq<RuleV>, e: ElementV) -> Seq<Candidate>
    decreases rules.len(),
{
    if rules.len() == 0 {
        Seq::empty()
    } else {
        let r = rules.last();
        candidates(rules.drop_last(), e) + match best_match(r.selectors, e) {
            Some(sp) => weighted(sp, r.declarations),
            None => Seq::empty(),
        }
    }
}

/// The cascade: among the candidates for a property, the heaviest wins,
/// and among equally heavy ones the last in source order.
pub open spec fn winner(cs: Seq<Candidate>, prop: Seq<char>) -> Option<Candidate>
    decreases cs.len(),
{
    if cs.len() == 0 {
        None
    } else {
        let w = winner(cs.drop_last(), prop);
        let c = cs.last();
        if c.decl.name == prop && (w is None || weighs_at_least(c.weight, w->0.weight)) {
            Some(c)
        } else {
            w
        }
    }
}

/// Properties whose value passes from parent to child when no rule sets it.
pub open spec fn inheritable(p: Seq<char>) -> bool {
    p == "color"@ || p == "font-family"@ || p == "font-size"@ || p == "font-style"@ || p
        == "font-weight"@ || p == "line-height"@ || p == "text-align"@ || p == "visibility"@
}

/// The index of the last entry for a property, or -1.
pub open spec fn last_index(ds: Seq<DeclarationV>, p: Seq<char>) -> int
    decreases ds.len(),
{
    if ds.len() == 0 {
        -1
    } else if ds.last().name == p {
        ds.len() - 1
    } else {
        last_index(ds.drop_last(), p)
    }
}

/// The value a list of entries gives a property: its last entry wins.
pub open spec fn lookup(ds: Seq<DeclarationV>, p: Seq<char>) -> Option<Seq<char>> {
    let i = last_index(ds, p);
    if 0 <= i < ds.len() {
        Some(ds[i].value)
    } else {
        None
    }
}

/// The computed value of a property on an element, given the rules and the
/// parent's computed style.
pub open spec fn computed_value(
    e: ElementV,
    rules: Seq<RuleV>,
    parent: Seq<DeclarationV>,
    p: Seq<char>,
) -> Option<Seq<char>> {
    match winner(candidates(rules, e), p) {
        Some(c) => Some(c.decl.value),
        None => if inheritable(p) {
            lookup(parent, p)
        } else {
            None
        },
    }
}

/// The properties that were set on a node or inherited by it; a property
/// that is absent has its initial value.
pub struct ComputedStyle {
    pub values: Vec<Declaration>,
}

impl ComputedStyle {
    pub open spec fn view(&self) -> Seq<DeclarationV> {
        declarations_view(self.values@)
    }

    /// A style with nothing set.
    pub fn new() -> (r: Self)
        ensures
            r@ == Seq::<DeclarationV>::empty(),
    {
        let r = ComputedStyle { values: Vec::new() };
        assert(r@ =~= Seq::<DeclarationV>::empty());
        r
    }

    /// The value set for a property, if any.
    pub fn value(&self, prop: &str) -> (r: Option<String>)
        ensures
            match lookup(self@, prop@) {
                Some(v) => r is Some && r->0@ == v,
                None => r is None,
            },
    {
        let i = self.last_index_of(prop);
        if i < self.values.len() {
            Some(self.values[i].value.clone())
        } else {
            None
        }
    }

    /// The index of the last entry for the property, or the length.
    fn last_index_of(&self, prop: &str) -> (r: usize)
        ensures
            r < self.values@.len() ==> r == last_index(self@, prop@),
            r >= self.values@.len() ==> last_index(self@, prop@) == -1,
    {
        index_of_last(&self.values, prop)
    }
}

fn index_of_last(ds: &Vec<Declaration>, prop: &str) -> (r: usize)
    ensures
        r < ds@.len() ==> r == last_index(declarations_view(ds@), prop@),
        r >= ds@.len() ==> last_index(declarations_view(ds@), prop@) == -1,
{
    let n = ds.len();
    let mut i = n;
    proof {
        lemma_take_full(declarations_view(ds@));
    }
    while i > 0
        invariant
            i <= n == ds@.len(),
            last_index(declarations_view(ds@), prop@) == last_index(
                declarations_view(ds@).take(i as int),
                prop@,
            ),
        decreases i,
    {
        let ghost v = declarations_view(ds@).take(i as int);
        assert(v.drop_last() =~= declarations_view(ds@).take(i - 1));
        if same_text(ds[i - 1].name.as_str(), prop) {
            return i - 1;
        }
        i = i - 1;
    }
    assert(declarations_view(ds@).take(0) =~= Seq::<DeclarationV>::empty());
    n
}

proof fn lemma_take_full<T>(s: Seq<T>)
    ensures
        s.take(s.len() as int) == s,
{
    assert(s.take(s.len() as int) =~= s);
}

/// The value of the first attribute with the given name.
pub fn attribute<'a>(attrs: &'a Vec<Attribute>, name: &str) -> (r: Option<&'a String>)
    ensures
        match attr_from(attrs_view(attrs@), name@, 0) {
            Some(v) => r is Some && r->0@ == v,
            None => r is None,
        },
{
    let n = attrs.len();
    let mut i: usize = 0;
    while i < n
        invariant
            n == attrs@.len(),
            i <= n,
            attr_from(attrs_view(attrs@), name@, 0) == attr_from(
                attrs_view(attrs@),
                name@,
                i as int,
            ),
        decreases n - i,
    {
        if same_text(attrs[i].name.as_str(), name) {
            return Some(&attrs[i].value);
        }
        i = i + 1;
    }
    None
}

fn chars_equal(v: &Vec<char>, lo: usize, hi: usize, c: &Vec<char>) -> (r: bool)
    requires
        lo <= hi <= v@.len(),
    ensures
        r == (v@.subrange(lo as int, hi as int) == c@),
{
    if hi - lo != c.len() {
        return false;
    }
    let mut k: usize = 0;
    while k < c.len()
        invariant
            lo <= hi <= v@.len(),
            hi - lo == c@.len(),
            k <= c@.len(),
            forall|j: int| 0 <= j < k ==> v@[lo + j] == c@[j],
        decreases c@.len() - k,
    {
        if v[lo + k] != c[k] {
            return false;
        }
        k = k + 1;
    }
    assert(v@.subrange(lo as int, hi as int) =~= c@);
    true
}

/// Whether `word` is one of the whitespace-separated words of `text`.
pub fn has_word(text: &str, word: &str) -> (r: bool)
    ensures
        r == has_word_from(text@, word@, 0),
{
    let v = chars_of(text);
    let c = chars_of(word);
    let n = v.len();
    let mut i: usize = 0;
    while i < n
        invariant
            n == v@.len(),
            v@ == text@,
            c@ == word@,
            i <= n,
            has_word_from(v@, c@, 0) == has_word_from(v@, c@, i as int),
        decreases n - i,
    {
        let mut s = i;
        while s < n && is_white_space(v[s])
            invariant
                i <= s <= n,
                n == v@.len(),
                skip_space(v@, s as int) == skip_space(v@, i as int),
            decreases n - s,
        {
            s = s + 1;
        }
        if s >= n {
            return false;
        }
        let mut e = s;
        while e < n && !is_white_space(v[e])
            invariant
                s <= e <= n,
                n == v@.len(),
                word_end(v@, e as int) == word_end(v@, s as int),
            decreases n - e,
        {
            e = e + 1;
        }
        if chars_equal(&v, s, e, &c) {
            return true;
        }
        i = e;
    }
    false
}

/// Whether a simple selector matches an element.
pub fn matches(selector: &SimpleSelector, element: &ElementData) -> (r: bool)
    ensures
        r == selector_matches(selector@, element@),
{
    match &selector.tag_name {
        Some(t) => {
            if !(*t == element.tag_name) {
                return false;
            }
        },
        None => {},
    }
    match &selector.id {
        Some(id) => {
            match attribute(&element.attributes, "id") {
                Some(v) => {
                    if !(*v == *id) {
                        return false;
                    }
                },
                None => {
                    return false;
                },
            }
        },
        None => {},
    }
    let class_attr = attribute(&element.attributes, "class");
    let n = selector.class.len();
    let mut k: usize = 0;
    while k < n
        invariant
            n == selector.class@.len(),
            k <= n,
            match attr_value(element@, "class"@) {
                Some(v) => class_attr is Some && class_attr->0@ == v,
                None => class_attr is None,
            },
            forall|j: int| 0 <= j < k ==> has_class(element@, #[trigger] selector@.classes[j]),
        decreases n - k,
    {
        match class_attr {
            Some(v) => {
                if !has_word(v.as_str(), selector.class[k].as_str()) {
                    assert(selector@.classes[k as int] == selector.class@[k as int]@);
                    assert(!has_class(element@, selector@.classes[k as int]));
                    return false;
                }
            },
            None => {
                assert(!has_class(element@, selector@.classes[k as int]));
                return false;
            },
        }
        k = k + 1;
    }
    true
}

/// The weight of a simple selector: (ids, classes, tags).
pub fn specificity(selector: &SimpleSelector) -> (r: Specificity)
    ensures
        r == spec_specificity(selector@),
{
    (
        if selector.id.is_some() { 1 } else { 0 },
        selector.class.len(),
        if selector.tag_name.is_some() { 1 } else { 0 },
    )
}

fn at_least(a: Specificity, b: Specificity) -> (r: bool)
    ensures
        r == weighs_at_least(a, b),
{
    a.0 > b.0 || (a.0 == b.0 && (a.1 > b.1 || (a.1 == b.1 && a.2 >= b.2)))
}

/// The heaviest matching selector of a rule, if any matches.
fn rule_weight(rule: &Rule, element: &ElementData) -> (r: Option<Specificity>)
    ensures
        r == best_match(rule@.selectors, element@),
{
    let n = rule.selectors.len();
    let mut best: Option<Specificity> = None;
    let mut i: usize = 0;
    while i < n
        invariant
            n == rule.selectors@.len(),
            i <= n,
            best == best_match(rule@.selectors.take(i as int), element@),
        decreases n - i,
    {
        let ghost ss = rule@.selectors.take(i + 1);
        assert(ss.drop_last() =~= rule@.selectors.take(i as int));
        match &rule.selectors[i] {
            Selector::Simple(s) => {
                if matches(s, element) {
                    let sp = specificity(s);
                    match best {
                        None => {
                            best = Some(sp);
                        },
                        Some(b) => {
                            if !at_least(b, sp) {
                                best = Some(sp);
                            }
                        },
                    }
                }
            },
        }
        i = i + 1;
    }
    proof {
        lemma_take_full(rule@.selectors);
    }
    best
}


pub proof fn lemma_last_index_bounds(ds: Seq<DeclarationV>, p: Seq<char>)
    ensures
        -1 <= last_index(ds, p) < ds.len(),
        last_index(ds, p) >= 0 ==> ds[last_index(ds, p)].name == p,
    decreases ds.len(),
{
    if ds.len() > 0 && ds.last().name != p {
        lemma_last_index_bounds(ds.drop_last(), p);
    }
}

pub proof fn lemma_last_index_push(ds: Seq<DeclarationV>, d: DeclarationV, p: Seq<char>)
    ensures
        last_index(ds.push(d), p) == if d.name == p {
            ds.len() as int
        } else {
            last_index(ds, p)
        },
        lookup(ds.push(d), p) == if d.name == p {
            Some(d.value)
        } else {
            lookup(ds, p)
        },
{
    assert(ds.push(d).drop_last() =~= ds);
    lemma_last_index_bounds(ds, p);
}

pub proof fn lemma_last_index_append(a: Seq<DeclarationV>, b: Seq<DeclarationV>, p: Seq<char>)
    ensures
        last_index(a + b, p) == if last_index(b, p) >= 0 {
            a.len() + last_index(b, p)
        } else {
            last_index(a, p)
        },
        lookup(a + b, p) == if last_index(b, p) >= 0 {
            lookup(b, p)
        } else {
            lookup(a, p)
        },
    decreases b.len(),
{
    lemma_last_index_bounds(a, p);
    lemma_last_index_bounds(b, p);
    if b.len() == 0 {
        assert(a + b =~= a);
    } else {
        assert((a + b).drop_last() =~= a + b.drop_last());
        lemma_last_index_append(a, b.drop_last(), p);
        lemma_last_index_bounds(b.drop_last(), p);
    }
    lemma_last_index_bounds(a + b, p);
}

/// What the cascade has chosen so far: the last entry for the property,
/// with its weight.
pub open spec fn chosen(cd: Seq<DeclarationV>, cw: Seq<Specificity>, p: Seq<char>) -> Option<
    Candidate,
> {
    let i = last_index(cd, p);
    if 0 <= i < cd.len() {
        Some(Candidate { weight: cw[i], decl: cd[i] })
    } else {
        None
    }
}

fn copy_declaration(d: &Declaration) -> (r: Declaration)
    ensures
        r@ == d@,
{
    Declaration { name: d.name.clone(), value: d.value.clone() }
}

fn is_inheritable(p: &str) -> (r: bool)
    ensures
        r == inheritable(p@),
{
    same_text(p, "color") || same_text(p, "font-family") || same_text(p, "font-size")
        || same_text(p, "font-style") || same_text(p, "font-weight") || same_text(
        p,
        "line-height",
    ) || same_text(p, "text-align") || same_text(p, "visibility")
}

/// The entries of the parent's style that children inherit.
pub(crate) fn inherited_values(parent: &ComputedStyle) -> (r: Vec<Declaration>)
    ensures
        forall|p: Seq<char>| #[trigger]
            lookup(declarations_view(r@), p) == if inheritable(p) {
                lookup(parent@, p)
            } else {
                None
            },
{
    let n = parent.values.len();
    let mut out: Vec<Declaration> = Vec::new();
    let mut i: usize = 0;
    while i < n
        invariant
            n == parent.values@.len(),
            i <= n,
            forall|p: Seq<char>| #[trigger]
                lookup(declarations_view(out@), p) == if inheritable(p) {
                    lookup(parent@.take(i as int), p)
                } else {
                    None
                },
        decreases n - i,
    {
        let d = &parent.values[i];
        let ghost before = declarations_view(out@);
        assert(parent@.take(i + 1) =~= parent@.take(i as int).push(d@));
        if is_inheritable(d.name.as_str()) {
            out.push(copy_declaration(d));
            assert(declarations_view(out@) =~= before.push(d@));
        }
        assert forall|p: Seq<char>| #[trigger]
            lookup(declarations_view(out@), p) == if inheritable(p) {
                lookup(parent@.take(i + 1), p)
            } else {
                None
            } by {
            lemma_last_index_push(parent@.take(i as int), d@, p);
            lemma_last_index_push(before, d@, p);
        }
        i = i + 1;
    }
    proof {
        lemma_take_full(parent@);
    }
    out
}

proof fn lemma_chosen_push(
    cd: Seq<DeclarationV>,
    cw: Seq<Specificity>,
    d: DeclarationV,
    w: Specificity,
    p: Seq<char>,
)
    requires
        cd.len() == cw.len(),
    ensures
        chosen(cd.push(d), cw.push(w), p) == if d.name == p {
            Some(Candidate { weight: w, decl: d })
        } else {
            chosen(cd, cw, p)
        },
{
    lemma_last_index_push(cd, d, p);
    lemma_last_index_bounds(cd, p);
}

/// The computed style of an element: each property takes the value of the
/// winning declaration among the matching rules; an inheritable property
/// that no rule sets takes the parent's value; any other is left unset, so
/// that it has its initial value.
pub fn compute_style(element: &ElementData, sheet: &Stylesheet, parent: &ComputedStyle) -> (r:
    ComputedStyle)
    ensures
        forall|p: Seq<char>| #[trigger]
            lookup(r@, p) == computed_value(element@, sheet@, parent@, p),
{
    let ghost rules = sheet@;
    let ghost e = element@;
    let mut cd: Vec<Declaration> = Vec::new();
    let mut cw: Vec<Specificity> = Vec::new();
    let nr = sheet.rules.len();
    let mut i: usize = 0;
    while i < nr
        invariant
            rules == sheet@,
            e == element@,
            nr == rules.len(),
            i <= nr,
            cd@.len() == cw@.len(),
            forall|p: Seq<char>| #[trigger]
                chosen(declarations_view(cd@), cw@, p) == winner(
                    candidates(rules.take(i as int), e),
                    p,
                ),
        decreases nr - i,
    {
        let rule = &sheet.rules[i];
        let ghost before = candidates(rules.take(i as int), e);
        assert(rules.take(i + 1).drop_last() =~= rules.take(i as int));
        assert(rules.take(i + 1).last() == rule@);
        match rule_weight(rule, element) {
            None => {
                assert(candidates(rules.take(i + 1), e) =~= before);
            },
            Some(w) => {
                let ghost ws = weighted(w, rule@.declarations);
                let nd = rule.declarations.len();
                let mut j: usize = 0;
                while j < nd
                    invariant
                        nd == rule.declarations@.len(),
                        ws == weighted(w, rule@.declarations),
                        j <= nd,
                        cd@.len() == cw@.len(),
                        forall|p: Seq<char>| #[trigger]
                            chosen(declarations_view(cd@), cw@, p) == winner(
                                before + ws.take(j as int),
                                p,
                            ),
                    decreases nd - j,
                {
                    let d = &rule.declarations[j];
                    let ghost c = Candidate { weight: w, decl: d@ };
                    assert(ws[j as int] == c);
                    assert((before + ws.take(j as int)).push(c) =~= before + ws.take(j + 1));
                    assert((before + ws.take(j + 1)).drop_last() =~= before + ws.take(j as int));
                    let k = index_of_last(&cd, d.name.as_str());
                    proof {
                        lemma_last_index_bounds(declarations_view(cd@), d@.name);
                    }
                    let take = if k < cd.len() {
                        at_least(w, cw[k])
                    } else {
                        true
                    };
                    let ghost vd = declarations_view(cd@);
                    let ghost vw = cw@;
                    if take {
                        cd.push(copy_declaration(d));
                        cw.push(w);
                        assert(declarations_view(cd@) =~= vd.push(d@));
                    }
                    assert forall|p: Seq<char>| #[trigger]
                        chosen(declarations_view(cd@), cw@, p) == winner(
                            before + ws.take(j + 1),
                            p,
                        ) by {
                        lemma_chosen_push(vd, vw, d@, w, p);
                    }
                    j = j + 1;
                }
                assert(ws.take(nd as int) =~= ws);
                assert(candidates(rules.take(i + 1), e) == before + ws);
            },
        }
        i = i + 1;
    }
    proof {
        lemma_take_full(rules);
    }
    let mut values = inherited_values(parent);
    let ghost inh = declarations_view(values@);
    let nc = cd.len();
    let mut k: usize = 0;
    while k < nc
        invariant
            nc == cd@.len(),
            k <= nc,
            rules == sheet@,
            e == element@,
            cd@.len() == cw@.len(),
            forall|p: Seq<char>| #[trigger]
                chosen(declarations_view(cd@), cw@, p) == winner(candidates(rules, e), p),
            forall|p: Seq<char>| #[trigger]
                lookup(inh, p) == if inheritable(p) {
                    lookup(parent@, p)
                } else {
                    None
                },
            declarations_view(values@) == inh + declarations_view(cd@).take(k as int),
        decreases nc - k,
    {
        let ghost before = declarations_view(values@);
        values.push(copy_declaration(&cd[k]));
        assert(declarations_view(values@) =~= before.push(cd@[k as int]@));
        assert(declarations_view(cd@).take(k + 1) =~= declarations_view(cd@).take(k as int).push(
            cd@[k as int]@,
        ));
        k = k + 1;
    }
    proof {
        lemma_take_full(declarations_view(cd@));
    }
    let r = ComputedStyle { values };
    assert forall|p: Seq<char>| #[trigger]
        lookup(r@, p) == computed_value(element@, sheet@, parent@, p) by {
        lemma_last_index_append(inh, declarations_view(cd@), p);
        lemma_last_index_bounds(declarations_view(cd@), p);
        assert(chosen(declarations_view(cd@), cw@, p) == winner(candidates(rules, e), p));
        assert(lookup(inh, p) == if inheritable(p) {
            lookup(parent@, p)
        } else {
            None
        });
    }
    r
}


/// A rule with one selector and one declaration.
pub open spec fn single_rule(sel: SelectorV, p: Seq<char>, v: Seq<char>) -> RuleV {
    RuleV { selectors: seq![sel], declarations: seq![DeclarationV { name: p, value: v }] }
}

pub open spec fn id_selector(id: Seq<char>) -> SelectorV {
    SelectorV { tag: None, id: Some(id), classes: Seq::empty() }
}

pub open spec fn class_selector(c: Seq<char>) -> SelectorV {
    SelectorV { tag: None, id: None, classes: seq![c] }
}

/// Winner facts: whatever wins is one of the candidates for the property.
pub proof fn lemma_winner_member(cs: Seq<Candidate>, p: Seq<char>)
    ensures
        winner(cs, p) is Some ==> exists|j: int|
            0 <= j < cs.len() && cs[j] == winner(cs, p)->0 && cs[j].decl.name == p,
    decreases cs.len(),
{
    if cs.len() > 0 {
        lemma_winner_member(cs.drop_last(), p);
        let w = winner(cs.drop_last(), p);
        if winner(cs, p) != w {
            assert(cs[cs.len() - 1] == cs.last());
        } else if w is Some {
            let j = choose|j: int|
                0 <= j < cs.drop_last().len() && cs.drop_last()[j] == w->0
                    && cs.drop_last()[j].decl.name == p;
            assert(cs[j] == cs.drop_last()[j]);
        }
    }
}

/// For every list of candidates, a declaration that is strictly heavier
/// than every other declaration of its property wins, wherever it stands.
pub proof fn lemma_heaviest_wins(cs: Seq<Candidate>, i: int, p: Seq<char>)
    requires
        0 <= i < cs.len(),
        cs[i].decl.name == p,
        forall|j: int|
            0 <= j < cs.len() && j != i && #[trigger] cs[j].decl.name == p ==> !weighs_at_least(
                cs[j].weight,
                cs[i].weight,
            ),
    ensures
        winner(cs, p) == Some(cs[i]),
    decreases cs.len(),
{
    let prev = cs.drop_last();
    if i == cs.len() - 1 {
        lemma_winner_member(prev, p);
        if winner(prev, p) is Some {
            let j = choose|j: int|
                0 <= j < prev.len() && prev[j] == winner(prev, p)->0 && prev[j].decl.name == p;
            assert(cs[j] == prev[j]);
        }
    } else {
        assert forall|j: int|
            0 <= j < prev.len() && j != i && #[trigger] prev[j].decl.name == p implies !weighs_at_least(
            prev[j].weight,
            prev[i].weight,
        ) by {
            assert(prev[j] == cs[j]);
        }
        lemma_heaviest_wins(prev, i, p);
        assert(cs.last() == cs[cs.len() - 1]);
    }
}


/// The candidate comes from one of the rules: the rule matches with that
/// weight and holds that declaration.
pub open spec fn from_some_rule(rules: Seq<RuleV>, e: ElementV, c: Candidate) -> bool {
    exists|r: int|
        0 <= r < rules.len() && best_match(rules[r].selectors, e) == Some(c.weight)
            && (#[trigger] rules[r].declarations).contains(c.decl)
}

proof fn lemma_candidates_from_rules(rules: Seq<RuleV>, e: ElementV)
    ensures
        forall|m: int|
            0 <= m < candidates(rules, e).len() ==> from_some_rule(
                rules,
                e,
                #[trigger] candidates(rules, e)[m],
            ),
    decreases rules.len(),
{
    if rules.len() > 0 {
        let prev = rules.drop_last();
        lemma_candidates_from_rules(prev, e);
        let r = rules.last();
        let cp = candidates(prev, e);
        let tail = match best_match(r.selectors, e) {
            Some(sp) => weighted(sp, r.declarations),
            None => Seq::empty(),
        };
        assert(candidates(rules, e) == cp + tail);
        assert forall|m: int| 0 <= m < candidates(rules, e).len() implies from_some_rule(
            rules,
            e,
            #[trigger] candidates(rules, e)[m],
        ) by {
            let c = candidates(rules, e)[m];
            if m < cp.len() {
                assert(c == cp[m]);
                assert(from_some_rule(prev, e, cp[m]));
                let q = choose|q: int|
                    0 <= q < prev.len() && best_match(prev[q].selectors, e) == Some(cp[m].weight)
                        && (#[trigger] prev[q].declarations).contains(cp[m].decl);
                assert(rules[q] == prev[q]);
                assert(rules[q].declarations.contains(c.decl));
            } else {
                let k = m - cp.len();
                assert(c == tail[k]);
                assert(rules[rules.len() - 1] == r);
                assert(r.declarations[k] == c.decl);
                assert(rules[rules.len() - 1].declarations.contains(c.decl));
            }
        }
    }
}

proof fn lemma_rule_candidate_present(rules: Seq<RuleV>, e: ElementV, r: int, k: int)
    requires
        0 <= r < rules.len(),
        best_match(rules[r].selectors, e) is Some,
        0 <= k < rules[r].declarations.len(),
    ensures
        candidates(rules, e).contains(
            Candidate {
                weight: best_match(rules[r].selectors, e)->0,
                decl: rules[r].declarations[k],
            },
        ),
    decreases rules.len(),
{
    let prev = rules.drop_last();
    let cp = candidates(prev, e);
    let last = rules.last();
    let tail = match best_match(last.selectors, e) {
        Some(sp) => weighted(sp, last.declarations),
        None => Seq::empty(),
    };
    assert(candidates(rules, e) == cp + tail);
    let target = Candidate {
        weight: best_match(rules[r].selectors, e)->0,
        decl: rules[r].declarations[k],
    };
    if r < rules.len() - 1 {
        assert(prev[r] == rules[r]);
        lemma_rule_candidate_present(prev, e, r, k);
        let m = choose|m: int| 0 <= m < cp.len() && cp[m] == target;
        assert((cp + tail)[m] == target);
    } else {
        assert((cp + tail)[cp.len() + k] == target);
    }
}

/// When every candidate for a property is either the given heaviest one or
/// strictly lighter, and the heaviest one occurs, it wins.
proof fn lemma_heaviest_kind_wins(cs: Seq<Candidate>, hi: Candidate, p: Seq<char>)
    requires
        hi.decl.name == p,
        cs.contains(hi),
        forall|m: int|
            0 <= m < cs.len() && (#[trigger] cs[m]).decl.name == p ==> cs[m] == hi
                || !weighs_at_least(cs[m].weight, hi.weight),
    ensures
        winner(cs, p) == Some(hi),
    decreases cs.len(),
{
    let prev = cs.drop_last();
    let c = cs.last();
    assert(c == cs[cs.len() - 1]);
    assert forall|m: int|
        0 <= m < prev.len() && (#[trigger] prev[m]).decl.name == p implies prev[m] == hi
        || !weighs_at_least(prev[m].weight, hi.weight) by {
        assert(prev[m] == cs[m]);
    }
    lemma_winner_member(prev, p);
    if prev.contains(hi) {
        lemma_heaviest_kind_wins(prev, hi, p);
    } else {
        let m = choose|m: int| 0 <= m < cs.len() && cs[m] == hi;
        if m < cs.len() - 1 {
            assert(prev[m] == cs[m]);
        }
        assert(c == hi);
        if winner(prev, p) is Some {
            let j = choose|j: int|
                0 <= j < prev.len() && prev[j] == winner(prev, p)->0 && prev[j].decl.name == p;
            assert(prev[j] == cs[j]);
        }
    }
}

/// For every element and every stylesheet holding a rule `#id` and a rule
/// `.cls` that both match the element and each set a property, where no other
/// rule that matches sets it, the `#id` rule's value is the computed value,
/// whichever of the two comes first.
pub proof fn lemma_id_rule_wins(
    rules: Seq<RuleV>,
    e: ElementV,
    i: int,
    j: int,
    id: Seq<char>,
    cls: Seq<char>,
    p: Seq<char>,
    id_value: Seq<char>,
    class_value: Seq<char>,
    parent: Seq<DeclarationV>,
)
    requires
        0 <= i < rules.len(),
        0 <= j < rules.len(),
        rules[i] == single_rule(id_selector(id), p, id_value),
        rules[j] == single_rule(class_selector(cls), p, class_value),
        selector_matches(id_selector(id), e),
        selector_matches(class_selector(cls), e),
        forall|r: int|
            0 <= r < rules.len() && r != i && r != j && best_match(rules[r].selectors, e) is Some
                ==> forall|k: int|
                0 <= k < rules[r].declarations.len() ==> (#[trigger] rules[r].declarations[k]).name
                    != p,
    ensures
        computed_value(e, rules, parent, p) == Some(id_value),
{
    let sel = id_selector(id);
    let hi = Candidate { weight: spec_specificity(sel), decl: DeclarationV { name: p, value: id_value } };
    assert(seq![sel].drop_last() =~= Seq::<SelectorV>::empty());
    assert(seq![sel].last() == sel);
    assert(rules[i].selectors == seq![sel]);
    assert(best_match(rules[i].selectors.drop_last(), e) is None);
    assert(best_match(rules[i].selectors, e) == Some(spec_specificity(sel)));
    let csel = class_selector(cls);
    assert(seq![csel].drop_last() =~= Seq::<SelectorV>::empty());
    assert(seq![csel].last() == csel);
    assert(rules[j].selectors == seq![csel]);
    assert(best_match(rules[j].selectors.drop_last(), e) is None);
    assert(best_match(rules[j].selectors, e) == Some(spec_specificity(csel)));
    lemma_rule_candidate_present(rules, e, i, 0);
    lemma_candidates_from_rules(rules, e);
    let cs = candidates(rules, e);
    assert forall|m: int| 0 <= m < cs.len() && (#[trigger] cs[m]).decl.name == p implies cs[m] == hi
        || !weighs_at_least(cs[m].weight, hi.weight) by {
        assert(from_some_rule(rules, e, cs[m]));
        let r = choose|r: int|
            0 <= r < rules.len() && best_match(rules[r].selectors, e) == Some(cs[m].weight)
                && (#[trigger] rules[r].declarations).contains(cs[m].decl);
        let k = choose|k: int| 0 <= k < rules[r].declarations.len() && rules[r].declarations[k] == cs[m].decl;
        if r != i && r != j {
            assert(rules[r].declarations[k].name != p);
        }
    }
    lemma_heaviest_kind_wins(cs, hi, p);
}

} // verus!

//! The query router: turns free text typed by a user into a destination.
use vstd::prelude::*;
use crate::http::{words_from, words_of, char_lists};
use crate::text::{chars_of, push_text};

verus! {

/// What `str::to_lowercase` gives for a text.
pub uninterp spec fn lower_of(s: Seq<char>) -> Seq<char>;

/// What `str::to_uppercase` gives for a text.
pub uninterp spec fn upper_of(s: Seq<char>) -> Seq<char>;

/// Relies on `str::to_lowercase`: the result depends on the characters
/// alone.
#[verifier::external_body]
fn lowercase(s: &str) -> (r: String)
    ensures
        r@ == lower_of(s@),
{
    s.to_lowercase()
}

/// Relies on `str::to_uppercase`: the result depends on the characters
/// alone.
#[verifier::external_body]
fn uppercase(s: &str) -> (r: String)
    ensures
        r@ == upper_of(s@),
{
    s.to_uppercase()
}

pub enum NavigationAction {
    DirectUrl(String),
    SearchFallback(String),
}

pub ghost enum NavV {
    DirectUrl(Seq<char>),
    SearchFallback(Seq<char>),
}

impl NavigationAction {
    pub open spec fn view(&self) -> NavV {
        match self {
            NavigationAction::DirectUrl(u) => NavV::DirectUrl(u@),
            NavigationAction::SearchFallback(q) => NavV::SearchFallback(q@),
        }
    }
}

/// The word at `i`, or the empty text past the last one.
pub open spec fn w(ps: Seq<Seq<char>>, i: int) -> Seq<char> {
    if 0 <= i < ps.len() {
        ps[i]
    } else {
        Seq::empty()
    }
}

pub open spec fn has(ps: Seq<Seq<char>>, lit: Seq<char>) -> bool {
    exists|i: int| 0 <= i < ps.len() && ps[i] == lit
}

pub open spec fn has_char(s: Seq<char>, c: char) -> bool {
    exists|i: int| 0 <= i < s.len() && s[i] == c
}

pub open spec fn is_prefix(pre: Seq<char>, s: Seq<char>) -> bool {
    pre.len() <= s.len() && s.subrange(0, pre.len() as int) == pre
}

/// The words joined with the separator between each two.
pub open spec fn join_seq(ws: Seq<Seq<char>>, sep: char) -> Seq<char>
    decreases ws.len(),
{
    if ws.len() == 0 {
        Seq::empty()
    } else if ws.len() == 1 {
        ws[0]
    } else {
        join_seq(ws.drop_last(), sep) + seq![sep] + ws.last()
    }
}

/// Every word but the first, joined with the separator.
pub open spec fn joined(ps: Seq<Seq<char>>, sep: char) -> Seq<char> {
    if ps.len() <= 1 {
        Seq::empty()
    } else {
        join_seq(ps.subrange(1, ps.len() as int), sep)
    }
}

fn chars_eq(v: &Vec<char>, lit: &str) -> (r: bool)
    ensures
        r == (v@ == lit@),
{
    let n = v.len();
    if n != lit.unicode_len() {
        return false;
    }
    let mut i: usize = 0;
    while i < n
        invariant
            n == v@.len() == lit@.len(),
            i <= n,
            forall|k: int| 0 <= k < i ==> v@[k] == lit@[k],
        decreases n - i,
    {
        if v[i] != lit.get_char(i) {
            return false;
        }
        i = i + 1;
    }
    assert(v@ =~= lit@);
    true
}

fn word_is(ps: &Vec<Vec<char>>, i: usize, lit: &str) -> (r: bool)
    ensures
        r == (w(char_lists(ps@), i as int) == lit@),
{
    if i < ps.len() {
        assert(char_lists(ps@)[i as int] == ps@[i as int]@);
        chars_eq(&ps[i], lit)
    } else {
        let r = lit.unicode_len() == 0;
        assert(r ==> lit@ =~= Seq::<char>::empty());
        r
    }
}

fn word_starts(ps: &Vec<Vec<char>>, i: usize, lit: &str) -> (r: bool)
    ensures
        r == is_prefix(lit@, w(char_lists(ps@), i as int)),
{
    if i >= ps.len() {
        let r = lit.unicode_len() == 0;
        assert(r ==> Seq::<char>::empty().subrange(0, 0) =~= lit@);
        return r;
    }
    let v = &ps[i];
    assert(char_lists(ps@)[i as int] == v@);
    let m = lit.unicode_len();
    if m > v.len() {
        return false;
    }
    let mut k: usize = 0;
    while k < m
        invariant
            m == lit@.len(),
            m <= v@.len(),
            k <= m,
            i < ps@.len(),
            v@ == w(char_lists(ps@), i as int),
            forall|j: int| 0 <= j < k ==> v@[j] == lit@[j],
        decreases m - k,
    {
        if v[k] != lit.get_char(k) {
            assert(v@.subrange(0, m as int)[k as int] != lit@[k as int]);
            return false;
        }
        k = k + 1;
    }
    assert(v@.subrange(0, m as int) =~= lit@);
    true
}

fn has_word_eq(ps: &Vec<Vec<char>>, lit: &str) -> (r: bool)
    ensures
        r == has(char_lists(ps@), lit@),
{
    let n = ps.len();
    let mut i: usize = 0;
    while i < n
        invariant
            n == ps@.len(),
            i <= n,
            forall|k: int| 0 <= k < i ==> ps@[k]@ != lit@,
        decreases n - i,
    {
        if chars_eq(&ps[i], lit) {
            assert(char_lists(ps@)[i as int] == lit@);
            return true;
        }
        i = i + 1;
    }
    assert forall|k: int| 0 <= k < n implies char_lists(ps@)[k] != lit@ by {
        assert(char_lists(ps@)[k] == ps@[k]@);
    }
    false
}

fn push_chars(s: &mut String, v: &Vec<char>)
    ensures
        final(s)@ == old(s)@ + v@,
{
    let n = v.len();
    let mut i: usize = 0;
    while i < n
        invariant
            n == v@.len(),
            i <= n,
            s@ == old(s)@ + v@.subrange(0, i as int),
        decreases n - i,
    {
        s.push(v[i]);
        assert(s@ =~= old(s)@ + v@.subrange(0, i + 1));
        i = i + 1;
    }
    assert(v@.subrange(0, n as int) =~= v@);
}

fn push_word(s: &mut String, ps: &Vec<Vec<char>>, i: usize)
    requires
        i < ps@.len(),
    ensures
        final(s)@ == old(s)@ + w(char_lists(ps@), i as int),
{
    push_chars(s, &ps[i]);
}

fn word_text(ps: &Vec<Vec<char>>, i: usize) -> (r: String)
    requires
        i < ps@.len(),
    ensures
        r@ == w(char_lists(ps@), i as int),
{
    let mut s = String::new();
    push_chars(&mut s, &ps[i]);
    assert(s@ =~= ps@[i as int]@);
    s
}

fn push_joined(s: &mut String, ps: &Vec<Vec<char>>, sep: char)
    ensures
        final(s)@ == old(s)@ + joined(char_lists(ps@), sep),
{
    let ghost all = char_lists(ps@);
    let n = ps.len();
    if n <= 1 {
        assert(s@ =~= old(s)@ + joined(all, sep));
        return;
    }
    push_chars(s, &ps[1]);
    let ghost rest = all.subrange(1, all.len() as int);
    assert(rest.subrange(0, 1) =~= seq![all[1]]);
    assert(join_seq(rest.subrange(0, 1), sep) == all[1]);
    let mut i: usize = 2;
    while i < n
        invariant
            n == ps@.len(),
            all == char_lists(ps@),
            rest == all.subrange(1, all.len() as int),
            2 <= i <= n,
            s@ == old(s)@ + join_seq(rest.subrange(0, i - 1), sep),
        decreases n - i,
    {
        s.push(sep);
        push_chars(s, &ps[i]);
        let ghost t = rest.subrange(0, i as int);
        assert(t.drop_last() =~= rest.subrange(0, i - 1));
        assert(t.last() == ps@[i as int]@);
        assert(s@ =~= old(s)@ + join_seq(rest.subrange(0, i as int), sep));
        i = i + 1;
    }
    assert(rest.subrange(0, n - 1) =~= rest);
}

fn text_has_char(q: &str, c: char) -> (r: bool)
    ensures
        r == has_char(q@, c),
{
    let n = q.unicode_len();
    let mut i: usize = 0;
    while i < n
        invariant
            n == q@.len(),
            i <= n,
            forall|k: int| 0 <= k < i ==> q@[k] != c,
        decreases n - i,
    {
        if q.get_char(i) == c {
            return true;
        }
        i = i + 1;
    }
    false
}

fn text_starts(q: &str, lit: &str) -> (r: bool)
    ensures
        r == is_prefix(lit@, q@),
{
    let m = lit.unicode_len();
    if m > q.unicode_len() {
        return false;
    }
    let mut k: usize = 0;
    while k < m
        invariant
            m == lit@.len(),
            m <= q@.len(),
            k <= m,
            forall|j: int| 0 <= j < k ==> q@[j] == lit@[j],
        decreases m - k,
    {
        if q.get_char(k) != lit.get_char(k) {
            assert(q@.subrange(0, m as int)[k as int] != lit@[k as int]);
            return false;
        }
        k = k + 1;
    }
    assert(q@.subrange(0, m as int) =~= lit@);
    true
}

/// Where a query is sent: by the rules below, in order, on the words of the
/// lower-cased query; a query that looks like an address goes there; any
/// other is searched for.
pub open spec fn route_model(query: Seq<char>, lowered: Seq<char>) -> NavV {
    let ps = words_from(lowered, 0);
    if (ps.len() >= 2 && (w(ps, 0) == "price"@ || w(ps, 0) == "value"@)) || (ps.len() >= 2 && w(ps, 1) == "price"@) {
        NavV::DirectUrl("https://www.coingecko.com/en/coins/"@ + (if w(ps, 0) == "price"@ { w(ps, 1) } else { w(ps, 0) }))
    } else if ps.len() >= 2 && (w(ps, 0) == "stock"@ || w(ps, 1) == "stock"@) {
        NavV::DirectUrl("https://finance.yahoo.com/quote/"@ + upper_of(if w(ps, 0) == "stock"@ { w(ps, 1) } else { w(ps, 0) }))
    } else if ps.len() >= 3 && (has(ps, "to"@) || w(ps, 0) == "convert"@) {
        NavV::DirectUrl("https://www.xe.com/currencyconverter/"@)
    } else if ps.len() >= 2 && (w(ps, 0) == "weather"@ || w(ps, 0) == "forecast"@) {
        NavV::DirectUrl("https://wttr.in/"@ + w(ps, 1))
    } else if ps.len() >= 2 && (w(ps, 0) == "map"@ || w(ps, 0) == "directions"@) {
        NavV::DirectUrl("https://www.google.com/maps/search/"@ + joined(ps, '+'))
    } else if ps.len() >= 2 && (w(ps, 0) == "symptoms"@ || w(ps, 0) == "disease"@ || w(ps, 0) == "treatment"@) {
        NavV::DirectUrl("https://www.mayoclinic.org/diseases-conditions/"@ + joined(ps, '_'))
    } else if ps.len() >= 2 && (w(ps, 0) == "drug"@ || w(ps, 0) == "medication"@ || w(ps, 0) == "medicine"@) {
        NavV::DirectUrl("https://www.drugs.com/"@ + w(ps, 1))
    } else if ps.len() >= 2 && (w(ps, 0) == "paper"@ || w(ps, 0) == "research"@ || w(ps, 0) == "study"@) {
        NavV::DirectUrl("https://scholar.google.com/scholar?q="@ + joined(ps, '+'))
    } else if ps.len() >= 2 && (w(ps, 0) == "course"@ || w(ps, 0) == "learn"@ || w(ps, 0) == "tutorial"@) {
        NavV::DirectUrl("https://www.coursera.org/search?query="@ + w(ps, 1))
    } else if ps.len() >= 2 && (w(ps, 0) == "movie"@ || w(ps, 0) == "film"@ || w(ps, 0) == "watch"@) {
        NavV::DirectUrl("https://www.imdb.com/find?q="@ + joined(ps, '+'))
    } else if ps.len() >= 2 && (w(ps, 0) == "song"@ || w(ps, 0) == "artist"@ || w(ps, 0) == "album"@ || w(ps, 0) == "music"@) {
        NavV::DirectUrl("https://open.spotify.com/search/"@ + joined(ps, '+'))
    } else if ps.len() >= 2 && (w(ps, 0) == "game"@ || w(ps, 0) == "play"@) {
        NavV::DirectUrl("https://store.steampowered.com/search/?term="@ + joined(ps, '+'))
    } else if ps.len() >= 2 && (w(ps, 0) == "recipe"@ || w(ps, 0) == "cook"@ || w(ps, 0) == "make"@) {
        NavV::DirectUrl("https://www.allrecipes.com/search?q="@ + joined(ps, '+'))
    } else if ps.len() >= 1 && (w(ps, 0) == "restaurant"@ || w(ps, 0) == "food"@ || w(ps, 0) == "delivery"@) {
        NavV::DirectUrl("https://www.yelp.com/search?find_desc=restaurants"@)
    } else if ps.len() >= 2 && (w(ps, 0) == "flight"@ || w(ps, 0) == "flights"@ || w(ps, 0) == "fly"@) {
        NavV::DirectUrl("https://www.google.com/travel/flights"@)
    } else if ps.len() >= 2 && (w(ps, 0) == "hotel"@ || w(ps, 0) == "stay"@ || w(ps, 0) == "accommodation"@) {
        NavV::DirectUrl("https://www.booking.com/searchresults.html?ss="@ + w(ps, 1))
    } else if ps.len() >= 2 && (w(ps, 0) == "buy"@ || w(ps, 0) == "shop"@ || w(ps, 0) == "purchase"@) {
        NavV::DirectUrl("https://www.amazon.com/s?k="@ + joined(ps, '+'))
    } else if ps.len() >= 2 && (w(ps, 0) == "compare"@ || has(ps, "best"@) && has(ps, "price"@)) {
        NavV::DirectUrl("https://www.pricerunner.com/search?q="@ + joined(ps, '+'))
    } else if ps.len() >= 1 && (w(ps, 0) == "news"@ || w(ps, 0) == "latest"@ || w(ps, 0) == "headlines"@) {
        NavV::DirectUrl("https://news.google.com/search?q="@ + (if ps.len() > 1 { w(ps, 1) } else { "world"@ }))
    } else if ps.len() >= 2 && (w(ps, 0) == "score"@ || w(ps, 0) == "game"@ || w(ps, 0) == "match"@) {
        NavV::DirectUrl("https://www.espn.com/search?q="@ + w(ps, 1))
    } else if ps.len() >= 2 && (w(ps, 0) == "job"@ || w(ps, 0) == "jobs"@ || w(ps, 0) == "career"@ || w(ps, 0) == "careers"@) {
        NavV::DirectUrl("https://www.linkedin.com/jobs/search/?keywords="@ + joined(ps, '+'))
    } else if ps.len() >= 1 && (w(ps, 0) == "connect"@ || w(ps, 0) == "network"@ || w(ps, 0) == "linkedin"@) {
        NavV::DirectUrl("https://www.linkedin.com"@)
    } else if ps.len() >= 2 && (w(ps, 0) == "gh"@ || w(ps, 0) == "github"@) {
        NavV::DirectUrl("https://github.com/"@ + w(ps, 1))
    } else if ps.len() >= 2 && (w(ps, 0) == "error"@ || w(ps, 0) == "debug"@ || w(ps, 0) == "fix"@ || w(ps, 0) == "stackoverflow"@) {
        NavV::DirectUrl("https://stackoverflow.com/search?q="@ + joined(ps, '+'))
    } else if ps.len() >= 2 && (w(ps, 0) == "npm"@) {
        NavV::DirectUrl("https://www.npmjs.com/package/"@ + w(ps, 1))
    } else if ps.len() >= 2 && (w(ps, 0) == "crate"@) {
        NavV::DirectUrl("https://crates.io/crates/"@ + w(ps, 1))
    } else if ps.len() >= 2 && (w(ps, 0) == "pip"@) {
        NavV::DirectUrl("https://pypi.org/project/"@ + w(ps, 1))
    } else if ps.len() >= 2 && (w(ps, 0) == "package"@) {
        NavV::DirectUrl("https://www.npmjs.com/package/"@ + w(ps, 1))
    } else if ps.len() >= 2 && (w(ps, 0) == "define"@ || w(ps, 0) == "wiki"@ || w(ps, 0) == "wikipedia"@) {
        NavV::DirectUrl("https://en.wikipedia.org/wiki/"@ + joined(ps, '_'))
    } else if ps.len() >= 2 && (w(ps, 0) == "meaning"@ || w(ps, 0) == "word"@ || w(ps, 0) == "dictionary"@) {
        NavV::DirectUrl("https://www.merriam-webster.com/dictionary/"@ + w(ps, 1))
    } else if ps.len() >= 3 && (w(ps, 0) == "translate"@) {
        NavV::DirectUrl("https://translate.google.com/"@)
    } else if ps.len() >= 1 && (w(ps, 0) == "tweet"@ || w(ps, 0) == "twitter"@ || w(ps, 0) == "x"@) {
        NavV::DirectUrl("https://twitter.com/"@ + (if ps.len() > 1 { w(ps, 1) } else { ""@ }))
    } else if ps.len() >= 1 && (w(ps, 0) == "reddit"@ || is_prefix("r/"@, w(ps, 0))) {
        NavV::DirectUrl("https://www.reddit.com/"@ + (if is_prefix("r/"@, w(ps, 0)) { w(ps, 0) } else if ps.len() > 1 { w(ps, 1) } else { ""@ }))
    } else if ps.len() >= 2 && (w(ps, 0) == "calc"@ || w(ps, 0) == "calculate"@ || w(ps, 0) == "math"@) {
        NavV::DirectUrl("https://www.wolframalpha.com/input?i="@ + joined(ps, '+'))
    } else if ps.len() >= 2 && (w(ps, 0) == "time"@ || w(ps, 0) == "timezone"@) {
        NavV::DirectUrl("https://www.timeanddate.com/worldclock/"@ + w(ps, 1))
    } else if has_char(query, '.') && !has_char(query, ' ') {
        if is_prefix("http"@, query) {
            NavV::DirectUrl(query)
        } else {
            NavV::DirectUrl("https://"@ + query)
        }
    } else {
        NavV::SearchFallback(query)
    }
}

pub struct IntentRouter;

impl IntentRouter {
    /// Routes a free-text query to a destination.
    pub fn resolve(query: &str) -> (r: NavigationAction)
        ensures
            r@ == route_model(query@, lower_of(query@)),
    {
        let lowered = lowercase(query);
        Self::route(query, lowered.as_str())
    }

    /// Routes a query whose lower-cased form is given.
    pub fn route(query: &str, lowered: &str) -> (r: NavigationAction)
        ensures
            r@ == route_model(query@, lowered@),
    {
        let ps = words_of(&chars_of(lowered));
        let n = ps.len();
        let ghost pv = char_lists(ps@);
        if (n >= 2 && (word_is(&ps, 0, "price") || word_is(&ps, 0, "value"))) || (n >= 2 && word_is(&ps, 1, "price")) {
            let mut url = String::new();
            push_text(&mut url, "https://www.coingecko.com/en/coins/");
            if word_is(&ps, 0, "price") { push_word(&mut url, &ps, 1); } else { push_word(&mut url, &ps, 0); }
            return NavigationAction::DirectUrl(url);
        }
        if n >= 2 && (word_is(&ps, 0, "stock") || word_is(&ps, 1, "stock")) {
            let mut url = String::new();
            push_text(&mut url, "https://finance.yahoo.com/quote/");
            let ticker = if word_is(&ps, 0, "stock") { word_text(&ps, 1) } else { word_text(&ps, 0) };
            let upper = uppercase(ticker.as_str());
            push_text(&mut url, upper.as_str());
            return NavigationAction::DirectUrl(url);
        }
        if n >= 3 && (has_word_eq(&ps, "to") || word_is(&ps, 0, "convert")) {
            let mut url = String::new();
            push_text(&mut url, "https://www.xe.com/currencyconverter/");
            return NavigationAction::DirectUrl(url);
        }
        if n >= 2 && (word_is(&ps, 0, "weather") || word_is(&ps, 0, "forecast")) {
            let mut url = String::new();
            push_text(&mut url, "https://wttr.in/");
            push_word(&mut url, &ps, 1);
            return NavigationAction::DirectUrl(url);
        }
        if n >= 2 && (word_is(&ps, 0, "map") || word_is(&ps, 0, "directions")) {
            let mut url = String::new();
            push_text(&mut url, "https://www.google.com/maps/search/");
            push_joined(&mut url, &ps, '+');
            return NavigationAction::DirectUrl(url);
        }
        if n >= 2 && (word_is(&ps, 0, "symptoms") || word_is(&ps, 0, "disease") || word_is(&ps, 0, "treatment")) {
            let mut url = String::new();
            push_text(&mut url, "https://www.mayoclinic.org/diseases-conditions/");
            push_joined(&mut url, &ps, '_');
            return NavigationAction::DirectUrl(url);
        }
        if n >= 2 && (word_is(&ps, 0, "drug") || word_is(&ps, 0, "medication") || word_is(&ps, 0, "medicine")) {
            let mut url = String::new();
            push_text(&mut url, "https://www.drugs.com/");
            push_word(&mut url, &ps, 1);
            return NavigationAction::DirectUrl(url);
        }
        if n >= 2 && (word_is(&ps, 0, "paper") || word_is(&ps, 0, "research") || word_is(&ps, 0, "study")) {
            let mut url = String::new();
            push_text(&mut url, "https://scholar.google.com/scholar?q=");
            push_joined(&mut url, &ps, '+');
            return NavigationAction::DirectUrl(url);
        }
        if n >= 2 && (word_is(&ps, 0, "course") || word_is(&ps, 0, "learn") || word_is(&ps, 0, "tutorial")) {
            let mut url = String::new();
            push_text(&mut url, "https://www.coursera.org/search?query=");
            push_word(&mut url, &ps, 1);
            return NavigationAction::DirectUrl(url);
        }
        if n >= 2 && (word_is(&ps, 0, "movie") || word_is(&ps, 0, "film") || word_is(&ps, 0, "watch")) {
            let mut url = String::new();
            push_text(&mut url, "https://www.imdb.com/find?q=");
            push_joined(&mut url, &ps, '+');
            return NavigationAction::DirectUrl(url);
        }
        if n >= 2 && (word_is(&ps, 0, "song") || word_is(&ps, 0, "artist") || word_is(&ps, 0, "album") || word_is(&ps, 0, "music")) {
            let mut url = String::new();
            push_text(&mut url, "https://open.spotify.com/search/");
            push_joined(&mut url, &ps, '+');
            return NavigationAction::DirectUrl(url);
        }
        if n >= 2 && (word_is(&ps, 0, "game") || word_is(&ps, 0, "play")) {
            let mut url = String::new();
            push_text(&mut url, "https://store.steampowered.com/search/?term=");
            push_joined(&mut url, &ps, '+');
            return NavigationAction::DirectUrl(url);
        }
        if n >= 2 && (word_is(&ps, 0, "recipe") || word_is(&ps, 0, "cook") || word_is(&ps, 0, "make")) {
            let mut url = String::new();
            push_text(&mut url, "https://www.allrecipes.com/search?q=");
            push_joined(&mut url, &ps, '+');
            return NavigationAction::DirectUrl(url);
        }
        if n >= 1 && (word_is(&ps, 0, "restaurant") || word_is(&ps, 0, "food") || word_is(&ps, 0, "delivery")) {
            let mut url = String::new();
            push_text(&mut url, "https://www.yelp.com/search?find_desc=restaurants");
            return NavigationAction::DirectUrl(url);
        }
        if n >= 2 && (word_is(&ps, 0, "flight") || word_is(&ps, 0, "flights") || word_is(&ps, 0, "fly")) {
            let mut url = String::new();
            push_text(&mut url, "https://www.google.com/travel/flights");
            return NavigationAction::DirectUrl(url);
        }
        if n >= 2 && (word_is(&ps, 0, "hotel") || word_is(&ps, 0, "stay") || word_is(&ps, 0, "accommodation")) {
            let mut url = String::new();
            push_text(&mut url, "https://www.booking.com/searchresults.html?ss=");
            push_word(&mut url, &ps, 1);
            return NavigationAction::DirectUrl(url);
        }
        if n >= 2 && (word_is(&ps, 0, "buy") || word_is(&ps, 0, "shop") || word_is(&ps, 0, "purchase")) {
            let mut url = String::new();
            push_text(&mut url, "https://www.amazon.com/s?k=");
            push_joined(&mut url, &ps, '+');
            return NavigationAction::DirectUrl(url);
        }
        if n >= 2 && (word_is(&ps, 0, "compare") || has_word_eq(&ps, "best") && has_word_eq(&ps, "price")) {
            let mut url = String::new();
            push_text(&mut url, "https://www.pricerunner.com/search?q=");
            push_joined(&mut url, &ps, '+');
            return NavigationAction::DirectUrl(url);
        }
        if n >= 1 && (word_is(&ps, 0, "news") || word_is(&ps, 0, "latest") || word_is(&ps, 0, "headlines")) {
            let mut url = String::new();
            push_text(&mut url, "https://news.google.com/search?q=");
            if n > 1 { push_word(&mut url, &ps, 1); } else { push_text(&mut url, "world"); }
            return NavigationAction::DirectUrl(url);
        }
        if n >= 2 && (word_is(&ps, 0, "score") || word_is(&ps, 0, "game") || word_is(&ps, 0, "match")) {
            let mut url = String::new();
            push_text(&mut url, "https://www.espn.com/search?q=");
            push_word(&mut url, &ps, 1);
            return NavigationAction::DirectUrl(url);
        }
        if n >= 2 && (word_is(&ps, 0, "job") || word_is(&ps, 0, "jobs") || word_is(&ps, 0, "career") || word_is(&ps, 0, "careers")) {
            let mut url = String::new();
            push_text(&mut url, "https://www.linkedin.com/jobs/search/?keywords=");
            push_joined(&mut url, &ps, '+');
            return NavigationAction::DirectUrl(url);
        }
        if n >= 1 && (word_is(&ps, 0, "connect") || word_is(&ps, 0, "network") || word_is(&ps, 0, "linkedin")) {
            let mut url = String::new();
            push_text(&mut url, "https://www.linkedin.com");
            return NavigationAction::DirectUrl(url);
        }
        if n >= 2 && (word_is(&ps, 0, "gh") || word_is(&ps, 0, "github")) {
            let mut url = String::new();
            push_text(&mut url, "https://github.com/");
            push_word(&mut url, &ps, 1);
            return NavigationAction::DirectUrl(url);
        }
        if n >= 2 && (word_is(&ps, 0, "error") || word_is(&ps, 0, "debug") || word_is(&ps, 0, "fix") || word_is(&ps, 0, "stackoverflow")) {
            let mut url = String::new();
            push_text(&mut url, "https://stackoverflow.com/search?q=");
            push_joined(&mut url, &ps, '+');
            return NavigationAction::DirectUrl(url);
        }
        if n >= 2 && (word_is(&ps, 0, "npm")) {
            let mut url = String::new();
            push_text(&mut url, "https://www.npmjs.com/package/");
            push_word(&mut url, &ps, 1);
            return NavigationAction::DirectUrl(url);
        }
        if n >= 2 && (word_is(&ps, 0, "crate")) {
            let mut url = String::new();
            push_text(&mut url, "https://crates.io/crates/");
            push_word(&mut url, &ps, 1);
            return NavigationAction::DirectUrl(url);
        }
        if n >= 2 && (word_is(&ps, 0, "pip")) {
            let mut url = String::new();
            push_text(&mut url, "https://pypi.org/project/");
            push_word(&mut url, &ps, 1);
            return NavigationAction::DirectUrl(url);
        }
        if n >= 2 && (word_is(&ps, 0, "package")) {
            let mut url = String::new();
            push_text(&mut url, "https://www.npmjs.com/package/");
            push_word(&mut url, &ps, 1);
            return NavigationAction::DirectUrl(url);
        }
        if n >= 2 && (word_is(&ps, 0, "define") || word_is(&ps, 0, "wiki") || word_is(&ps, 0, "wikipedia")) {
            let mut url = String::new();
            push_text(&mut url, "https://en.wikipedia.org/wiki/");
            push_joined(&mut url, &ps, '_');
            return NavigationAction::DirectUrl(url);
        }
        if n >= 2 && (word_is(&ps, 0, "meaning") || word_is(&ps, 0, "word") || word_is(&ps, 0, "dictionary")) {
            let mut url = String::new();
            push_text(&mut url, "https://www.merriam-webster.com/dictionary/");
            push_word(&mut url, &ps, 1);
            return NavigationAction::DirectUrl(url);
        }
        if n >= 3 && (word_is(&ps, 0, "translate")) {
            let mut url = String::new();
            push_text(&mut url, "https://translate.google.com/");
            return NavigationAction::DirectUrl(url);
        }
        if n >= 1 && (word_is(&ps, 0, "tweet") || word_is(&ps, 0, "twitter") || word_is(&ps, 0, "x")) {
            let mut url = String::new();
            push_text(&mut url, "https://twitter.com/");
            if n > 1 { push_word(&mut url, &ps, 1); } else { push_text(&mut url, ""); }
            return NavigationAction::DirectUrl(url);
        }
        if n >= 1 && (word_is(&ps, 0, "reddit") || word_starts(&ps, 0, "r/")) {
            let mut url = String::new();
            push_text(&mut url, "https://www.reddit.com/");
            if word_starts(&ps, 0, "r/") { push_word(&mut url, &ps, 0); } else if n > 1 { push_word(&mut url, &ps, 1); } else { push_text(&mut url, ""); }
            return NavigationAction::DirectUrl(url);
        }
        if n >= 2 && (word_is(&ps, 0, "calc") || word_is(&ps, 0, "calculate") || word_is(&ps, 0, "math")) {
            let mut url = String::new();
            push_text(&mut url, "https://www.wolframalpha.com/input?i=");
            push_joined(&mut url, &ps, '+');
            return NavigationAction::DirectUrl(url);
        }
        if n >= 2 && (word_is(&ps, 0, "time") || word_is(&ps, 0, "timezone")) {
            let mut url = String::new();
            push_text(&mut url, "https://www.timeanddate.com/worldclock/");
            push_word(&mut url, &ps, 1);
            return NavigationAction::DirectUrl(url);
        }
        if text_has_char(query, '.') && !text_has_char(query, ' ') {
            if text_starts(query, "http") {
                return NavigationAction::DirectUrl(query.to_string());
            }
            let mut url = String::new();
            push_text(&mut url, "https://");
            push_text(&mut url, query);
            return NavigationAction::DirectUrl(url);
        }
        NavigationAction::SearchFallback(query.to_string())
    }
}

} // verus!

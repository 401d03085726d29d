use yolofi::router::{IntentRouter, NavigationAction};

fn url(q: &str) -> String {
    match IntentRouter::resolve(q) {
        NavigationAction::DirectUrl(u) => u,
        NavigationAction::SearchFallback(s) => format!("search:{}", s),
    }
}

#[test]
fn finance_routes() {
    assert_eq!(url("Price BTC"), "https://www.coingecko.com/en/coins/btc");
    assert_eq!(url("eth price"), "https://www.coingecko.com/en/coins/eth");
    assert_eq!(url("stock aapl"), "https://finance.yahoo.com/quote/AAPL");
    assert_eq!(url("usd to eur"), "https://www.xe.com/currencyconverter/");
}

#[test]
fn joined_and_single_word_routes() {
    assert_eq!(url("map new york"), "https://www.google.com/maps/search/new+york");
    assert_eq!(url("symptoms sore throat"), "https://www.mayoclinic.org/diseases-conditions/sore_throat");
    assert_eq!(url("weather london"), "https://wttr.in/london");
    assert_eq!(url("news"), "https://news.google.com/search?q=world");
    assert_eq!(url("crate tokio"), "https://crates.io/crates/tokio");
    assert_eq!(url("package left-pad"), "https://www.npmjs.com/package/left-pad");
    assert_eq!(url("r/rust"), "https://www.reddit.com/r/rust");
    assert_eq!(url("tweet"), "https://twitter.com/");
    assert_eq!(url("game chess"), "https://store.steampowered.com/search/?term=chess");
}

#[test]
fn addresses_and_fallback() {
    assert_eq!(url("example.com"), "https://example.com");
    assert_eq!(url("http://x.org"), "http://x.org");
    assert_eq!(url("hello there"), "search:hello there");
}

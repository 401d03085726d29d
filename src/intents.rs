//! A catalogue of search intents: what people look for, in which domain
//! and time frame, and where such a query is best sent.
use vstd::prelude::*;

verus! {

/// Whether an intent looks back, at the present, or ahead.
#[derive(Clone, Copy, PartialEq, Eq, Structural, Debug)]
pub enum TemporalDimension {
    Past,
    Present,
    Future,
}

/// The area of life an intent belongs to.
#[derive(Clone, Copy, PartialEq, Eq, Structural, Debug)]
pub enum IntentDomain {
    Knowledge,
    Education,
    Research,
    Commerce,
    Finance,
    Investment,
    Health,
    Medical,
    Fitness,
    Mental,
    Entertainment,
    Media,
    Gaming,
    Music,
    Social,
    Communication,
    Networking,
    Career,
    Employment,
    Business,
    Technology,
    Development,
    Engineering,
    Travel,
    Location,
    Navigation,
    Food,
    Nutrition,
    Dining,
    Home,
    Lifestyle,
    Fashion,
    Sports,
    Recreation,
    Hobbies,
    Science,
    Discovery,
    Exploration,
    Arts,
    Culture,
    History,
    Government,
    Civic,
    Legal,
    Environment,
    Nature,
    Weather,
    Utilities,
    Services,
    Tools,
}

/// What the person wants to do.
#[derive(Clone, Copy, PartialEq, Eq, Structural, Debug)]
pub enum IntentAction {
    Find,
    Search,
    Discover,
    Learn,
    Understand,
    Research,
    Buy,
    Purchase,
    Acquire,
    Get,
    Obtain,
    Create,
    Make,
    Build,
    Design,
    Develop,
    Change,
    Update,
    Modify,
    Edit,
    Fix,
    Compare,
    Analyze,
    Evaluate,
    Calculate,
    Measure,
    Go,
    Navigate,
    Travel,
    Visit,
    Share,
    Send,
    Tell,
    Ask,
    Discuss,
    Watch,
    Read,
    Listen,
    Consume,
    Plan,
    Schedule,
    Book,
    Reserve,
    Track,
    Monitor,
    Check,
    Verify,
    Connect,
    Follow,
    Join,
    Participate,
}

pub struct Intent {
    pub domain: IntentDomain,
    pub action: IntentAction,
    pub temporal: TemporalDimension,
    pub query_patterns: Vec<String>,
    pub destination_url: String,
}

pub ghost struct IntentV {
    pub domain: IntentDomain,
    pub action: IntentAction,
    pub temporal: TemporalDimension,
    pub patterns: Seq<Seq<char>>,
    pub url: Seq<char>,
}

impl Intent {
    pub open spec fn view(&self) -> IntentV {
        IntentV {
            domain: self.domain,
            action: self.action,
            temporal: self.temporal,
            patterns: Seq::new(self.query_patterns@.len(), |i: int| self.query_patterns@[i]@),
            url: self.destination_url@,
        }
    }
}

pub open spec fn intents_view(v: Seq<Intent>) -> Seq<IntentV> {
    Seq::new(v.len(), |i: int| v[i]@)
}

pub open spec fn entry(
    domain: IntentDomain,
    action: IntentAction,
    temporal: TemporalDimension,
    first: Seq<char>,
    second: Seq<char>,
    third: Seq<char>,
    url: Seq<char>,
) -> IntentV {
    IntentV { domain, action, temporal, patterns: seq![first, second, third], url }
}

pub open spec fn knowledge_table() -> Seq<IntentV> {
    seq![
        entry(IntentDomain::Knowledge, IntentAction::Find, TemporalDimension::Present, "what is"@, "define"@, "explain"@, "https://en.wikipedia.org/wiki/{}"@),
        entry(IntentDomain::Knowledge, IntentAction::Find, TemporalDimension::Past, "history of"@, "when was"@, "who invented"@, "https://en.wikipedia.org/wiki/{}"@),
        entry(IntentDomain::Knowledge, IntentAction::Find, TemporalDimension::Future, "will"@, "predict"@, "forecast"@, "https://scholar.google.com/scholar?q={}"@),
    ]
}

pub open spec fn commerce_table() -> Seq<IntentV> {
    seq![
        entry(IntentDomain::Commerce, IntentAction::Buy, TemporalDimension::Present, "buy"@, "shop"@, "purchase"@, "https://www.amazon.com/s?k={}"@),
        entry(IntentDomain::Commerce, IntentAction::Find, TemporalDimension::Past, "review"@, "rating"@, "feedback"@, "https://www.amazon.com/s?k={}"@),
        entry(IntentDomain::Commerce, IntentAction::Track, TemporalDimension::Future, "deal"@, "sale"@, "discount"@, "https://camelcamelcamel.com/search?sq={}"@),
    ]
}

pub open spec fn health_table() -> Seq<IntentV> {
    seq![
        entry(IntentDomain::Health, IntentAction::Find, TemporalDimension::Present, "symptoms"@, "pain"@, "feeling"@, "https://www.mayoclinic.org/diseases-conditions"@),
        entry(IntentDomain::Health, IntentAction::Find, TemporalDimension::Past, "history of"@, "previous"@, "had"@, "https://www.mayoclinic.org/diseases-conditions"@),
        entry(IntentDomain::Health, IntentAction::Plan, TemporalDimension::Future, "prevent"@, "avoid"@, "wellness"@, "https://www.healthline.com/search?q1={}"@),
    ]
}

pub open spec fn entertainment_table() -> Seq<IntentV> {
    seq![
        entry(IntentDomain::Entertainment, IntentAction::Watch, TemporalDimension::Present, "watch"@, "stream"@, "play"@, "https://www.youtube.com/results?search_query={}"@),
        entry(IntentDomain::Entertainment, IntentAction::Find, TemporalDimension::Past, "classic"@, "old"@, "vintage"@, "https://www.imdb.com/find?q={}"@),
        entry(IntentDomain::Entertainment, IntentAction::Find, TemporalDimension::Future, "upcoming"@, "release"@, "premiere"@, "https://www.imdb.com/calendar/"@),
    ]
}

pub open spec fn social_table() -> Seq<IntentV> {
    seq![
        entry(IntentDomain::Social, IntentAction::Connect, TemporalDimension::Present, "connect"@, "follow"@, "friend"@, "https://www.linkedin.com"@),
    ]
}

pub open spec fn professional_table() -> Seq<IntentV> {
    seq![
        entry(IntentDomain::Career, IntentAction::Find, TemporalDimension::Present, "job"@, "career"@, "hiring"@, "https://www.linkedin.com/jobs/search/?keywords={}"@),
    ]
}

pub open spec fn technology_table() -> Seq<IntentV> {
    seq![
        entry(IntentDomain::Technology, IntentAction::Find, TemporalDimension::Present, "error"@, "bug"@, "fix"@, "https://stackoverflow.com/search?q={}"@),
    ]
}

pub open spec fn travel_table() -> Seq<IntentV> {
    seq![
        entry(IntentDomain::Travel, IntentAction::Book, TemporalDimension::Future, "flight"@, "hotel"@, "trip"@, "https://www.google.com/travel/flights"@),
    ]
}

pub open spec fn food_table() -> Seq<IntentV> {
    seq![
        entry(IntentDomain::Food, IntentAction::Find, TemporalDimension::Present, "recipe"@, "cook"@, "make"@, "https://www.allrecipes.com/search?q={}"@),
    ]
}

pub open spec fn sports_table() -> Seq<IntentV> {
    seq![
        entry(IntentDomain::Sports, IntentAction::Check, TemporalDimension::Present, "score"@, "game"@, "match"@, "https://www.espn.com/search?q={}"@),
    ]
}

pub open spec fn science_table() -> Seq<IntentV> {
    seq![
        entry(IntentDomain::Science, IntentAction::Research, TemporalDimension::Present, "research"@, "study"@, "paper"@, "https://scholar.google.com/scholar?q={}"@),
    ]
}

pub open spec fn arts_table() -> Seq<IntentV> {
    seq![
        entry(IntentDomain::Arts, IntentAction::Find, TemporalDimension::Present, "art"@, "artist"@, "painting"@, "https://www.metmuseum.org/search-results?q={}"@),
    ]
}

pub open spec fn environment_table() -> Seq<IntentV> {
    seq![
        entry(IntentDomain::Weather, IntentAction::Check, TemporalDimension::Present, "weather"@, "forecast"@, "temperature"@, "https://wttr.in/{}"@),
    ]
}

pub open spec fn utilities_table() -> Seq<IntentV> {
    seq![
        entry(IntentDomain::Utilities, IntentAction::Calculate, TemporalDimension::Present, "calculate"@, "convert"@, "time"@, "https://www.wolframalpha.com/input?i={}"@),
    ]
}

/// Every intent of the catalogue, domain by domain.
pub open spec fn intent_table() -> Seq<IntentV> {
    knowledge_table() + commerce_table() + health_table() + entertainment_table() + social_table() + professional_table() + technology_table() + travel_table() + food_table() + sports_table() + science_table() + arts_table() + environment_table() + utilities_table()
}

fn make(
    domain: IntentDomain,
    action: IntentAction,
    temporal: TemporalDimension,
    first: &str,
    second: &str,
    third: &str,
    url: &str,
) -> (r: Intent)
    ensures
        r@ == entry(domain, action, temporal, first@, second@, third@, url@),
{
    let mut query_patterns: Vec<String> = Vec::new();
    query_patterns.push(first.to_string());
    query_patterns.push(second.to_string());
    query_patterns.push(third.to_string());
    let r = Intent { domain, action, temporal, query_patterns, destination_url: url.to_string() };
    assert(r@.patterns =~= seq![first@, second@, third@]);
    r
}

/// Appends the items of `b` to `a`.
fn extend(a: &mut Vec<Intent>, b: Vec<Intent>)
    ensures
        intents_view(final(a)@) == intents_view(old(a)@) + intents_view(b@),
{
    let mut b = b;
    let ghost bv = intents_view(b@);
    let ghost av = intents_view(a@);
    a.append(&mut b);
    assert(intents_view(a@) =~= av + bv);
}

pub struct IntentGenerator;

impl IntentGenerator {

    fn generate_knowledge_intents() -> (r: Vec<Intent>)
        ensures
            intents_view(r@) == knowledge_table(),
    {
        let mut v: Vec<Intent> = Vec::new();
        v.push(make(IntentDomain::Knowledge, IntentAction::Find, TemporalDimension::Present, "what is", "define", "explain", "https://en.wikipedia.org/wiki/{}"));
        v.push(make(IntentDomain::Knowledge, IntentAction::Find, TemporalDimension::Past, "history of", "when was", "who invented", "https://en.wikipedia.org/wiki/{}"));
        v.push(make(IntentDomain::Knowledge, IntentAction::Find, TemporalDimension::Future, "will", "predict", "forecast", "https://scholar.google.com/scholar?q={}"));
        assert(intents_view(v@) =~= knowledge_table());
        v
    }

    fn generate_commerce_intents() -> (r: Vec<Intent>)
        ensures
            intents_view(r@) == commerce_table(),
    {
        let mut v: Vec<Intent> = Vec::new();
        v.push(make(IntentDomain::Commerce, IntentAction::Buy, TemporalDimension::Present, "buy", "shop", "purchase", "https://www.amazon.com/s?k={}"));
        v.push(make(IntentDomain::Commerce, IntentAction::Find, TemporalDimension::Past, "review", "rating", "feedback", "https://www.amazon.com/s?k={}"));
        v.push(make(IntentDomain::Commerce, IntentAction::Track, TemporalDimension::Future, "deal", "sale", "discount", "https://camelcamelcamel.com/search?sq={}"));
        assert(intents_view(v@) =~= commerce_table());
        v
    }

    fn generate_health_intents() -> (r: Vec<Intent>)
        ensures
            intents_view(r@) == health_table(),
    {
        let mut v: Vec<Intent> = Vec::new();
        v.push(make(IntentDomain::Health, IntentAction::Find, TemporalDimension::Present, "symptoms", "pain", "feeling", "https://www.mayoclinic.org/diseases-conditions"));
        v.push(make(IntentDomain::Health, IntentAction::Find, TemporalDimension::Past, "history of", "previous", "had", "https://www.mayoclinic.org/diseases-conditions"));
        v.push(make(IntentDomain::Health, IntentAction::Plan, TemporalDimension::Future, "prevent", "avoid", "wellness", "https://www.healthline.com/search?q1={}"));
        assert(intents_view(v@) =~= health_table());
        v
    }

    fn generate_entertainment_intents() -> (r: Vec<Intent>)
        ensures
            intents_view(r@) == entertainment_table(),
    {
        let mut v: Vec<Intent> = Vec::new();
        v.push(make(IntentDomain::Entertainment, IntentAction::Watch, TemporalDimension::Present, "watch", "stream", "play", "https://www.youtube.com/results?search_query={}"));
        v.push(make(IntentDomain::Entertainment, IntentAction::Find, TemporalDimension::Past, "classic", "old", "vintage", "https://www.imdb.com/find?q={}"));
        v.push(make(IntentDomain::Entertainment, IntentAction::Find, TemporalDimension::Future, "upcoming", "release", "premiere", "https://www.imdb.com/calendar/"));
        assert(intents_view(v@) =~= entertainment_table());
        v
    }

    fn generate_social_intents() -> (r: Vec<Intent>)
        ensures
            intents_view(r@) == social_table(),
    {
        let mut v: Vec<Intent> = Vec::new();
        v.push(make(IntentDomain::Social, IntentAction::Connect, TemporalDimension::Present, "connect", "follow", "friend", "https://www.linkedin.com"));
        assert(intents_view(v@) =~= social_table());
        v
    }

    fn generate_professional_intents() -> (r: Vec<Intent>)
        ensures
            intents_view(r@) == professional_table(),
    {
        let mut v: Vec<Intent> = Vec::new();
        v.push(make(IntentDomain::Career, IntentAction::Find, TemporalDimension::Present, "job", "career", "hiring", "https://www.linkedin.com/jobs/search/?keywords={}"));
        assert(intents_view(v@) =~= professional_table());
        v
    }

    fn generate_technology_intents() -> (r: Vec<Intent>)
        ensures
            intents_view(r@) == technology_table(),
    {
        let mut v: Vec<Intent> = Vec::new();
        v.push(make(IntentDomain::Technology, IntentAction::Find, TemporalDimension::Present, "error", "bug", "fix", "https://stackoverflow.com/search?q={}"));
        assert(intents_view(v@) =~= technology_table());
        v
    }

    fn generate_travel_intents() -> (r: Vec<Intent>)
        ensures
            intents_view(r@) == travel_table(),
    {
        let mut v: Vec<Intent> = Vec::new();
        v.push(make(IntentDomain::Travel, IntentAction::Book, TemporalDimension::Future, "flight", "hotel", "trip", "https://www.google.com/travel/flights"));
        assert(intents_view(v@) =~= travel_table());
        v
    }

    fn generate_food_intents() -> (r: Vec<Intent>)
        ensures
            intents_view(r@) == food_table(),
    {
        let mut v: Vec<Intent> = Vec::new();
        v.push(make(IntentDomain::Food, IntentAction::Find, TemporalDimension::Present, "recipe", "cook", "make", "https://www.allrecipes.com/search?q={}"));
        assert(intents_view(v@) =~= food_table());
        v
    }

    fn generate_sports_intents() -> (r: Vec<Intent>)
        ensures
            intents_view(r@) == sports_table(),
    {
        let mut v: Vec<Intent> = Vec::new();
        v.push(make(IntentDomain::Sports, IntentAction::Check, TemporalDimension::Present, "score", "game", "match", "https://www.espn.com/search?q={}"));
        assert(intents_view(v@) =~= sports_table());
        v
    }

    fn generate_science_intents() -> (r: Vec<Intent>)
        ensures
            intents_view(r@) == science_table(),
    {
        let mut v: Vec<Intent> = Vec::new();
        v.push(make(IntentDomain::Science, IntentAction::Research, TemporalDimension::Present, "research", "study", "paper", "https://scholar.google.com/scholar?q={}"));
        assert(intents_view(v@) =~= science_table());
        v
    }

    fn generate_arts_intents() -> (r: Vec<Intent>)
        ensures
            intents_view(r@) == arts_table(),
    {
        let mut v: Vec<Intent> = Vec::new();
        v.push(make(IntentDomain::Arts, IntentAction::Find, TemporalDimension::Present, "art", "artist", "painting", "https://www.metmuseum.org/search-results?q={}"));
        assert(intents_view(v@) =~= arts_table());
        v
    }

    fn generate_environment_intents() -> (r: Vec<Intent>)
        ensures
            intents_view(r@) == environment_table(),
    {
        let mut v: Vec<Intent> = Vec::new();
        v.push(make(IntentDomain::Weather, IntentAction::Check, TemporalDimension::Present, "weather", "forecast", "temperature", "https://wttr.in/{}"));
        assert(intents_view(v@) =~= environment_table());
        v
    }

    fn generate_utilities_intents() -> (r: Vec<Intent>)
        ensures
            intents_view(r@) == utilities_table(),
    {
        let mut v: Vec<Intent> = Vec::new();
        v.push(make(IntentDomain::Utilities, IntentAction::Calculate, TemporalDimension::Present, "calculate", "convert", "time", "https://www.wolframalpha.com/input?i={}"));
        assert(intents_view(v@) =~= utilities_table());
        v
    }

    /// Every intent of the catalogue, domain by domain.
    pub fn generate_all_intents() -> (r: Vec<Intent>)
        ensures
            intents_view(r@) == intent_table(),
    {
        let mut intents: Vec<Intent> = Vec::new();
        extend(&mut intents, Self::generate_knowledge_intents());
        extend(&mut intents, Self::generate_commerce_intents());
        extend(&mut intents, Self::generate_health_intents());
        extend(&mut intents, Self::generate_entertainment_intents());
        extend(&mut intents, Self::generate_social_intents());
        extend(&mut intents, Self::generate_professional_intents());
        extend(&mut intents, Self::generate_technology_intents());
        extend(&mut intents, Self::generate_travel_intents());
        extend(&mut intents, Self::generate_food_intents());
        extend(&mut intents, Self::generate_sports_intents());
        extend(&mut intents, Self::generate_science_intents());
        extend(&mut intents, Self::generate_arts_intents());
        extend(&mut intents, Self::generate_environment_intents());
        extend(&mut intents, Self::generate_utilities_intents());
        assert(intents_view(intents@) =~= intent_table());
        intents
    }

    /// How many intents of the catalogue each domain has, as pairs of the
    /// domain's name and its count, one pair for each domain that occurs, in
    /// order of first occurrence.
    pub fn get_intent_statistics() -> (r: Vec<(String, usize)>)
        ensures
            forall|k: int| 0 <= k < r@.len() ==> #[trigger] counts_some_domain(r@[k]),
            forall|d: IntentDomain|
                #![trigger count_domain(intent_table(), d)]
                count_domain(intent_table(), d) > 0 ==> exists|k: int|
                    0 <= k < r@.len() && #[trigger] names_count(r@[k], d),
    {
        let intents = Self::generate_all_intents();
        let counts = domain_counts(&intents);
        let mut stats: Vec<(String, usize)> = Vec::new();
        let n = counts.len();
        let mut i: usize = 0;
        while i < n
            invariant
                n == counts@.len(),
                i <= n,
                stats@.len() == i,
                intents_view(intents@) == intent_table(),
                forall|k: int|
                    0 <= k < i ==> #[trigger] names_count(stats@[k], counts@[k].0)
                        && count_domain(intent_table(), counts@[k].0) > 0,
                forall|k: int|
                    0 <= k < counts@.len() ==> (#[trigger] counts@[k]).1 == count_domain(
                        intent_table(),
                        counts@[k].0,
                    ) && count_domain(intent_table(), counts@[k].0) > 0,
            decreases n - i,
        {
            let (d, c) = counts[i];
            stats.push((domain_name(d), c));
            assert(names_count(stats@[i as int], counts@[i as int].0));
            i = i + 1;
        }
        assert forall|d: IntentDomain|
            #![trigger count_domain(intent_table(), d)]
            count_domain(intent_table(), d) > 0 implies exists|k: int|
                0 <= k < stats@.len() && #[trigger] names_count(stats@[k], d) by {
            lemma_count_member(intents_view(intents@), d);
            let m = choose|m: int|
                0 <= m < intents@.len() && intents_view(intents@)[m].domain == d;
            assert(intents_view(intents@)[m] == intents@[m]@);
            let k = choose|k: int| #![trigger counts@[k]] 0 <= k < counts@.len() && counts@[k].0 == intents@[m].domain;
            assert(names_count(stats@[k], d));
        }
        assert forall|k: int| 0 <= k < stats@.len() implies #[trigger] counts_some_domain(stats@[k]) by {
            let d = counts@[k].0;
            assert(names_count(stats@[k], d));
            assert(count_domain(intent_table(), d) > 0);
        }
        stats
    }
}

/// A pair names a domain that occurs in the catalogue, with its count.
pub open spec fn counts_some_domain(e: (String, usize)) -> bool {
    exists|d: IntentDomain| #[trigger] names_count(e, d) && count_domain(intent_table(), d) > 0
}

/// A pair holds a domain's name and how many intents of the catalogue have
/// that domain.
pub open spec fn names_count(e: (String, usize), d: IntentDomain) -> bool {
    e.0@ == domain_name_spec(d) && e.1 == count_domain(intent_table(), d)
}

/// A domain with a positive count occurs in the sequence.
pub proof fn lemma_count_member(s: Seq<IntentV>, d: IntentDomain)
    ensures
        count_domain(s, d) > 0 ==> exists|m: int| 0 <= m < s.len() && s[m].domain == d,
    decreases s.len(),
{
    if s.len() > 0 {
        lemma_count_member(s.drop_last(), d);
        if count_domain(s.drop_last(), d) > 0 {
            let m = choose|m: int| 0 <= m < s.drop_last().len() && s.drop_last()[m].domain == d;
            assert(s[m] == s.drop_last()[m]);
        } else if count_domain(s, d) > 0 {
            assert(s[s.len() - 1] == s.last());
        }
    }
}

pub open spec fn domain_name_spec(d: IntentDomain) -> Seq<char> {
    match d {
        IntentDomain::Knowledge => "Knowledge"@,
        IntentDomain::Education => "Education"@,
        IntentDomain::Research => "Research"@,
        IntentDomain::Commerce => "Commerce"@,
        IntentDomain::Finance => "Finance"@,
        IntentDomain::Investment => "Investment"@,
        IntentDomain::Health => "Health"@,
        IntentDomain::Medical => "Medical"@,
        IntentDomain::Fitness => "Fitness"@,
        IntentDomain::Mental => "Mental"@,
        IntentDomain::Entertainment => "Entertainment"@,
        IntentDomain::Media => "Media"@,
        IntentDomain::Gaming => "Gaming"@,
        IntentDomain::Music => "Music"@,
        IntentDomain::Social => "Social"@,
        IntentDomain::Communication => "Communication"@,
        IntentDomain::Networking => "Networking"@,
        IntentDomain::Career => "Career"@,
        IntentDomain::Employment => "Employment"@,
        IntentDomain::Business => "Business"@,
        IntentDomain::Technology => "Technology"@,
        IntentDomain::Development => "Development"@,
        IntentDomain::Engineering => "Engineering"@,
        IntentDomain::Travel => "Travel"@,
        IntentDomain::Location => "Location"@,
        IntentDomain::Navigation => "Navigation"@,
        IntentDomain::Food => "Food"@,
        IntentDomain::Nutrition => "Nutrition"@,
        IntentDomain::Dining => "Dining"@,
        IntentDomain::Home => "Home"@,
        IntentDomain::Lifestyle => "Lifestyle"@,
        IntentDomain::Fashion => "Fashion"@,
        IntentDomain::Sports => "Sports"@,
        IntentDomain::Recreation => "Recreation"@,
        IntentDomain::Hobbies => "Hobbies"@,
        IntentDomain::Science => "Science"@,
        IntentDomain::Discovery => "Discovery"@,
        IntentDomain::Exploration => "Exploration"@,
        IntentDomain::Arts => "Arts"@,
        IntentDomain::Culture => "Culture"@,
        IntentDomain::History => "History"@,
        IntentDomain::Government => "Government"@,
        IntentDomain::Civic => "Civic"@,
        IntentDomain::Legal => "Legal"@,
        IntentDomain::Environment => "Environment"@,
        IntentDomain::Nature => "Nature"@,
        IntentDomain::Weather => "Weather"@,
        IntentDomain::Utilities => "Utilities"@,
        IntentDomain::Services => "Services"@,
        IntentDomain::Tools => "Tools"@,
    }
}

/// The name of a domain, as written in the enum.
pub fn domain_name(d: IntentDomain) -> (r: String)
    ensures
        r@ == domain_name_spec(d),
{
    match d {
        IntentDomain::Knowledge => "Knowledge".to_string(),
        IntentDomain::Education => "Education".to_string(),
        IntentDomain::Research => "Research".to_string(),
        IntentDomain::Commerce => "Commerce".to_string(),
        IntentDomain::Finance => "Finance".to_string(),
        IntentDomain::Investment => "Investment".to_string(),
        IntentDomain::Health => "Health".to_string(),
        IntentDomain::Medical => "Medical".to_string(),
        IntentDomain::Fitness => "Fitness".to_string(),
        IntentDomain::Mental => "Mental".to_string(),
        IntentDomain::Entertainment => "Entertainment".to_string(),
        IntentDomain::Media => "Media".to_string(),
        IntentDomain::Gaming => "Gaming".to_string(),
        IntentDomain::Music => "Music".to_string(),
        IntentDomain::Social => "Social".to_string(),
        IntentDomain::Communication => "Communication".to_string(),
        IntentDomain::Networking => "Networking".to_string(),
        IntentDomain::Career => "Career".to_string(),
        IntentDomain::Employment => "Employment".to_string(),
        IntentDomain::Business => "Business".to_string(),
        IntentDomain::Technology => "Technology".to_string(),
        IntentDomain::Development => "Development".to_string(),
        IntentDomain::Engineering => "Engineering".to_string(),
        IntentDomain::Travel => "Travel".to_string(),
        IntentDomain::Location => "Location".to_string(),
        IntentDomain::Navigation => "Navigation".to_string(),
        IntentDomain::Food => "Food".to_string(),
        IntentDomain::Nutrition => "Nutrition".to_string(),
        IntentDomain::Dining => "Dining".to_string(),
        IntentDomain::Home => "Home".to_string(),
        IntentDomain::Lifestyle => "Lifestyle".to_string(),
        IntentDomain::Fashion => "Fashion".to_string(),
        IntentDomain::Sports => "Sports".to_string(),
        IntentDomain::Recreation => "Recreation".to_string(),
        IntentDomain::Hobbies => "Hobbies".to_string(),
        IntentDomain::Science => "Science".to_string(),
        IntentDomain::Discovery => "Discovery".to_string(),
        IntentDomain::Exploration => "Exploration".to_string(),
        IntentDomain::Arts => "Arts".to_string(),
        IntentDomain::Culture => "Culture".to_string(),
        IntentDomain::History => "History".to_string(),
        IntentDomain::Government => "Government".to_string(),
        IntentDomain::Civic => "Civic".to_string(),
        IntentDomain::Legal => "Legal".to_string(),
        IntentDomain::Environment => "Environment".to_string(),
        IntentDomain::Nature => "Nature".to_string(),
        IntentDomain::Weather => "Weather".to_string(),
        IntentDomain::Utilities => "Utilities".to_string(),
        IntentDomain::Services => "Services".to_string(),
        IntentDomain::Tools => "Tools".to_string(),
    }
}

/// How many intents have the domain.
pub open spec fn count_domain(s: Seq<IntentV>, d: IntentDomain) -> nat
    decreases s.len(),
{
    if s.len() == 0 {
        0
    } else {
        count_domain(s.drop_last(), d) + if s.last().domain == d {
            1nat
        } else {
            0nat
        }
    }
}

/// The domains that occur, each once, in order of first occurrence, with
/// how many intents have each.
pub fn domain_counts(intents: &Vec<Intent>) -> (r: Vec<(IntentDomain, usize)>)
    ensures
        forall|k: int| 0 <= k < r@.len() ==> (#[trigger] r@[k]).1 == count_domain(intents_view(intents@), r@[k].0),
        forall|k: int, j: int| #![trigger r@[k], r@[j]] 0 <= k < j < r@.len() ==> r@[k].0 != r@[j].0,
        forall|i: int| #![trigger intents@[i]] 0 <= i < intents@.len() ==> exists|k: int| #![trigger r@[k]] 0 <= k < r@.len() && r@[k].0 == intents@[i].domain,
        forall|k: int| 0 <= k < r@.len() ==> count_domain(intents_view(intents@), (#[trigger] r@[k]).0) > 0,
{
    let ghost s = intents_view(intents@);
    let n = intents.len();
    let mut counts: Vec<(IntentDomain, usize)> = Vec::new();
    let mut i: usize = 0;
    while i < n
        invariant
            n == intents@.len() == s.len(),
            s == intents_view(intents@),
            i <= n,
            forall|k: int| 0 <= k < counts@.len() ==> (#[trigger] counts@[k]).1 == count_domain(s.take(i as int), counts@[k].0),
            forall|k: int| 0 <= k < counts@.len() ==> count_domain(s.take(i as int), (#[trigger] counts@[k]).0) > 0,
            forall|k: int, j: int| #![trigger counts@[k], counts@[j]] 0 <= k < j < counts@.len() ==> counts@[k].0 != counts@[j].0,
            forall|m: int| 0 <= m < i ==> exists|k: int| 0 <= k < counts@.len() && (#[trigger] counts@[k]).0 == (#[trigger] s[m]).domain,
            forall|d: IntentDomain| #[trigger] count_domain(s.take(i as int), d) > 0 ==> exists|k: int| 0 <= k < counts@.len() && (#[trigger] counts@[k]).0 == d,
            forall|d: IntentDomain| #[trigger] count_domain(s.take(i as int), d) <= i,
        decreases n - i,
    {
        let d = intents[i].domain;
        assert(s.take(i + 1).drop_last() =~= s.take(i as int));
        assert(s.take(i + 1).last() == s[i as int]);
        assert(s[i as int].domain == d);
        let mut k: usize = 0;
        while k < counts.len() && counts[k].0 != d
            invariant
                k <= counts@.len(),
                forall|j: int| 0 <= j < k ==> (#[trigger] counts@[j]).0 != d,
            decreases counts@.len() - k,
        {
            k = k + 1;
        }
        let ghost old_counts = counts@;
        if k < counts.len() {
            let c = counts[k].1;
            assert(c == count_domain(s.take(i as int), d));
            counts.set(k, (d, c + 1));
        } else {
            assert(count_domain(s.take(i as int), d) == 0);
            counts.push((d, 1));
        }
        assert forall|m: int| 0 <= m < i + 1 implies exists|k2: int| 0 <= k2 < counts@.len() && (#[trigger] counts@[k2]).0 == (#[trigger] s[m]).domain by {
            if m < i {
                let k1 = choose|k1: int| 0 <= k1 < old_counts.len() && old_counts[k1].0 == s[m].domain;
                assert(counts@[k1].0 == s[m].domain);
            } else {
                assert(counts@[k as int].0 == s[m].domain);
            }
        }
        assert forall|dd: IntentDomain| #[trigger] count_domain(s.take(i + 1), dd) > 0 implies exists|k2: int| 0 <= k2 < counts@.len() && (#[trigger] counts@[k2]).0 == dd by {
            if dd == d {
                assert(counts@[k as int].0 == dd);
            } else {
                assert(count_domain(s.take(i as int), dd) > 0);
                let k1 = choose|k1: int| 0 <= k1 < old_counts.len() && old_counts[k1].0 == dd;
                assert(counts@[k1].0 == dd);
            }
        }
        i = i + 1;
    }
    assert(s.take(n as int) =~= s);
    assert forall|m: int| #![trigger intents@[m]] 0 <= m < intents@.len() implies exists|k: int| #![trigger counts@[k]] 0 <= k < counts@.len() && counts@[k].0 == intents@[m].domain by {
        assert(s[m].domain == intents@[m].domain);
    }
    counts
}

} // verus!

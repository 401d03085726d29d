use yolofi::intents::{domain_counts, domain_name, IntentDomain, IntentGenerator};

#[test]
fn test_intent_generation() {
    let intents = IntentGenerator::generate_all_intents();
    assert!(!intents.is_empty());
    println!("Generated {} intents", intents.len());
}

#[test]
fn test_intent_statistics() {
    let stats = IntentGenerator::get_intent_statistics();
    println!("Intent Statistics: {:#?}", stats);
}

#[test]
fn catalogue_has_every_entry_in_order() {
    let intents = IntentGenerator::generate_all_intents();
    assert_eq!(intents.len(), 22);
    assert_eq!(intents[0].domain, IntentDomain::Knowledge);
    assert_eq!(intents[0].query_patterns, vec!["what is", "define", "explain"]);
    assert_eq!(intents[0].destination_url, "https://en.wikipedia.org/wiki/{}");
    assert_eq!(intents[21].domain, IntentDomain::Utilities);
    assert_eq!(intents[21].destination_url, "https://www.wolframalpha.com/input?i={}");
}

#[test]
fn statistics_count_each_domain() {
    let stats = IntentGenerator::get_intent_statistics();
    let get = |name: &str| stats.iter().find(|(n, _)| n == name).map(|(_, c)| *c);
    assert_eq!(get("Knowledge"), Some(3));
    assert_eq!(get("Commerce"), Some(3));
    assert_eq!(get("Weather"), Some(1));
    assert_eq!(get("Finance"), None);
    assert_eq!(stats.len(), 14);
    assert_eq!(stats.iter().map(|(_, c)| c).sum::<usize>(), 22);
}

#[test]
fn domain_counts_keep_first_occurrence_order() {
    let intents = IntentGenerator::generate_all_intents();
    let counts = domain_counts(&intents);
    assert_eq!(counts[0], (IntentDomain::Knowledge, 3));
    assert_eq!(counts.len(), 14);
    assert_eq!(domain_name(IntentDomain::Career), "Career");
}

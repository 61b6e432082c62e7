use tor_router::countries::{cache_fresh, located_countries, COUNTRIES_CACHE_NANOS};

#[test]
fn relays_without_country_are_left_out() {
    let relays = vec![Some("us".to_string()), None, Some("de".to_string()), None, Some("us".to_string())];
    assert_eq!(located_countries(relays), vec!["us".to_string(), "de".to_string(), "us".to_string()]);
    assert_eq!(located_countries(vec![None, None]), Vec::<String>::new());
    assert_eq!(located_countries(vec![]), Vec::<String>::new());
}

#[test]
fn list_is_served_again_for_an_hour() {
    assert_eq!(COUNTRIES_CACHE_NANOS, std::time::Duration::from_secs(3600).as_nanos());
    assert!(cache_fresh(0));
    assert!(cache_fresh(COUNTRIES_CACHE_NANOS - 1));
    assert!(!cache_fresh(COUNTRIES_CACHE_NANOS));
    assert!(!cache_fresh(u128::MAX));
}

use pathcrawler::url_set::UrlSet;
use pathcrawler::crawl::{
    crawl_origin, in_scope, is_spell_url, next_round, page_type, retry_step, sleep_millis, PageType,
    RetryStep, DEFAULT_ORIGIN,
};

#[test]
fn spell_urls() {
    assert_eq!(is_spell_url("https://www.d20pfsrd.com/magic/all-spells/a/acid-arrow"), Some(true));
    assert_eq!(is_spell_url("https://www.d20pfsrd.com/magic/all-spells/a/acid-arrow/"), Some(true));
    assert_eq!(
        is_spell_url("https://www.d20pfsrd.com/magic/3rd-party-spells/x/y"),
        Some(true)
    );
    assert_eq!(is_spell_url("https://www.d20pfsrd.com/magic/all-spells/a"), Some(false));
    assert_eq!(is_spell_url("https://www.d20pfsrd.com/magic/all-spells/a/b/c"), Some(false));
}

#[test]
fn page_types_in_order() {
    let origin = "https://www.d20pfsrd.com/";
    assert_eq!(page_type("https://www.d20pfsrd.com/classes/x", origin, true), PageType::Class);
    assert_eq!(page_type("https://www.d20pfsrd.com/races/x", origin, false), PageType::Race);
    assert_eq!(page_type("https://www.d20pfsrd.com/feats/x", origin, false), PageType::Feat);
    assert_eq!(page_type("https://www.d20pfsrd.com/magic/x", origin, true), PageType::Spell);
    assert_eq!(page_type("https://www.d20pfsrd.com/skill/x", origin, false), PageType::Skill);
    assert_eq!(page_type("https://www.d20pfsrd.com/magic/x", origin, false), PageType::Default);
}

#[test]
fn scope_of_the_crawl() {
    let disallowed = vec!["/private/"];
    assert!(in_scope("https://www.d20pfsrd.com/magic/all-spells", &disallowed));
    assert!(in_scope("https://www.d20pfsrd.com/sitemap.xml", &disallowed));
    assert!(!in_scope("https://www.d20pfsrd.com/magic/private/x", &disallowed));
    assert!(!in_scope("https://www.d20pfsrd.com/feats/x", &disallowed));
    assert!(!in_scope("https://www.d20pfsrd.com/magic", &vec![""]));
}

#[test]
fn sleeping_fills_the_delay() {
    assert_eq!(sleep_millis(1, 200, 250), Some(800));
    assert_eq!(sleep_millis(2, 0, 1999), Some(2000));
    assert_eq!(sleep_millis(1, 900, 1000), None);
    assert_eq!(sleep_millis(0, 0, 0), None);
}

#[test]
fn retries() {
    assert_eq!(retry_step(1, false), RetryStep::SleepSecs(1));
    assert_eq!(retry_step(2, false), RetryStep::SleepSecs(2));
    assert_eq!(retry_step(3, false), RetryStep::Return);
    assert_eq!(retry_step(1, true), RetryStep::Return);
}

#[test]
fn origin_of_the_crawl() {
    assert_eq!(crawl_origin(Some("https://www.d20pfsrd.com/sitemap.xml")), "https://www.d20pfsrd.com/sitemap.xml");
    assert_eq!(crawl_origin(None), DEFAULT_ORIGIN);
}

#[test]
fn round_update() {
    let mut visited = UrlSet::new();
    visited.insert("r".to_string());
    let mut frontier = UrlSet::new();
    frontier.insert("a".to_string());
    let mut found = UrlSet::new();
    for u in ["a", "b", "r", "c"] {
        found.insert(u.to_string());
    }
    let next = next_round(&mut visited, &frontier, &found);
    assert_eq!(next.to_vec(), vec!["b".to_string(), "c".to_string()]);
    assert_eq!(visited.to_vec(), vec!["r".to_string(), "a".to_string()]);
}

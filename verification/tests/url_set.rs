use pathcrawler::url_set::UrlSet;

fn set_of(urls: &[&str]) -> UrlSet {
    let mut s = UrlSet::new();
    for u in urls {
        s.insert(u.to_string());
    }
    s
}

#[test]
fn insert_keeps_each_url_once() {
    let mut s = UrlSet::new();
    assert!(s.insert("a".to_string()));
    assert!(s.insert("b".to_string()));
    assert!(!s.insert("a".to_string()));
    assert_eq!(s.len(), 2);
    assert!(s.contains(&"a".to_string()));
    assert!(!s.contains(&"c".to_string()));
    assert_eq!(s.to_vec(), vec!["a".to_string(), "b".to_string()]);
}

#[test]
fn difference_and_extend() {
    let found = set_of(&["a", "b", "c"]);
    let mut visited = set_of(&["b"]);
    let fresh = found.difference(&visited);
    assert_eq!(fresh.to_vec(), vec!["a".to_string(), "c".to_string()]);
    visited.extend(&fresh);
    assert_eq!(visited.len(), 3);
    assert!(found.difference(&visited).is_empty());
}

#[test]
fn sorted_by_lowercase_form() {
    let s = set_of(&["b", "A", "c", "B2", "a1"]);
    assert_eq!(
        s.sorted_by_lowercase(),
        vec!["A".to_string(), "a1".to_string(), "b".to_string(), "B2".to_string(), "c".to_string()]
    );
}

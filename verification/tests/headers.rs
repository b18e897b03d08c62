use browser::headers::Headers;

fn entries(h: &Headers) -> Vec<(String, String)> {
    (0..h.len()).map(|i| (h.key_at(i).clone(), h.value_at(i).clone())).collect()
}

fn pair(k: &str, v: &str) -> (String, String) {
    (k.to_string(), v.to_string())
}

#[test]
fn new_headers_are_empty() {
    let h = Headers::new();
    assert_eq!(h.len(), 0);
    assert_eq!(h.get("a"), None);
    assert!(!h.contains_key("a"));
}

#[test]
fn insert_then_get() {
    let mut h = Headers::new();
    h.insert("accept".to_string(), "text/html".to_string());
    h.insert("host".to_string(), "example.com".to_string());
    assert_eq!(h.len(), 2);
    assert_eq!(h.get("accept"), Some(&"text/html".to_string()));
    assert_eq!(h.get("host"), Some(&"example.com".to_string()));
    assert_eq!(h.get("other"), None);
    assert!(h.contains_key("host"));
    assert!(!h.contains_key("Host"));
}

#[test]
fn insert_replaces_the_value_in_place() {
    let mut h = Headers::new();
    h.insert("a".to_string(), "1".to_string());
    h.insert("b".to_string(), "2".to_string());
    h.insert("a".to_string(), "3".to_string());
    assert_eq!(entries(&h), vec![pair("a", "3"), pair("b", "2")]);
}

#[test]
fn names_are_told_apart_by_case() {
    let mut h = Headers::new();
    h.insert("Accept".to_string(), "1".to_string());
    h.insert("accept".to_string(), "2".to_string());
    assert_eq!(entries(&h), vec![pair("Accept", "1"), pair("accept", "2")]);
    assert_eq!(h.get("Accept"), Some(&"1".to_string()));
    assert_eq!(h.get("accept"), Some(&"2".to_string()));
}

#[test]
fn headers_keep_the_order_of_first_insertion() {
    let mut h = Headers::new();
    for k in ["z", "a", "m", "a", "z"] {
        h.insert(k.to_string(), k.to_uppercase());
    }
    assert_eq!(entries(&h), vec![pair("z", "Z"), pair("a", "A"), pair("m", "M")]);
    assert_eq!(h.key_at(1), "a");
    assert_eq!(h.value_at(2), "M");
}

#[test]
fn cloned_headers_are_equal_and_apart() {
    let mut h = Headers::new();
    h.insert("a".to_string(), "1".to_string());
    let mut c = h.clone();
    assert_eq!(c, h);
    c.insert("a".to_string(), "2".to_string());
    assert_eq!(h.get("a"), Some(&"1".to_string()));
    assert_eq!(c.get("a"), Some(&"2".to_string()));
}

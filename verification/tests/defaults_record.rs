use sound_switch::state::{text_before, DefaultsMap};

fn chars(s: &str) -> Vec<char> {
    s.chars().collect()
}

fn entries(m: &DefaultsMap) -> Vec<(String, String)> {
    (0..m.len()).map(|i| {
        let (k, v) = m.entry(i);
        (k.clone(), v.clone())
    }).collect()
}

#[test]
fn entries_stay_in_ascending_order() {
    let mut m = DefaultsMap::new();
    m.insert("multimedia".to_string(), "B".to_string());
    m.insert("communications".to_string(), "C".to_string());
    m.insert("console".to_string(), "A".to_string());
    assert_eq!(
        entries(&m),
        vec![
            ("communications".to_string(), "C".to_string()),
            ("console".to_string(), "A".to_string()),
            ("multimedia".to_string(), "B".to_string()),
        ]
    );
}

#[test]
fn insert_replaces_the_value_of_a_known_name() {
    let mut m = DefaultsMap::new();
    m.insert("console".to_string(), "A".to_string());
    m.insert("console".to_string(), "Z".to_string());
    assert_eq!(m.len(), 1);
    assert_eq!(entries(&m), vec![("console".to_string(), "Z".to_string())]);
}

#[test]
fn names_differing_in_case_are_different_entries() {
    let mut m = DefaultsMap::new();
    m.insert("console".to_string(), "a".to_string());
    m.insert("Console".to_string(), "b".to_string());
    assert_eq!(
        entries(&m),
        vec![("Console".to_string(), "b".to_string()), ("console".to_string(), "a".to_string())]
    );
}

#[test]
fn clear_forgets_everything() {
    let mut m = DefaultsMap::new();
    assert!(m.is_empty());
    m.insert("console".to_string(), "A".to_string());
    assert!(!m.is_empty());
    m.clear();
    assert!(m.is_empty());
    assert_eq!(m.len(), 0);
}

#[test]
fn text_order_is_code_point_order() {
    assert!(text_before(&chars("a"), &chars("b")));
    assert!(text_before(&chars("ab"), &chars("abc")));
    assert!(!text_before(&chars("abc"), &chars("ab")));
    assert!(!text_before(&chars("x"), &chars("x")));
    assert!(text_before(&chars("Z"), &chars("a")));
    assert!(text_before(&chars(""), &chars("a")));
    assert!(text_before(&chars("z"), &chars("é")));
    assert_eq!(text_before(&chars("é"), &chars("z")), "é" < "z");
}

#[test]
fn order_of_recording_does_not_matter() {
    let mut a = DefaultsMap::new();
    a.insert("console".to_string(), "A".to_string());
    a.insert("multimedia".to_string(), "B".to_string());
    a.insert("communications".to_string(), "C".to_string());
    let mut b = DefaultsMap::new();
    b.insert("communications".to_string(), "C".to_string());
    b.insert("console".to_string(), "A".to_string());
    b.insert("multimedia".to_string(), "B".to_string());
    assert_eq!(entries(&a), entries(&b));
    assert_eq!(entries(&a.clone()), entries(&a));
}

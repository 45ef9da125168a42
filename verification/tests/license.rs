use pymanifest::{LicenseWeights, OBSERVED};

#[test]
fn observed_is_one_unit() {
    assert_eq!(OBSERVED, 1);
}

#[test]
fn a_new_map_holds_nothing() {
    let map = LicenseWeights::new();
    assert!(map.identifiers().is_empty());
    assert_eq!(map.get(&"MIT".to_string()), None);
}

#[test]
fn insert_replaces_a_weight() {
    let mut map = LicenseWeights::new();
    map.insert("MIT".to_string(), 3);
    assert_eq!(map.get(&"MIT".to_string()), Some(3));
    map.insert("MIT".to_string(), 1);
    assert_eq!(map.get(&"MIT".to_string()), Some(1));
    map.insert("MIT".to_string(), 1);
    assert_eq!(map.get(&"MIT".to_string()), Some(1));
    assert_eq!(map.identifiers(), &vec!["MIT"]);
}

#[test]
fn weights_stay_with_their_identifiers() {
    let mut map = LicenseWeights::new();
    map.insert("MIT".to_string(), 10);
    map.insert("Apache-2.0".to_string(), 20);
    map.insert("Zlib".to_string(), 30);
    map.insert("BSD-3-Clause".to_string(), 40);
    map.insert("ISC".to_string(), 50);
    assert_eq!(map.identifiers(), &vec!["Apache-2.0", "BSD-3-Clause", "ISC", "MIT", "Zlib"]);
    assert_eq!(map.get(&"MIT".to_string()), Some(10));
    assert_eq!(map.get(&"Apache-2.0".to_string()), Some(20));
    assert_eq!(map.get(&"Zlib".to_string()), Some(30));
    assert_eq!(map.get(&"BSD-3-Clause".to_string()), Some(40));
    assert_eq!(map.get(&"ISC".to_string()), Some(50));
    map.insert("ISC".to_string(), 51);
    assert_eq!(map.get(&"ISC".to_string()), Some(51));
    assert_eq!(map.get(&"MIT".to_string()), Some(10));
    assert_eq!(map.get(&"BSD-3-Clause".to_string()), Some(40));
    assert_eq!(map.get(&"GPL".to_string()), None);
}

#[test]
fn observe_sets_the_unit_weight() {
    let mut map = LicenseWeights::new();
    map.insert("MIT".to_string(), 9);
    map.insert("ISC".to_string(), 8);
    map.observe(vec!["MIT".to_string(), "Zlib".to_string(), "MIT".to_string()]);
    assert_eq!(map.get(&"MIT".to_string()), Some(OBSERVED));
    assert_eq!(map.get(&"Zlib".to_string()), Some(OBSERVED));
    assert_eq!(map.get(&"ISC".to_string()), Some(8));
    assert_eq!(map.identifiers(), &vec!["ISC", "MIT", "Zlib"]);
}

#[test]
fn observing_again_changes_nothing() {
    let mut map = LicenseWeights::new();
    map.observe(vec!["MIT".to_string(), "Apache-2.0".to_string()]);
    map.observe(vec!["Apache-2.0".to_string(), "MIT".to_string()]);
    assert_eq!(map.get(&"MIT".to_string()), Some(1));
    assert_eq!(map.get(&"Apache-2.0".to_string()), Some(1));
    assert_eq!(map.identifiers().len(), 2);
    map.observe(Vec::new());
    assert_eq!(map.identifiers().len(), 2);
}

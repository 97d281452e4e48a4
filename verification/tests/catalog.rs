use hcaptcha_solver::catalog::Catalog;
use hcaptcha_solver::error::Error;
use hcaptcha_solver::textmap::TextMap;

fn entry(key: &str, variants: &[&str]) -> (String, Vec<String>) {
    (key.to_string(), variants.iter().map(|v| v.to_string()).collect())
}

#[test]
fn variants_resolve_to_their_key() {
    let catalog = Catalog::from_document(&vec![entry("dog", &["dog", "puppy"])]);
    assert_eq!(catalog.resolve_category("puppy").unwrap(), "dog");
    assert_eq!(catalog.resolve_category("dog").unwrap(), "dog");
    match catalog.resolve_category("cat") {
        Err(Error::UnknownChallenge(asked)) => assert_eq!(asked, "cat"),
        other => panic!("{:?}", other),
    }
}

#[test]
fn a_key_that_is_no_variant_is_unknown() {
    let catalog = Catalog::from_document(&vec![entry("bus_model", &["bus", "coach"])]);
    assert_eq!(catalog.resolve_category("coach").unwrap(), "bus_model");
    assert!(matches!(
        catalog.resolve_category("bus_model"),
        Err(Error::UnknownChallenge(_))
    ));
}

#[test]
fn the_later_entry_decides() {
    let catalog = Catalog::from_document(&vec![
        entry("car", &["car", "vehicle"]),
        entry("truck", &["truck", "vehicle"]),
    ]);
    assert_eq!(catalog.resolve_category("vehicle").unwrap(), "truck");
    assert_eq!(catalog.resolve_category("car").unwrap(), "car");
}

#[test]
fn the_empty_catalog_knows_nothing() {
    let catalog = Catalog::from_document(&Vec::new());
    assert!(matches!(catalog.resolve_category(""), Err(Error::UnknownChallenge(_))));
    let mut grown = Catalog::new();
    grown.add("cat", &vec!["cat".to_string(), "kitten".to_string()]);
    grown.add("none", &Vec::new());
    assert_eq!(grown.resolve_category("kitten").unwrap(), "cat");
    assert!(grown.resolve_category("none").is_err());
}

#[test]
fn text_map() {
    let mut map = TextMap::new();
    assert!(map.get("a").is_none());
    map.insert("a".to_string(), "1".to_string());
    map.insert("b".to_string(), "2".to_string());
    map.insert("a".to_string(), "3".to_string());
    assert_eq!(map.get("a").unwrap(), "3");
    assert_eq!(map.get("b").unwrap(), "2");
    assert!(map.get("c").is_none());
    assert_eq!(
        map.entries(),
        &vec![("a".to_string(), "3".to_string()), ("b".to_string(), "2".to_string())]
    );
}

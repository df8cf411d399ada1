use curie::{Curie, ExpansionError, InvalidPrefixError, PrefixMapping};

const FOAF_VOCAB: &str = "http://xmlns.com/foaf/0.1/";

fn lookup<'a>(pm: &'a PrefixMapping, prefix: &str) -> Option<&'a String> {
    pm.mappings().iter().find(|(p, _)| p == prefix).map(|(_, base)| base)
}

#[test]
fn add_remove_works() {
    let mut pm = PrefixMapping::default();

    // No keys should be found.
    assert_eq!(lookup(&pm, "foaf"), None);

    // Add and look up a key.
    assert_eq!(pm.add_prefix("foaf", FOAF_VOCAB), Ok(()));
    assert_eq!(lookup(&pm, "foaf"), Some(&String::from(FOAF_VOCAB)));

    // Unrelated keys still can not be found.
    assert_eq!(lookup(&pm, "rdfs"), None);

    // Can't add _ as that's reserved.
    assert_eq!(
        pm.add_prefix("_", ""),
        Err(InvalidPrefixError::ReservedPrefix)
    );

    // Keys can be removed.
    pm.remove_prefix("foaf");

    // The "foaf" key should not be found.
    assert_eq!(lookup(&pm, "foaf"), None);
}

#[test]
fn display_curie() {
    let curie = Curie::new(Some("foaf"), "Agent");
    assert_eq!("foaf:Agent", curie.to_string());
}

#[test]
fn from_string_curie() {
    let curie = Curie::new(Some("foaf"), "Agent");
    assert_eq!("foaf:Agent", String::from(curie));

    let curie = Curie::new(None, "Agent");
    assert_eq!("Agent", String::from(curie));

    let curie = Curie::new(Some("foaf"), "Agent");
    assert_eq!("foaf:Agent", String::from(&curie));
}

#[test]
fn expand_curie_string() {
    let mut mapping = PrefixMapping::default();

    let curie = "foaf:Person";

    // A CURIE with an unmapped prefix isn't expanded.
    assert_eq!(
        mapping.expand_curie_string(curie),
        Err(ExpansionError::Invalid)
    );

    // A CURIE without a separator still requires a default.
    assert_eq!(
        mapping.expand_curie_string("Person"),
        Err(ExpansionError::MissingDefault)
    );

    mapping.set_default("http://example.com/");

    assert_eq!(
        mapping.expand_curie_string("Person"),
        Ok(String::from("http://example.com/Person"))
    );

    // A colon without a prefix uses the prefix that is an empty string.
    assert_eq!(
        mapping.expand_curie_string(":Person"),
        Err(ExpansionError::Invalid)
    );
    mapping
        .add_prefix("", "http://example.com/ExampleDocument#")
        .unwrap();
    assert_eq!(
        mapping.expand_curie_string(":Person"),
        Ok(String::from("http://example.com/ExampleDocument#Person"))
    );

    // A default does not expand a prefixed CURIE.
    assert_eq!(
        mapping.expand_curie_string(curie),
        Err(ExpansionError::Invalid)
    );

    mapping.add_prefix("foaf", FOAF_VOCAB).unwrap();

    // A CURIE with a mapped prefix is expanded correctly.
    assert_eq!(
        mapping.expand_curie_string(curie),
        Ok(String::from("http://xmlns.com/foaf/0.1/Person"))
    );
}

#[test]
fn expand_curie() {
    let mut mapping = PrefixMapping::default();
    mapping.add_prefix("foaf", FOAF_VOCAB).unwrap();

    let curie = Curie::new(Some("foaf"), "Agent");
    assert_eq!(
        mapping.expand_curie(&curie),
        Ok(String::from("http://xmlns.com/foaf/0.1/Agent"))
    );
}

#[test]
fn expand_curie_default() {
    let mut mapping = PrefixMapping::default();
    mapping.set_default(FOAF_VOCAB);

    let curie = Curie::new(None, "Agent");
    assert_eq!(
        mapping.expand_curie(&curie),
        Ok(String::from("http://xmlns.com/foaf/0.1/Agent"))
    );
}

#[test]
fn shrink_iri_prefix() {
    let mut mapping = PrefixMapping::default();
    mapping.add_prefix("foaf", FOAF_VOCAB).unwrap();

    let curie = Curie::new(Some("foaf"), "Agent");

    assert_eq!(
        mapping.shrink_iri("http://xmlns.com/foaf/0.1/Agent"),
        Ok(curie)
    );
}

#[test]
fn split_iri_default() {
    let mut mapping = PrefixMapping::default();
    mapping.set_default(FOAF_VOCAB);

    let curie = Curie::new(None, "Agent");

    assert_eq!(
        mapping.shrink_iri("http://xmlns.com/foaf/0.1/Agent"),
        Ok(curie)
    );
}

//! String interning round trips.

use mutable_buffer::dictionary::StringDictionary;

#[test]
fn test_dictionary() {
    let mut dictionary = StringDictionary::new();

    let id1 = dictionary.lookup_value_or_insert("cupcake");
    let id2 = dictionary.lookup_value_or_insert("cupcake");
    let id3 = dictionary.lookup_value_or_insert("womble");

    let id4 = dictionary.lookup_value("cupcake").unwrap();
    let id5 = dictionary.lookup_value("womble").unwrap();

    let cupcake = dictionary.lookup_id(id4).unwrap();
    let womble = dictionary.lookup_id(id5).unwrap();

    let expected = vec!["cupcake".to_string(), "womble".to_string()];
    let actual = dictionary.values().clone();

    assert_eq!(id1, id2);
    assert_eq!(id1, id4);
    assert_ne!(id1, id3);
    assert_eq!(id3, id5);

    assert_eq!(cupcake, "cupcake");
    assert_eq!(womble, "womble");

    assert!(dictionary.id("foo").is_none());
    assert!(dictionary.lookup_id(-1).is_none());
    assert_eq!(expected, actual);
}

#[test]
fn round_trip_of_every_inserted_string() {
    let mut d = StringDictionary::new();
    let words = ["prod", "stage", "dev", "prod", ""];
    for w in words {
        let id = d.lookup_value_or_insert(w);
        assert_eq!(d.lookup_id(id), Some(w));
        assert_eq!(d.lookup_value_or_insert(w), id);
    }
    assert_eq!(d.len(), 4);
    assert!(d.lookup_id(4).is_none());
    assert!(d.lookup_id(i32::MAX).is_none());
}

#[test]
fn size_grows_with_distinct_strings_only() {
    let mut d = StringDictionary::new();
    d.lookup_value_or_insert("abc");
    let s1 = d.size();
    d.lookup_value_or_insert("abc");
    assert_eq!(d.size(), s1);
    d.lookup_value_or_insert("defg");
    assert!(d.size() > s1);
}

use metaquery::account::{can_manage_satgas, visible_tags, Account};
use metaquery::tags::{encode_access, encode_attribute, encode_marker, encode_tag, Tag, TagSet};

fn decode_all(raw: Vec<&str>) -> TagSet {
    let owned: Vec<String> = raw.into_iter().map(|s| s.to_string()).collect();
    TagSet::decode(&owned)
}

fn encoded(ts: &TagSet) -> Vec<String> {
    ts.encode()
}

#[test]
fn decode_encode_round_trips_byte_for_byte() {
    let raw = vec![
        ":satgas:",
        "village_id=42",
        "access.data",
        "plain text",
        ":",
        "::",
        ":a=b:",
        "a=b=c",
        "=",
        "x=",
        "=y",
        "access.",
        "access.x=y",
        "",
    ];
    let ts = decode_all(raw.clone());
    let back = encoded(&ts);
    let expect: Vec<String> = raw.into_iter().map(|s| s.to_string()).collect();
    assert_eq!(back, expect);
}

#[test]
fn markers_are_matched_exactly() {
    let ts = decode_all(vec![":satgas:", "satgas", "access.satgas"]);
    assert!(ts.has_marker("satgas"));
    assert!(!ts.has_marker("medic"));
    let ts2 = decode_all(vec!["satgas"]);
    assert!(!ts2.has_marker("satgas"));
}

#[test]
fn first_attribute_wins_over_duplicates() {
    let ts = decode_all(vec!["city_id=7", "city_id=9"]);
    assert_eq!(ts.get_attribute("city_id"), Some("7".to_string()));
    assert_eq!(ts.get_attribute("village_id"), None);
}

#[test]
fn grants_are_matched_exactly() {
    let ts = decode_all(vec!["access.data", ":satgas:"]);
    assert!(ts.has_access(5, "data"));
    assert!(!ts.has_access(5, "data_person"));
}

#[test]
fn super_admin_has_every_access() {
    let ts = decode_all(vec![]);
    assert!(ts.has_access(1, "data"));
    assert!(ts.has_access(1, "anything-never-granted"));
    assert!(!ts.has_access(2, "data"));
    let admin = Account { id: 1, tags: decode_all(vec![]) };
    assert!(admin.has_access("satgas"));
}

#[test]
fn replace_access_grants_is_idempotent() {
    let ts = decode_all(vec![":satgas:", "access.a", "x=1", "access.b"]);
    let caps = vec!["c".to_string(), "d".to_string()];
    let once = ts.replace_access_grants(&caps);
    let twice = once.replace_access_grants(&caps);
    let expect: Vec<String> = vec![":satgas:", "x=1", "access.c", "access.d"]
        .into_iter()
        .map(|s| s.to_string())
        .collect();
    assert_eq!(encoded(&once), expect);
    assert_eq!(encoded(&twice), expect);
}

#[test]
fn replace_access_grants_with_empty_list_clears_grants() {
    let ts = decode_all(vec!["access.a", ":medic:"]);
    let none: Vec<String> = vec![];
    let cleared = ts.replace_access_grants(&none);
    assert_eq!(encoded(&cleared), vec![":medic:".to_string()]);
}

#[test]
fn contains_any_and_none() {
    let ts = decode_all(vec![":satgas:", "city_id=7"]);
    let want = decode_all(vec![":satgas:"]);
    let other = decode_all(vec![":deleted:"]);
    assert!(ts.contains_any(&want));
    assert!(!ts.contains_any(&other));
    assert!(ts.contains_none(&other));
    assert!(!ts.contains_none(&want));
}

#[test]
fn evaluator_reads_roles_and_ids() {
    let acc = Account {
        id: 9,
        tags: decode_all(vec![":satgas:", ":medic:", "city_id=7", "district_id=31"]),
    };
    assert!(acc.is_satgas());
    assert!(acc.is_medic());
    assert!(!acc.is_deleted());
    assert!(!acc.is_blocked());
    assert_eq!(acc.get_city_id(), Some(7));
    assert_eq!(acc.get_district_id(), Some(31));
    let bare = Account { id: 9, tags: decode_all(vec!["city_id=abc"]) };
    assert_eq!(bare.get_city_id(), None);
    let deleted = Account { id: 9, tags: decode_all(vec![":deleted:", ":blocked:"]) };
    assert!(deleted.is_deleted());
    assert!(deleted.is_blocked());
}

#[test]
fn only_super_admin_sees_stored_tags() {
    let ts = decode_all(vec![":satgas:", "city_id=7"]);
    assert_eq!(encoded(&visible_tags(1, &ts)), vec![":satgas:".to_string(), "city_id=7".to_string()]);
    assert_eq!(encoded(&visible_tags(2, &ts)), Vec::<String>::new());
}

#[test]
fn managing_satgas_needs_same_city_or_super_admin() {
    let super_admin = Account { id: 1, tags: decode_all(vec![]) };
    let admin7 = Account { id: 2, tags: decode_all(vec!["city_id=7"]) };
    let satgas7 = Account { id: 3, tags: decode_all(vec![":satgas:", "city_id=7"]) };
    let satgas9 = Account { id: 4, tags: decode_all(vec![":satgas:", "city_id=9"]) };
    let plain7 = Account { id: 5, tags: decode_all(vec!["city_id=7"]) };
    assert!(can_manage_satgas(&super_admin, &plain7));
    assert!(can_manage_satgas(&admin7, &satgas7));
    assert!(!can_manage_satgas(&admin7, &satgas9));
    assert!(!can_manage_satgas(&admin7, &plain7));
}

#[test]
fn typed_tags_encode_each_shape() {
    let ts = TagSet {
        tags: vec![
            Tag::Marker("satgas".to_string()),
            Tag::Attribute("village".to_string(), "Sukamaju".to_string()),
            Tag::Access("data".to_string()),
            Tag::Free("whatever".to_string()),
        ],
    };
    let expect: Vec<String> = vec![":satgas:", "village=Sukamaju", "access.data", "whatever"]
        .into_iter()
        .map(|s| s.to_string())
        .collect();
    assert_eq!(encoded(&ts), expect);
}

#[test]
fn constructors_build_each_tag_shape() {
    assert_eq!(encode_tag(&encode_marker("satgas")), ":satgas:".to_string());
    assert_eq!(encode_tag(&encode_attribute("city_id", "7")), "city_id=7".to_string());
    assert_eq!(encode_tag(&encode_access("data")), "access.data".to_string());
}

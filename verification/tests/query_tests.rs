use metaquery::query::{parse_query, SubReportStatus};

#[test]
fn labelled_name_age_gender_parse_fully() {
    let p = parse_query("nama:Budi umur:30 jk:L");
    assert_eq!(p.name, Some("nama:Budi".to_string()));
    assert_eq!(p.age, Some(30));
    assert_eq!(p.gender, Some("L".to_string()));
    assert_eq!(p.query, "".to_string());
    assert_eq!(p.residence_address, None);
    assert_eq!(p.village_name, None);
}

#[test]
fn first_unlabelled_token_is_name() {
    let p = parse_query("Budi Santoso tt:Jakarta");
    assert_eq!(p.name, Some("Budi".to_string()));
    assert_eq!(p.residence_address, Some("Jakarta".to_string()));
    assert_eq!(p.query, "Budi Santoso".to_string());
}

#[test]
fn plain_query_passes_through() {
    let p = parse_query("hello brave world");
    assert_eq!(p.query, "hello brave world".to_string());
    assert_eq!(p.name, Some("hello".to_string()));
    assert_eq!(p.age, None);
    assert_eq!(p.gender, None);
    assert_eq!(p.come_from, None);
    assert_eq!(p.status, None);
    assert_eq!(p.district_name, None);
}

#[test]
fn empty_query_yields_empty_parse() {
    let p = parse_query("");
    assert_eq!(p.query, "".to_string());
    assert_eq!(p.name, Some("".to_string()));
    assert_eq!(p.age, None);
    assert_eq!(p.village_name, None);
}

#[test]
fn unrecognized_labelled_token_disappears() {
    let p = parse_query("foo bar:baz qux");
    assert_eq!(p.query, "foo qux".to_string());
    assert_eq!(p.name, Some("foo".to_string()));
    assert_eq!(p.residence_address, None);
    assert_eq!(p.gender, None);
    assert_eq!(p.come_from, None);
    assert_eq!(p.village_name, None);
    assert_eq!(p.district_name, None);
}

#[test]
fn multiple_spaces_are_kept() {
    let p = parse_query("a  b");
    assert_eq!(p.query, "a  b".to_string());
    assert_eq!(p.name, Some("a".to_string()));
}

#[test]
fn all_keys_extract() {
    let p = parse_query("tt:Bandung umur:41 jk:P dari:Medan status:recovered desa:Cibodas kcm:Lembang");
    assert_eq!(p.residence_address, Some("Bandung".to_string()));
    assert_eq!(p.age, Some(41));
    assert_eq!(p.gender, Some("P".to_string()));
    assert_eq!(p.come_from, Some("Medan".to_string()));
    assert_eq!(p.status, Some(SubReportStatus::Recovered));
    assert_eq!(p.village_name, Some("Cibodas".to_string()));
    assert_eq!(p.district_name, Some("Lembang".to_string()));
    assert_eq!(p.query, "".to_string());
}

#[test]
fn first_labelled_token_wins() {
    let p = parse_query("tt:First tt:Second");
    assert_eq!(p.residence_address, Some("First".to_string()));
}

#[test]
fn early_unlabelled_token_beats_later_nama() {
    let p = parse_query("Ani nama:Budi");
    assert_eq!(p.name, Some("Ani".to_string()));
}

#[test]
fn malformed_age_is_dropped_silently() {
    assert_eq!(parse_query("umur:abc").age, None);
    assert_eq!(parse_query("umur:").age, None);
    assert_eq!(parse_query("umur:12.5").age, None);
    assert_eq!(parse_query("umur:2147483648").age, None);
    assert_eq!(parse_query("umur:-3").age, Some(-3));
}

#[test]
fn unknown_status_decodes_to_unknown() {
    assert_eq!(parse_query("status:positive").status, Some(SubReportStatus::Positive));
    assert_eq!(parse_query("status:odp").status, Some(SubReportStatus::Odp));
    assert_eq!(parse_query("status:pdp").status, Some(SubReportStatus::Pdp));
    assert_eq!(parse_query("status:death").status, Some(SubReportStatus::Death));
    assert_eq!(parse_query("status:whatever").status, Some(SubReportStatus::Unknown));
}

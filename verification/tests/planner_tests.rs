use metaquery::account::Account;
use metaquery::casing::title_case;
use metaquery::planner::{plan, plan_satgas_search};
use metaquery::profile::{satgas_registration_tags, GeoAddress, SatgasProfile};
use metaquery::tags::TagSet;

fn decode_all(raw: Vec<&str>) -> TagSet {
    let owned: Vec<String> = raw.into_iter().map(|s| s.to_string()).collect();
    TagSet::decode(&owned)
}

#[test]
fn title_casing_capitalizes_each_word() {
    assert_eq!(title_case("desa sukamaju"), "Desa Sukamaju".to_string());
    assert_eq!(title_case("DESA SUKAMAJU"), "Desa Sukamaju".to_string());
    assert_eq!(title_case(""), "".to_string());
    assert_eq!(title_case("a  b"), "A  B".to_string());
}

#[test]
fn empty_query_without_scoping_lists_everything() {
    let role = TagSet::empty();
    let excluded = decode_all(vec![":deleted:"]);
    let req = plan("", &role, None, &excluded, 0, 10);
    assert_eq!(req.query, "".to_string());
    assert_eq!(req.village_name, None);
    assert_eq!(req.required_tags.encode(), Vec::<String>::new());
    assert_eq!(req.excluded_tags.encode(), vec![":deleted:".to_string()]);
    assert_eq!(req.offset, 0);
    assert_eq!(req.limit, 10);
}

#[test]
fn village_filter_is_title_cased() {
    let role = decode_all(vec![":satgas:"]);
    let excluded = decode_all(vec![":deleted:"]);
    let req = plan("budi desa:sukamaju", &role, Some(7), &excluded, 0, 25);
    assert_eq!(req.query, "budi".to_string());
    assert_eq!(req.village_name, Some("Sukamaju".to_string()));
    assert_eq!(
        req.required_tags.encode(),
        vec![":satgas:".to_string(), "city_id=7".to_string()]
    );
}

#[test]
fn satgas_search_refused_without_capability() {
    let admin = Account { id: 2, tags: decode_all(vec![]) };
    assert!(plan_satgas_search(&admin, "", 0, 10).is_none());
}

#[test]
fn super_admin_searches_unscoped() {
    let admin = Account { id: 1, tags: decode_all(vec![]) };
    let req = plan_satgas_search(&admin, "", 0, 10).unwrap();
    assert_eq!(req.required_tags.encode(), vec![":satgas:".to_string()]);
    assert_eq!(req.excluded_tags.encode(), vec![":deleted:".to_string()]);
}

#[test]
fn scoped_admin_searches_own_city() {
    let admin = Account { id: 2, tags: decode_all(vec!["access.satgas", "city_id=7"]) };
    let req = plan_satgas_search(&admin, "ani desa:cibodas", 5, 20).unwrap();
    assert_eq!(
        req.required_tags.encode(),
        vec![":satgas:".to_string(), "city_id=7".to_string()]
    );
    assert_eq!(req.query, "ani".to_string());
    assert_eq!(req.village_name, Some("Cibodas".to_string()));
    assert_eq!(req.offset, 5);
    assert_eq!(req.limit, 20);
}

#[test]
fn scoped_admin_without_city_gets_zero_scope() {
    let admin = Account { id: 2, tags: decode_all(vec!["access.satgas"]) };
    let req = plan_satgas_search(&admin, "", 0, 10).unwrap();
    assert_eq!(
        req.required_tags.encode(),
        vec![":satgas:".to_string(), "city_id=0".to_string()]
    );
}

fn sample_profile(is_medic: bool) -> SatgasProfile {
    SatgasProfile {
        village: "Sukamaju".to_string(),
        village_id: 42,
        district_id: 3,
        district_name: "Cisarua".to_string(),
        area_code: "BGR".to_string(),
        city_name: "Bogor".to_string(),
        city_id: 7,
        province_name: "Jawa Barat".to_string(),
        is_medic,
    }
}

#[test]
fn enrollment_writes_the_full_tag_list() {
    let tags = satgas_registration_tags(&sample_profile(false), &None);
    let expect: Vec<String> = vec![
        ":satgas:",
        "village=Sukamaju",
        "village_id=42",
        "district_id=3",
        "district=Cisarua",
        "area_code=BGR",
        "city_name=Bogor",
        "city_id=7",
        "province_name=Jawa Barat",
        "address_by_area_code=Jawa Barat/Bogor",
        "access.data",
        "access.data_person",
    ]
    .into_iter()
    .map(|s| s.to_string())
    .collect();
    assert_eq!(tags.encode(), expect);
}

#[test]
fn medic_enrollment_adds_marker_and_grant() {
    let tags = satgas_registration_tags(&sample_profile(true), &None);
    let encoded = tags.encode();
    assert_eq!(encoded.len(), 14);
    assert_eq!(encoded[12], ":medic:".to_string());
    assert_eq!(encoded[13], "access.village_data".to_string());
}

#[test]
fn geocoded_address_fills_unknown_parts_with_question_marks() {
    let addr = GeoAddress {
        country_code: "ID".to_string(),
        province: "Jawa Barat".to_string(),
        city: Some("Bogor".to_string()),
        district: None,
        subdistrict: None,
        label: "Jl. Raya 1".to_string(),
    };
    let tags = satgas_registration_tags(&sample_profile(false), &Some(addr));
    let encoded = tags.encode();
    assert_eq!(encoded[12], "address=ID/Jawa Barat/Bogor/?/?/Jl. Raya 1".to_string());
}

//! Building the full replacement tag set written when an account enrolls
//! (or re-enrolls) as a satgas: the role marker, the location attributes,
//! the default access grants, the medic extras, and the optional reverse
//! geocoded address. Updates always compute the whole list; nothing is
//! patched in place.

use vstd::prelude::*;

use crate::numbers::{i64_to_dec_string, spec_i64_str};
use crate::tags::{Tag, TagSet, TagV};

verus! {

/// The plain location facts a satgas enrollment carries.
pub struct SatgasProfile {
    pub village: String,
    pub village_id: i64,
    pub district_id: i64,
    pub district_name: String,
    pub area_code: String,
    pub city_name: String,
    pub city_id: i64,
    pub province_name: String,
    pub is_medic: bool,
}

/// A reverse-geocoded address; the middle parts may be unknown.
pub struct GeoAddress {
    pub country_code: String,
    pub province: String,
    pub city: Option<String>,
    pub district: Option<String>,
    pub subdistrict: Option<String>,
    pub label: String,
}

/// An optional address part, or `?` when unknown.
pub open spec fn part_or_q(o: Option<String>) -> Seq<char> {
    match o {
        Some(s) => s@,
        None => "?"@,
    }
}

/// The `address=` attribute value: the six address parts joined with `/`.
pub open spec fn geo_address_value(a: GeoAddress) -> Seq<char> {
    a.country_code@ + seq!['/'] + a.province@ + seq!['/'] + part_or_q(a.city) + seq!['/']
        + part_or_q(a.district) + seq!['/'] + part_or_q(a.subdistrict) + seq!['/'] + a.label@
}

/// The exact tag list an enrollment writes, in order: the satgas marker,
/// the location attributes, the default data grants, then the medic
/// extras and the geocoded address when present.
pub open spec fn registration_tags_spec(p: SatgasProfile, addr: Option<GeoAddress>) -> Seq<TagV> {
    seq![
        TagV::Marker("satgas"@),
        TagV::Attribute("village"@, p.village@),
        TagV::Attribute("village_id"@, spec_i64_str(p.village_id as int)),
        TagV::Attribute("district_id"@, spec_i64_str(p.district_id as int)),
        TagV::Attribute("district"@, p.district_name@),
        TagV::Attribute("area_code"@, p.area_code@),
        TagV::Attribute("city_name"@, p.city_name@),
        TagV::Attribute("city_id"@, spec_i64_str(p.city_id as int)),
        TagV::Attribute("province_name"@, p.province_name@),
        TagV::Attribute("address_by_area_code"@, p.province_name@ + seq!['/'] + p.city_name@),
        TagV::Access("data"@),
        TagV::Access("data_person"@),
    ] + (if p.is_medic {
        seq![TagV::Marker("medic"@), TagV::Access("village_data"@)]
    } else {
        Seq::<TagV>::empty()
    }) + (match addr {
        Some(a) => seq![TagV::Attribute("address"@, geo_address_value(a))],
        None => Seq::<TagV>::empty(),
    })
}

/// One address part or the `?` placeholder, as an owned string.
fn part_or_q_exec(o: &Option<String>) -> (r: String)
    ensures
        r@ == part_or_q(*o),
{
    match o {
        Some(s) => s.clone(),
        None => {
            let r = String::from_str("?");
            r
        },
    }
}

/// The `address=` value built from the six parts.
fn geo_address_value_exec(a: &GeoAddress) -> (r: String)
    ensures
        r@ == geo_address_value(*a),
{
    let mut r = a.country_code.clone();
    r.append("/");
    r.append(a.province.as_str());
    r.append("/");
    let city = part_or_q_exec(&a.city);
    r.append(city.as_str());
    r.append("/");
    let district = part_or_q_exec(&a.district);
    r.append(district.as_str());
    r.append("/");
    let subdistrict = part_or_q_exec(&a.subdistrict);
    r.append(subdistrict.as_str());
    r.append("/");
    r.append(a.label.as_str());
    proof {
        reveal_strlit("/");
        assert("/"@ =~= seq!['/']);
        assert(r@ =~= geo_address_value(*a));
    }
    r
}

/// The full replacement tag set for a satgas enrollment.
pub fn satgas_registration_tags(p: &SatgasProfile, addr: &Option<GeoAddress>) -> (r: TagSet)
    ensures
        r@ == registration_tags_spec(*p, *addr),
{
    let mut tags: Vec<Tag> = Vec::new();
    tags.push(Tag::Marker(String::from_str("satgas")));
    tags.push(Tag::Attribute(String::from_str("village"), p.village.clone()));
    tags.push(Tag::Attribute(String::from_str("village_id"), i64_to_dec_string(p.village_id)));
    tags.push(Tag::Attribute(String::from_str("district_id"), i64_to_dec_string(p.district_id)));
    tags.push(Tag::Attribute(String::from_str("district"), p.district_name.clone()));
    tags.push(Tag::Attribute(String::from_str("area_code"), p.area_code.clone()));
    tags.push(Tag::Attribute(String::from_str("city_name"), p.city_name.clone()));
    tags.push(Tag::Attribute(String::from_str("city_id"), i64_to_dec_string(p.city_id)));
    tags.push(Tag::Attribute(String::from_str("province_name"), p.province_name.clone()));
    let mut by_area = p.province_name.clone();
    by_area.append("/");
    by_area.append(p.city_name.as_str());
    proof {
        reveal_strlit("/");
        assert("/"@ =~= seq!['/']);
    }
    tags.push(Tag::Attribute(String::from_str("address_by_area_code"), by_area));
    tags.push(Tag::Access(String::from_str("data")));
    tags.push(Tag::Access(String::from_str("data_person")));
    if p.is_medic {
        tags.push(Tag::Marker(String::from_str("medic")));
        tags.push(Tag::Access(String::from_str("village_data")));
    }
    match addr {
        Some(a) => {
            tags.push(Tag::Attribute(String::from_str("address"), geo_address_value_exec(a)));
        },
        None => {},
    }
    let r = TagSet { tags };
    proof {
        assert(r@ =~= registration_tags_spec(*p, *addr));
    }
    r
}

} // verus!

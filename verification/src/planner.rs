//! The meta-filtered search planner: it parses the raw keyword string,
//! normalizes an extracted village name by title-casing, and assembles the
//! caller's role/scope tags and excluded tags with the residual free-text
//! query and pagination into one storage-agnostic search request. It does
//! no I/O; an empty query degrades to an unfiltered paginated listing.

use vstd::prelude::*;

use crate::account::{attr_id_spec, Account};
use crate::casing::{spec_title_case, title_case};
use crate::numbers::{i64_to_dec_string, spec_i64_str};
use crate::query::{lemma_parse_plain_query, parse_query, spec_parse, view_opt_str};
use crate::strutil::{lemma_join_split, seq_has_char, split_spaces};
use crate::tags::{has_access_spec, Tag, TagSet, TagV, SUPER_ADMIN_ID};

verus! {

/// What a planned search request holds, in model form.
pub ghost struct SearchRequestView {
    pub query: Seq<char>,
    pub village_name: Option<Seq<char>>,
    pub required_tags: Seq<TagV>,
    pub excluded_tags: Seq<TagV>,
    pub offset: int,
    pub limit: int,
}

/// A search request for the storage collaborator: residual free text, an
/// optional normalized village filter, tags every hit must bear, tags no
/// hit may bear, and pagination.
pub struct SearchRequest {
    pub query: String,
    pub village_name: Option<String>,
    pub required_tags: TagSet,
    pub excluded_tags: TagSet,
    pub offset: i64,
    pub limit: i64,
}

impl View for SearchRequest {
    type V = SearchRequestView;

    open spec fn view(&self) -> SearchRequestView {
        SearchRequestView {
            query: self.query@,
            village_name: view_opt_str(self.village_name),
            required_tags: self.required_tags@,
            excluded_tags: self.excluded_tags@,
            offset: self.offset as int,
            limit: self.limit as int,
        }
    }
}

/// The `city_id=<n>` scope tag added for a city-scoped caller.
pub open spec fn city_scope_tag(n: i64) -> TagV {
    TagV::Attribute("city_id"@, spec_i64_str(n as int))
}

/// What planning yields: the parser's residual text, the title-cased
/// village filter when one was extracted, the caller's role tags plus the
/// city scope tag when scoped, the caller's excluded tags, and the
/// pagination handed through unchanged.
pub open spec fn spec_plan(
    raw: Seq<char>,
    role_tags: Seq<TagV>,
    city_scope: Option<i64>,
    excluded: Seq<TagV>,
    offset: i64,
    limit: i64,
) -> SearchRequestView {
    SearchRequestView {
        query: spec_parse(raw).query,
        village_name: match spec_parse(raw).village_name {
            Some(v) => Some(spec_title_case(v)),
            None => None,
        },
        required_tags: role_tags + match city_scope {
            Some(n) => seq![city_scope_tag(n)],
            None => Seq::<TagV>::empty(),
        },
        excluded_tags: excluded,
        offset: offset as int,
        limit: limit as int,
    }
}

/// Plans one search. Pure: the request is assembled from the arguments
/// alone and handed back for the storage collaborator to run.
pub fn plan(
    raw_query: &str,
    role_tags: &TagSet,
    city_scope: Option<i64>,
    excluded_tags: &TagSet,
    offset: i64,
    limit: i64,
) -> (r: SearchRequest)
    requires
        offset >= 0,
        limit > 0,
    ensures
        r@ == spec_plan(raw_query@, role_tags@, city_scope, excluded_tags@, offset, limit),
{
    let parsed = parse_query(raw_query);
    let village_name = match parsed.village_name {
        Some(v) => Some(title_case(v.as_str())),
        None => None,
    };
    let mut required = role_tags.dup();
    let ghost base = required@;
    match city_scope {
        Some(n) => {
            required.tags.push(Tag::Attribute(String::from_str("city_id"), i64_to_dec_string(n)));
            proof {
                assert(required@ =~= base.push(city_scope_tag(n)));
                assert(base.push(city_scope_tag(n)) =~= base + seq![city_scope_tag(n)]);
            }
        },
        None => {
            proof {
                assert(base + Seq::<TagV>::empty() =~= base);
            }
        },
    }
    let r = SearchRequest {
        query: parsed.query,
        village_name,
        required_tags: required,
        excluded_tags: excluded_tags.dup(),
        offset,
        limit,
    };
    r
}

/// The satgas-search policy: who may search, and with which tag scoping.
/// Absent means the caller may not search satgas records at all. A
/// permitted caller searches records bearing `:satgas:` — restricted to
/// the caller's own city (id 0 when it has none) unless the caller is the
/// super-admin — and never sees `:deleted:` records.
pub open spec fn spec_satgas_search_scope(admin_id: i64, admin_tags: Seq<TagV>) -> Option<i64> {
    if admin_id == SUPER_ADMIN_ID {
        None
    } else {
        match attr_id_spec(admin_tags, "city_id"@) {
            Some(n) => Some(n),
            None => Some(0),
        }
    }
}

/// Plans an admin's satgas search, or refuses it.
/// Returns nothing exactly when the caller lacks the `satgas` capability
/// (the super-admin always has it); otherwise the planned request over the
/// `:satgas:` role tag, the caller's city scope, and `:deleted:` excluded.
pub fn plan_satgas_search(admin: &Account, raw_query: &str, offset: i64, limit: i64) -> (r: Option<
    SearchRequest,
>)
    requires
        offset >= 0,
        limit > 0,
    ensures
        match r {
            None => !has_access_spec(admin.tags@, admin.id, "satgas"@),
            Some(req) => has_access_spec(admin.tags@, admin.id, "satgas"@) && req@ == spec_plan(
                raw_query@,
                seq![TagV::Marker("satgas"@)],
                spec_satgas_search_scope(admin.id, admin.tags@),
                seq![TagV::Marker("deleted"@)],
                offset,
                limit,
            ),
        },
{
    if !admin.has_access("satgas") {
        return None;
    }
    let mut role_vec: Vec<Tag> = Vec::new();
    role_vec.push(Tag::Marker(String::from_str("satgas")));
    let role_tags = TagSet { tags: role_vec };
    proof {
        assert(role_tags@ =~= seq![TagV::Marker("satgas"@)]);
    }
    let mut excl_vec: Vec<Tag> = Vec::new();
    excl_vec.push(Tag::Marker(String::from_str("deleted")));
    let excluded = TagSet { tags: excl_vec };
    proof {
        assert(excluded@ =~= seq![TagV::Marker("deleted"@)]);
    }
    let city_scope: Option<i64> = if admin.id == SUPER_ADMIN_ID {
        None
    } else {
        match admin.get_city_id() {
            Some(n) => Some(n),
            None => Some(0),
        }
    };
    Some(plan(raw_query, &role_tags, city_scope, &excluded, offset, limit))
}

/// Law: an empty raw query with no role scoping degrades to an unfiltered
/// listing — empty residual text, no village filter, no required tags,
/// and only the caller-supplied excluded tags.
pub proof fn lemma_plan_empty_unscoped(excluded: Seq<TagV>, offset: i64, limit: i64)
    ensures
        spec_plan(Seq::<char>::empty(), Seq::<TagV>::empty(), None, excluded, offset, limit).query
            == Seq::<char>::empty(),
        spec_plan(
            Seq::<char>::empty(),
            Seq::<TagV>::empty(),
            None,
            excluded,
            offset,
            limit,
        ).village_name is None,
        spec_plan(
            Seq::<char>::empty(),
            Seq::<TagV>::empty(),
            None,
            excluded,
            offset,
            limit,
        ).required_tags == Seq::<TagV>::empty(),
        spec_plan(
            Seq::<char>::empty(),
            Seq::<TagV>::empty(),
            None,
            excluded,
            offset,
            limit,
        ).excluded_tags == excluded,
        spec_plan(Seq::<char>::empty(), Seq::<TagV>::empty(), None, excluded, offset, limit).offset
            == offset as int,
        spec_plan(Seq::<char>::empty(), Seq::<TagV>::empty(), None, excluded, offset, limit).limit
            == limit as int,
{
    let raw = Seq::<char>::empty();
    let ts = split_spaces(raw);
    assert(ts =~= seq![raw]);
    assert(!seq_has_char(raw, ':'));
    lemma_parse_plain_query(raw);
    lemma_join_split(raw);
    assert(Seq::<TagV>::empty() + Seq::<TagV>::empty() =~= Seq::<TagV>::empty());
}

} // verus!

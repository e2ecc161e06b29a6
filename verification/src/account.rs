//! The role/access evaluator: capability questions about one account,
//! answered from its numeric id and its tag set. Absent data yields
//! `None`/`false`; no question can fail.

use vstd::prelude::*;

use crate::numbers::parse_i64_spec;
use crate::numbers::parse_i64_str;
use crate::tags::{
    first_attr, has_access_spec, has_marker_spec, TagSet, TagV, SUPER_ADMIN_ID,
};

verus! {

/// The id attribute value under `key`, read as a number; absent when the
/// attribute is missing or not numeric.
pub open spec fn attr_id_spec(ts: Seq<TagV>, key: Seq<char>) -> Option<i64> {
    match first_attr(ts, key) {
        Some(v) => parse_i64_spec(v),
        None => None,
    }
}

/// Whether an admin may manage a satgas record: the super-admin always
/// may; any other admin only when the record is a satgas of the admin's
/// own city.
pub open spec fn can_manage_satgas_spec(
    admin_id: i64,
    admin_tags: Seq<TagV>,
    user_tags: Seq<TagV>,
) -> bool {
    admin_id == SUPER_ADMIN_ID || (has_marker_spec(user_tags, "satgas"@) && attr_id_spec(
        admin_tags,
        "city_id"@,
    ) == attr_id_spec(user_tags, "city_id"@))
}

/// One account as the evaluator sees it: its numeric id and its tag set.
pub struct Account {
    pub id: i64,
    pub tags: TagSet,
}

impl Account {
    /// The account carries the `:satgas:` field-worker role marker.
    pub fn is_satgas(&self) -> (r: bool)
        ensures
            r == has_marker_spec(self.tags@, "satgas"@),
    {
        self.tags.has_marker("satgas")
    }

    /// The account carries the `:medic:` role marker.
    pub fn is_medic(&self) -> (r: bool)
        ensures
            r == has_marker_spec(self.tags@, "medic"@),
    {
        self.tags.has_marker("medic")
    }

    /// The account is soft-deleted.
    pub fn is_deleted(&self) -> (r: bool)
        ensures
            r == has_marker_spec(self.tags@, "deleted"@),
    {
        self.tags.has_marker("deleted")
    }

    /// The account is blocked.
    pub fn is_blocked(&self) -> (r: bool)
        ensures
            r == has_marker_spec(self.tags@, "blocked"@),
    {
        self.tags.has_marker("blocked")
    }

    /// The account's city id, from the first `city_id=...` tag.
    pub fn get_city_id(&self) -> (r: Option<i64>)
        ensures
            r == attr_id_spec(self.tags@, "city_id"@),
    {
        match self.tags.get_attribute("city_id") {
            Some(v) => parse_i64_str(v.as_str()),
            None => None,
        }
    }

    /// The account's district id, from the first `district_id=...` tag.
    pub fn get_district_id(&self) -> (r: Option<i64>)
        ensures
            r == attr_id_spec(self.tags@, "district_id"@),
    {
        match self.tags.get_attribute("district_id") {
            Some(v) => parse_i64_str(v.as_str()),
            None => None,
        }
    }

    /// The capability is granted to this account, or it is the super-admin.
    pub fn has_access(&self, capability: &str) -> (r: bool)
        ensures
            r == has_access_spec(self.tags@, self.id, capability@),
    {
        self.tags.has_access(self.id, capability)
    }
}

/// Per-record visibility trimming: only the super-admin sees a record's
/// stored tags; every other reader gets an empty list.
pub fn visible_tags(admin_id: i64, tags: &TagSet) -> (r: TagSet)
    ensures
        r@ == if admin_id == SUPER_ADMIN_ID {
            tags@
        } else {
            Seq::<TagV>::empty()
        },
{
    if admin_id == SUPER_ADMIN_ID {
        tags.dup()
    } else {
        TagSet::empty()
    }
}

/// Whether `admin` may delete, block or unblock `user`'s record.
pub fn can_manage_satgas(admin: &Account, user: &Account) -> (r: bool)
    ensures
        r == can_manage_satgas_spec(admin.id, admin.tags@, user.tags@),
{
    if admin.id == SUPER_ADMIN_ID {
        return true;
    }
    if !user.is_satgas() {
        return false;
    }
    let a = admin.get_city_id();
    let u = user.get_city_id();
    match (a, u) {
        (Some(x), Some(y)) => x == y,
        (None, None) => true,
        _ => false,
    }
}

} // verus!

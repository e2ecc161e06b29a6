//! The tag encoding model: account metadata is an ordered list of string
//! tags, each one of three meaningful shapes — a presence-only marker
//! `:name:`, a key/value attribute `key=value`, or an access grant
//! `access.<capability>` — with anything else kept verbatim as free text.

use vstd::prelude::*;

use crate::strutil::{
    first_char_idx, first_char_pos, has_prefix, is_prefix_of, lemma_first_char_props, seq_has_char,
    str_eq,
};

verus! {

/// The decoded, mathematical form of one tag.
pub ghost enum TagV {
    Marker(Seq<char>),
    Attribute(Seq<char>, Seq<char>),
    Access(Seq<char>),
    Free(Seq<char>),
}

/// The decoded, typed form of one tag.
pub enum Tag {
    Marker(String),
    Attribute(String, String),
    Access(String),
    Free(String),
}

impl View for Tag {
    type V = TagV;

    open spec fn view(&self) -> TagV {
        match self {
            Tag::Marker(n) => TagV::Marker(n@),
            Tag::Attribute(k, v) => TagV::Attribute(k@, v@),
            Tag::Access(c) => TagV::Access(c@),
            Tag::Free(s) => TagV::Free(s@),
        }
    }
}

/// The `access.` prefix that carries a capability grant.
pub open spec fn access_prefix() -> Seq<char> {
    "access."@
}

/// The string a tag encodes to.
pub open spec fn encode_v(t: TagV) -> Seq<char> {
    match t {
        TagV::Marker(n) => seq![':'] + n + seq![':'],
        TagV::Attribute(k, v) => k + seq!['='] + v,
        TagV::Access(c) => access_prefix() + c,
        TagV::Free(s) => s,
    }
}

/// The tag a string decodes to: a marker when wrapped in colons, else an
/// access grant when prefixed `access.`, else an attribute split at the
/// first `=`, else free text.
pub open spec fn decode_v(s: Seq<char>) -> TagV {
    if s.len() >= 2 && s[0] == ':' && s[s.len() - 1] == ':' {
        TagV::Marker(s.subrange(1, s.len() - 1))
    } else if is_prefix_of(access_prefix(), s) {
        TagV::Access(s.subrange(access_prefix().len() as int, s.len() as int))
    } else if seq_has_char(s, '=') {
        TagV::Attribute(
            s.subrange(0, first_char_idx(s, '=') as int),
            s.subrange(first_char_idx(s, '=') as int + 1, s.len() as int),
        )
    } else {
        TagV::Free(s)
    }
}

/// Decoding a stored tag and encoding it again restores the stored string
/// byte for byte, whatever it held.
pub proof fn lemma_encode_decode(s: Seq<char>)
    ensures
        encode_v(decode_v(s)) == s,
{
    reveal_strlit("access.");
    if s.len() >= 2 && s[0] == ':' && s[s.len() - 1] == ':' {
        assert(seq![':'] + s.subrange(1, s.len() - 1) + seq![':'] =~= s);
    } else if is_prefix_of(access_prefix(), s) {
        assert(access_prefix() + s.subrange(access_prefix().len() as int, s.len() as int) =~= s);
    } else if seq_has_char(s, '=') {
        lemma_first_char_props(s, '=');
        let i = first_char_idx(s, '=') as int;
        assert(i < s.len()) by {
            if i == s.len() {
                let w = choose|w: int| 0 <= w < s.len() && s[w] == '=';
                assert(s[w] != '=');
            }
        }
        assert(s.subrange(0, i) + seq!['='] + s.subrange(i + 1, s.len() as int) =~= s);
    } else {
    }
}

/// Decodes one stored tag string into its typed form.
pub fn decode_tag(s: &str) -> (r: Tag)
    ensures
        r@ == decode_v(s@),
{
    let n = s.unicode_len();
    if n >= 2 && s.get_char(0) == ':' && s.get_char(n - 1) == ':' {
        Tag::Marker(String::from_str(s.substring_char(1, n - 1)))
    } else if has_prefix(s, "access.") {
        let pl = "access.".unicode_len();
        proof {
            reveal_strlit("access.");
        }
        Tag::Access(String::from_str(s.substring_char(pl, n)))
    } else {
        let e = first_char_pos(s, '=');
        proof {
            lemma_first_char_props(s@, '=');
        }
        if e < n {
            proof {
                assert(seq_has_char(s@, '='));
            }
            Tag::Attribute(
                String::from_str(s.substring_char(0, e)),
                String::from_str(s.substring_char(e + 1, n)),
            )
        } else {
            proof {
                assert(!seq_has_char(s@, '='));
            }
            Tag::Free(String::from_str(s))
        }
    }
}

/// Encodes one typed tag back into its stored string form.
pub fn encode_tag(t: &Tag) -> (r: String)
    ensures
        r@ == encode_v(t@),
{
    match t {
        Tag::Marker(n) => {
            let mut r = String::from_str(":");
            r.append(n.as_str());
            r.append(":");
            proof {
                reveal_strlit(":");
                assert(":"@ =~= seq![':']);
            }
            r
        },
        Tag::Attribute(k, v) => {
            let mut r = String::from_str(k.as_str());
            r.append("=");
            r.append(v.as_str());
            proof {
                reveal_strlit("=");
                assert("="@ =~= seq!['=']);
            }
            r
        },
        Tag::Access(c) => {
            let mut r = String::from_str("access.");
            r.append(c.as_str());
            r
        },
        Tag::Free(s) => String::from_str(s.as_str()),
    }
}

/// A `:name:` marker tag.
pub fn encode_marker(name: &str) -> (r: Tag)
    ensures
        r@ == TagV::Marker(name@),
{
    Tag::Marker(String::from_str(name))
}

/// A `key=value` attribute tag.
pub fn encode_attribute(key: &str, value: &str) -> (r: Tag)
    ensures
        r@ == TagV::Attribute(key@, value@),
{
    Tag::Attribute(String::from_str(key), String::from_str(value))
}

/// An `access.<capability>` grant tag.
pub fn encode_access(capability: &str) -> (r: Tag)
    ensures
        r@ == TagV::Access(capability@),
{
    Tag::Access(String::from_str(capability))
}

/// A copy of a typed tag, equal in the model.
pub fn dup_tag(t: &Tag) -> (r: Tag)
    ensures
        r@ == t@,
{
    match t {
        Tag::Marker(n) => Tag::Marker(n.clone()),
        Tag::Attribute(k, v) => Tag::Attribute(k.clone(), v.clone()),
        Tag::Access(c) => Tag::Access(c.clone()),
        Tag::Free(s) => Tag::Free(s.clone()),
    }
}

/// The account id that bypasses every per-capability access check.
pub const SUPER_ADMIN_ID: i64 = 1;

/// An ordered list of typed tags attached to an account record.
/// Order is insertion order; it carries no meaning for matching but is
/// preserved for round-trip display.
pub struct TagSet {
    pub tags: Vec<Tag>,
}

impl View for TagSet {
    type V = Seq<TagV>;

    open spec fn view(&self) -> Seq<TagV> {
        self.tags@.map_values(|t: Tag| t@)
    }
}

/// Some tag is exactly the marker `:name:`.
pub open spec fn has_marker_spec(ts: Seq<TagV>, name: Seq<char>) -> bool {
    exists|i: int| 0 <= i < ts.len() && ts[i] == TagV::Marker(name)
}

/// Some tag is exactly the grant `access.<cap>`.
pub open spec fn has_grant_spec(ts: Seq<TagV>, cap: Seq<char>) -> bool {
    exists|i: int| 0 <= i < ts.len() && ts[i] == TagV::Access(cap)
}

/// The capability is granted, or the account is the super-admin.
pub open spec fn has_access_spec(ts: Seq<TagV>, account_id: i64, cap: Seq<char>) -> bool {
    account_id == SUPER_ADMIN_ID || has_grant_spec(ts, cap)
}

/// Value of the first attribute tag with the given key, in stored order;
/// later tags with the same key are tolerated and ignored.
pub open spec fn first_attr(ts: Seq<TagV>, key: Seq<char>) -> Option<Seq<char>>
    decreases ts.len(),
{
    if ts.len() == 0 {
        None
    } else {
        match ts[0] {
            TagV::Attribute(k, v) => if k == key {
                Some(v)
            } else {
                first_attr(ts.drop_first(), key)
            },
            _ => first_attr(ts.drop_first(), key),
        }
    }
}

/// The tags that are not access grants, in order.
pub open spec fn drop_access(ts: Seq<TagV>) -> Seq<TagV>
    decreases ts.len(),
{
    if ts.len() == 0 {
        Seq::empty()
    } else if ts[0] is Access {
        drop_access(ts.drop_first())
    } else {
        seq![ts[0]] + drop_access(ts.drop_first())
    }
}

/// The access-grant tags only, in order.
pub open spec fn keep_access(ts: Seq<TagV>) -> Seq<TagV>
    decreases ts.len(),
{
    if ts.len() == 0 {
        Seq::empty()
    } else if ts[0] is Access {
        seq![ts[0]] + keep_access(ts.drop_first())
    } else {
        keep_access(ts.drop_first())
    }
}

/// One grant tag per capability, in the order given.
pub open spec fn access_tags_of(caps: Seq<Seq<char>>) -> Seq<TagV>
    decreases caps.len(),
{
    if caps.len() == 0 {
        Seq::empty()
    } else {
        seq![TagV::Access(caps[0])] + access_tags_of(caps.drop_first())
    }
}

/// Replacing the grants drops every access tag and appends one grant per
/// new capability, leaving all other tags in place.
pub open spec fn replace_grants_spec(ts: Seq<TagV>, caps: Seq<Seq<char>>) -> Seq<TagV> {
    drop_access(ts) + access_tags_of(caps)
}

/// Some tag of `a` equals some tag of `b`.
pub open spec fn contains_any_spec(a: Seq<TagV>, b: Seq<TagV>) -> bool {
    exists|i: int, j: int| 0 <= i < a.len() && 0 <= j < b.len() && a[i] == b[j]
}

impl TagSet {
    /// A tag set with no tags.
    pub fn empty() -> (r: TagSet)
        ensures
            r@ == Seq::<TagV>::empty(),
    {
        let r = TagSet { tags: Vec::new() };
        proof {
            assert(r@ =~= Seq::<TagV>::empty());
        }
        r
    }

    /// An equal copy of this tag set.
    pub fn dup(&self) -> (r: TagSet)
        ensures
            r@ == self@,
    {
        let mut out: Vec<Tag> = Vec::new();
        let mut i: usize = 0;
        while i < self.tags.len()
            invariant
                0 <= i <= self.tags.len(),
                out@.len() == i,
                forall|j: int| 0 <= j < i ==> out@[j]@ == self.tags@[j]@,
            decreases self.tags.len() - i,
        {
            out.push(dup_tag(&self.tags[i]));
            i = i + 1;
        }
        let r = TagSet { tags: out };
        proof {
            assert(r@ =~= self@);
        }
        r
    }

    /// Decodes a stored list of tag strings into a typed tag set.
    pub fn decode(raw: &Vec<String>) -> (r: TagSet)
        ensures
            r@.len() == raw@.len(),
            forall|i: int| 0 <= i < raw@.len() ==> r@[i] == decode_v(#[trigger] raw@[i]@),
    {
        let mut out: Vec<Tag> = Vec::new();
        let mut i: usize = 0;
        while i < raw.len()
            invariant
                0 <= i <= raw.len(),
                out@.len() == i,
                forall|j: int| 0 <= j < i ==> out@[j]@ == decode_v(#[trigger] raw@[j]@),
            decreases raw.len() - i,
        {
            out.push(decode_tag(raw[i].as_str()));
            i = i + 1;
        }
        TagSet { tags: out }
    }

    /// Encodes the tag set back into its stored list of strings.
    pub fn encode(&self) -> (r: Vec<String>)
        ensures
            r@.len() == self@.len(),
            forall|i: int| 0 <= i < self@.len() ==> (#[trigger] r@[i]@) == encode_v(self@[i]),
    {
        let mut out: Vec<String> = Vec::new();
        let mut i: usize = 0;
        while i < self.tags.len()
            invariant
                0 <= i <= self.tags.len(),
                out@.len() == i,
                forall|j: int| 0 <= j < i ==> (#[trigger] out@[j]@) == encode_v(self.tags@[j]@),
            decreases self.tags.len() - i,
        {
            out.push(encode_tag(&self.tags[i]));
            i = i + 1;
        }
        out
    }

    /// True iff some tag equals the marker `:name:` exactly.
    pub fn has_marker(&self, name: &str) -> (r: bool)
        ensures
            r == has_marker_spec(self@, name@),
    {
        let mut i: usize = 0;
        while i < self.tags.len()
            invariant
                0 <= i <= self.tags.len(),
                forall|j: int| 0 <= j < i ==> self@[j] != TagV::Marker(name@),
            decreases self.tags.len() - i,
        {
            match &self.tags[i] {
                Tag::Marker(n) => {
                    if str_eq(n.as_str(), name) {
                        proof {
                            assert(self@[i as int] == TagV::Marker(name@));
                        }
                        return true;
                    }
                },
                _ => {},
            }
            proof {
                assert(self@[i as int] != TagV::Marker(name@));
            }
            i = i + 1;
        }
        false
    }

    /// Value of the first `key=...` tag in stored order, if any.
    pub fn get_attribute(&self, key: &str) -> (r: Option<String>)
        ensures
            match r {
                Some(v) => first_attr(self@, key@) == Some(v@),
                None => first_attr(self@, key@) is None,
            },
    {
        let mut i: usize = 0;
        proof {
            assert(self@.skip(0) =~= self@);
        }
        while i < self.tags.len()
            invariant
                0 <= i <= self.tags.len(),
                first_attr(self@, key@) == first_attr(self@.skip(i as int), key@),
            decreases self.tags.len() - i,
        {
            let ghost rest = self@.skip(i as int);
            proof {
                assert(rest[0] == self@[i as int]);
                assert(rest.drop_first() =~= self@.skip(i as int + 1));
            }
            match &self.tags[i] {
                Tag::Attribute(k, v) => {
                    if str_eq(k.as_str(), key) {
                        return Some(v.clone());
                    }
                },
                _ => {},
            }
            i = i + 1;
        }
        proof {
            assert(self@.skip(self.tags@.len() as int) =~= Seq::<TagV>::empty());
        }
        None
    }

    /// True iff the capability is granted by some `access.<cap>` tag, or the
    /// account is the super-admin, whose id bypasses every check.
    pub fn has_access(&self, account_id: i64, capability: &str) -> (r: bool)
        ensures
            r == has_access_spec(self@, account_id, capability@),
    {
        if account_id == SUPER_ADMIN_ID {
            return true;
        }
        let mut i: usize = 0;
        while i < self.tags.len()
            invariant
                0 <= i <= self.tags.len(),
                forall|j: int| 0 <= j < i ==> self@[j] != TagV::Access(capability@),
            decreases self.tags.len() - i,
        {
            match &self.tags[i] {
                Tag::Access(c) => {
                    if str_eq(c.as_str(), capability) {
                        proof {
                            assert(self@[i as int] == TagV::Access(capability@));
                        }
                        return true;
                    }
                },
                _ => {},
            }
            proof {
                assert(self@[i as int] != TagV::Access(capability@));
            }
            i = i + 1;
        }
        false
    }

    /// Drops every `access.*` tag and appends one grant per entry of
    /// `caps`, in the order given: the only supported way to change grants.
    pub fn replace_access_grants(&self, caps: &Vec<String>) -> (r: TagSet)
        ensures
            r@ == replace_grants_spec(self@, caps@.map_values(|c: String| c@)),
    {
        let ghost capsv = caps@.map_values(|c: String| c@);
        let mut out: Vec<Tag> = Vec::new();
        let mut i: usize = 0;
        while i < self.tags.len()
            invariant
                0 <= i <= self.tags.len(),
                out@.map_values(|t: Tag| t@) =~= drop_access(self@.subrange(0, i as int)),
            decreases self.tags.len() - i,
        {
            let ghost prefix = self@.subrange(0, i as int);
            let ghost outv = out@.map_values(|t: Tag| t@);
            proof {
                assert(self@.subrange(0, i as int + 1) =~= prefix.push(self@[i as int]));
                lemma_drop_access_push(prefix, self@[i as int]);
            }
            match &self.tags[i] {
                Tag::Access(_) => {
                    proof {
                        assert(self@[i as int] is Access);
                    }
                },
                _ => {
                    let t = dup_tag(&self.tags[i]);
                    proof {
                        assert(!(self@[i as int] is Access));
                    }
                    out.push(t);
                    proof {
                        assert(out@.map_values(|t: Tag| t@) =~= outv.push(self@[i as int]));
                        assert(outv.push(self@[i as int]) =~= outv + seq![self@[i as int]]);
                    }
                },
            }
            i = i + 1;
        }
        proof {
            assert(self@.subrange(0, self@.len() as int) =~= self@);
        }
        let mut j: usize = 0;
        while j < caps.len()
            invariant
                0 <= j <= caps.len(),
                capsv == caps@.map_values(|c: String| c@),
                capsv.len() == caps@.len(),
                out@.map_values(|t: Tag| t@) =~= drop_access(self@) + access_tags_of(
                    capsv.subrange(0, j as int),
                ),
            decreases caps.len() - j,
        {
            let ghost gpre = capsv.subrange(0, j as int);
            let ghost outv = out@.map_values(|t: Tag| t@);
            out.push(Tag::Access(caps[j].clone()));
            proof {
                assert(capsv.subrange(0, j as int + 1) =~= gpre.push(capsv[j as int]));
                lemma_access_tags_push(gpre, capsv[j as int]);
                assert(out@.map_values(|t: Tag| t@) =~= outv.push(TagV::Access(capsv[j as int])));
            }
            j = j + 1;
        }
        proof {
            assert(capsv.subrange(0, capsv.len() as int) =~= capsv);
        }
        let r = TagSet { tags: out };
        proof {
            assert(r@ =~= replace_grants_spec(self@, capsv));
        }
        r
    }

    /// True iff some tag here equals some tag of `candidates`.
    pub fn contains_any(&self, candidates: &TagSet) -> (r: bool)
        ensures
            r == contains_any_spec(self@, candidates@),
    {
        let mut i: usize = 0;
        while i < self.tags.len()
            invariant
                0 <= i <= self.tags.len(),
                forall|i2: int, j2: int|
                    0 <= i2 < i && 0 <= j2 < candidates@.len() ==> self@[i2] != candidates@[j2],
            decreases self.tags.len() - i,
        {
            let mut j: usize = 0;
            while j < candidates.tags.len()
                invariant
                    0 <= j <= candidates.tags.len(),
                    forall|j2: int| 0 <= j2 < j ==> self@[i as int] != candidates@[j2],
                    i < self.tags.len(),
                decreases candidates.tags.len() - j,
            {
                if tag_eq(&self.tags[i], &candidates.tags[j]) {
                    proof {
                        assert(self@[i as int] == candidates@[j as int]);
                    }
                    return true;
                }
                proof {
                    assert(self@[i as int] != candidates@[j as int]);
                }
                j = j + 1;
            }
            i = i + 1;
        }
        false
    }

    /// True iff no tag here equals any tag of `excluded`.
    pub fn contains_none(&self, excluded: &TagSet) -> (r: bool)
        ensures
            r == !contains_any_spec(self@, excluded@),
    {
        !self.contains_any(excluded)
    }
}

pub proof fn lemma_drop_access_push(ts: Seq<TagV>, t: TagV)
    ensures
        drop_access(ts.push(t)) == if t is Access {
            drop_access(ts)
        } else {
            drop_access(ts) + seq![t]
        },
    decreases ts.len(),
{
    let p = ts.push(t);
    assert(p[ts.len() as int] == t);
    if ts.len() == 0 {
        assert(p[0] == t);
        assert(p.drop_first() =~= Seq::<TagV>::empty());
        assert(drop_access(Seq::<TagV>::empty()) == Seq::<TagV>::empty());
        assert(drop_access(p.drop_first()) == Seq::<TagV>::empty());
        assert(drop_access(ts) == Seq::<TagV>::empty());
        if !(t is Access) {
            assert(drop_access(p) == seq![p[0]] + drop_access(p.drop_first()));
            assert(seq![t] + Seq::<TagV>::empty() =~= seq![t]);
            assert(drop_access(ts) + seq![t] =~= seq![t]);
        } else {
            assert(drop_access(p) == drop_access(p.drop_first()));
        }
    } else {
        assert(p[0] == ts[0]);
        assert(p.drop_first() =~= ts.drop_first().push(t));
        lemma_drop_access_push(ts.drop_first(), t);
        if !(ts[0] is Access) && !(t is Access) {
            assert(seq![ts[0]] + (drop_access(ts.drop_first()) + seq![t]) =~= (seq![ts[0]]
                + drop_access(ts.drop_first())) + seq![t]);
        }
    }
}

pub proof fn lemma_keep_access_push(ts: Seq<TagV>, t: TagV)
    ensures
        keep_access(ts.push(t)) == if t is Access {
            keep_access(ts) + seq![t]
        } else {
            keep_access(ts)
        },
    decreases ts.len(),
{
    let p = ts.push(t);
    assert(p[ts.len() as int] == t);
    if ts.len() == 0 {
        assert(p[0] == t);
        assert(p.drop_first() =~= Seq::<TagV>::empty());
        assert(keep_access(Seq::<TagV>::empty()) == Seq::<TagV>::empty());
        assert(keep_access(p.drop_first()) == Seq::<TagV>::empty());
        assert(keep_access(ts) == Seq::<TagV>::empty());
        if t is Access {
            assert(keep_access(p) == seq![p[0]] + keep_access(p.drop_first()));
            assert(seq![t] + Seq::<TagV>::empty() =~= seq![t]);
            assert(keep_access(ts) + seq![t] =~= seq![t]);
        } else {
            assert(keep_access(p) == keep_access(p.drop_first()));
        }
    } else {
        assert(p[0] == ts[0]);
        assert(p.drop_first() =~= ts.drop_first().push(t));
        lemma_keep_access_push(ts.drop_first(), t);
        if ts[0] is Access && t is Access {
            assert(seq![ts[0]] + (keep_access(ts.drop_first()) + seq![t]) =~= (seq![ts[0]]
                + keep_access(ts.drop_first())) + seq![t]);
        }
    }
}

pub proof fn lemma_access_tags_push(caps: Seq<Seq<char>>, c: Seq<char>)
    ensures
        access_tags_of(caps.push(c)) == access_tags_of(caps) + seq![TagV::Access(c)],
    decreases caps.len(),
{
    let p = caps.push(c);
    if caps.len() == 0 {
        assert(p.drop_first() =~= Seq::<Seq<char>>::empty());
        assert(seq![TagV::Access(c)] + access_tags_of(Seq::<Seq<char>>::empty()) =~= access_tags_of(
            caps,
        ) + seq![TagV::Access(c)]);
    } else {
        assert(p.drop_first() =~= caps.drop_first().push(c));
        lemma_access_tags_push(caps.drop_first(), c);
        assert(seq![TagV::Access(caps[0])] + (access_tags_of(caps.drop_first()) + seq![
            TagV::Access(c),
        ]) =~= (seq![TagV::Access(caps[0])] + access_tags_of(caps.drop_first())) + seq![
            TagV::Access(c),
        ]);
    }
}

pub proof fn lemma_drop_access_distributes(a: Seq<TagV>, b: Seq<TagV>)
    ensures
        drop_access(a + b) == drop_access(a) + drop_access(b),
    decreases a.len(),
{
    if a.len() == 0 {
        assert(a + b =~= b);
        assert(drop_access(a) == Seq::<TagV>::empty());
        assert(Seq::<TagV>::empty() + drop_access(b) =~= drop_access(b));
    } else {
        let c = a + b;
        assert(c[0] == a[0]);
        assert(c.drop_first() =~= a.drop_first() + b);
        lemma_drop_access_distributes(a.drop_first(), b);
        if !(a[0] is Access) {
            assert(seq![a[0]] + (drop_access(a.drop_first()) + drop_access(b)) =~= (seq![a[0]]
                + drop_access(a.drop_first())) + drop_access(b));
        }
    }
}

pub proof fn lemma_keep_access_distributes(a: Seq<TagV>, b: Seq<TagV>)
    ensures
        keep_access(a + b) == keep_access(a) + keep_access(b),
    decreases a.len(),
{
    if a.len() == 0 {
        assert(a + b =~= b);
        assert(keep_access(a) == Seq::<TagV>::empty());
        assert(Seq::<TagV>::empty() + keep_access(b) =~= keep_access(b));
    } else {
        let c = a + b;
        assert(c[0] == a[0]);
        assert(c.drop_first() =~= a.drop_first() + b);
        lemma_keep_access_distributes(a.drop_first(), b);
        if a[0] is Access {
            assert(seq![a[0]] + (keep_access(a.drop_first()) + keep_access(b)) =~= (seq![a[0]]
                + keep_access(a.drop_first())) + keep_access(b));
        }
    }
}

pub proof fn lemma_access_tags_all_access(caps: Seq<Seq<char>>)
    ensures
        drop_access(access_tags_of(caps)) == Seq::<TagV>::empty(),
        keep_access(access_tags_of(caps)) == access_tags_of(caps),
    decreases caps.len(),
{
    if caps.len() == 0 {
    } else {
        let a = access_tags_of(caps);
        assert(a[0] == TagV::Access(caps[0]));
        assert(a.drop_first() =~= access_tags_of(caps.drop_first()));
        lemma_access_tags_all_access(caps.drop_first());
        assert(seq![a[0]] + keep_access(a.drop_first()) =~= a);
    }
}

pub proof fn lemma_drop_access_clean(ts: Seq<TagV>)
    ensures
        drop_access(drop_access(ts)) == drop_access(ts),
        keep_access(drop_access(ts)) == Seq::<TagV>::empty(),
    decreases ts.len(),
{
    if ts.len() == 0 {
    } else {
        lemma_drop_access_clean(ts.drop_first());
        if !(ts[0] is Access) {
            let one = seq![ts[0]];
            assert(one.drop_first() =~= Seq::<TagV>::empty());
            assert(drop_access(Seq::<TagV>::empty()) == Seq::<TagV>::empty());
            assert(keep_access(Seq::<TagV>::empty()) == Seq::<TagV>::empty());
            assert(drop_access(one) =~= one);
            assert(keep_access(one) =~= Seq::<TagV>::empty());
            lemma_drop_access_distributes(one, drop_access(ts.drop_first()));
            lemma_keep_access_distributes(one, drop_access(ts.drop_first()));
            assert(drop_access(drop_access(ts)) =~= drop_access(ts));
            assert(keep_access(drop_access(ts)) =~= Seq::<TagV>::empty());
        }
    }
}

/// Law: replacing the access grants is idempotent — doing it twice with the
/// same capability list is the same as doing it once; afterwards the grant
/// tags are exactly one per listed capability, in the order given, with no
/// grant left from before, and all other tags are untouched.
pub proof fn lemma_replace_access_grants_idempotent(ts: Seq<TagV>, caps: Seq<Seq<char>>)
    ensures
        replace_grants_spec(replace_grants_spec(ts, caps), caps) == replace_grants_spec(ts, caps),
        keep_access(replace_grants_spec(ts, caps)) == access_tags_of(caps),
        drop_access(replace_grants_spec(ts, caps)) == drop_access(ts),
{
    let once = replace_grants_spec(ts, caps);
    lemma_drop_access_distributes(drop_access(ts), access_tags_of(caps));
    lemma_keep_access_distributes(drop_access(ts), access_tags_of(caps));
    lemma_access_tags_all_access(caps);
    lemma_drop_access_clean(ts);
    assert(drop_access(once) =~= drop_access(ts));
    assert(keep_access(once) =~= access_tags_of(caps));
}

/// Law: the super-admin account passes every capability check, granted or not.
pub proof fn lemma_super_admin_has_every_access(ts: Seq<TagV>, cap: Seq<char>)
    ensures
        has_access_spec(ts, SUPER_ADMIN_ID, cap),
{
}

/// Law: decoding a stored tag list and encoding it again reproduces the
/// original ordered list byte for byte, whatever it held.
pub proof fn lemma_decode_encode_roundtrip(raw: Seq<Seq<char>>)
    ensures
        forall|i: int| 0 <= i < raw.len() ==> encode_v(decode_v(#[trigger] raw[i])) == raw[i],
{
    assert forall|i: int| 0 <= i < raw.len() implies encode_v(decode_v(#[trigger] raw[i]))
        == raw[i] by {
        lemma_encode_decode(raw[i]);
    }
}

/// Whether two typed tags are equal in the model.
pub fn tag_eq(a: &Tag, b: &Tag) -> (r: bool)
    ensures
        r == (a@ == b@),
{
    match (a, b) {
        (Tag::Marker(x), Tag::Marker(y)) => str_eq(x.as_str(), y.as_str()),
        (Tag::Attribute(k1, v1), Tag::Attribute(k2, v2)) => str_eq(k1.as_str(), k2.as_str())
            && str_eq(v1.as_str(), v2.as_str()),
        (Tag::Access(x), Tag::Access(y)) => str_eq(x.as_str(), y.as_str()),
        (Tag::Free(x), Tag::Free(y)) => str_eq(x.as_str(), y.as_str()),
        _ => false,
    }
}

} // verus!

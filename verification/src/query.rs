//! The semantic query parser: a free-text search string is split on single
//! spaces into tokens; recognized `key:value` tokens become structured
//! field filters, the first unlabelled (or `nama:`-labelled) token becomes
//! the name, and everything without a `:` is rejoined into the residual
//! free-text query. Tokens with an unrecognized `key:` prefix are dropped
//! silently. Parsing is total: no input is an error.

use vstd::prelude::*;

use crate::numbers::{parse_i32_spec, parse_i32_str};
use crate::strutil::{
    has_char, has_prefix, is_prefix_of, join_spaces, join_spaces_exec, lemma_join_split,
    lemma_split_chars, lemma_split_nonempty, seq_has_char, split_spaces, split_spaces_exec, str_eq,
};

verus! {

/// Status kinds a `status:` filter can select. Unrecognized status words
/// decode to `Unknown` instead of failing the parse.
#[derive(Clone, Copy, PartialEq, Eq, Structural, Debug)]
pub enum SubReportStatus {
    Odp,
    Pdp,
    Positive,
    Recovered,
    Death,
    Unknown,
}

/// The status word each recognized spelling decodes to.
pub open spec fn status_of(s: Seq<char>) -> SubReportStatus {
    if s == "odp"@ {
        SubReportStatus::Odp
    } else if s == "pdp"@ {
        SubReportStatus::Pdp
    } else if s == "positive"@ {
        SubReportStatus::Positive
    } else if s == "recovered"@ {
        SubReportStatus::Recovered
    } else if s == "death"@ {
        SubReportStatus::Death
    } else {
        SubReportStatus::Unknown
    }
}

/// Decodes a `status:` filter value; never fails.
pub fn decode_status(s: &str) -> (r: SubReportStatus)
    ensures
        r == status_of(s@),
{
    if str_eq(s, "odp") {
        SubReportStatus::Odp
    } else if str_eq(s, "pdp") {
        SubReportStatus::Pdp
    } else if str_eq(s, "positive") {
        SubReportStatus::Positive
    } else if str_eq(s, "recovered") {
        SubReportStatus::Recovered
    } else if str_eq(s, "death") {
        SubReportStatus::Death
    } else {
        SubReportStatus::Unknown
    }
}

pub open spec fn key_nama() -> Seq<char> {
    "nama"@
}

pub open spec fn key_tt() -> Seq<char> {
    "tt"@
}

pub open spec fn key_umur() -> Seq<char> {
    "umur"@
}

pub open spec fn key_jk() -> Seq<char> {
    "jk"@
}

pub open spec fn key_dari() -> Seq<char> {
    "dari"@
}

pub open spec fn key_status() -> Seq<char> {
    "status"@
}

pub open spec fn key_desa() -> Seq<char> {
    "desa"@
}

pub open spec fn key_kcm() -> Seq<char> {
    "kcm"@
}

/// The `key:` label that introduces a structured filter token.
pub open spec fn key_label(key: Seq<char>) -> Seq<char> {
    key + seq![':']
}

/// A token counts as a name if it has no `:` at all, or carries the
/// explicit `nama:` label.
pub open spec fn is_name_token(t: Seq<char>) -> bool {
    !seq_has_char(t, ':') || is_prefix_of(key_label(key_nama()), t)
}

/// The first token that counts as a name, kept whole — an explicit
/// `nama:Budi` token is reported with its label still attached.
pub open spec fn first_name_token(ts: Seq<Seq<char>>) -> Option<Seq<char>>
    decreases ts.len(),
{
    if ts.len() == 0 {
        None
    } else if is_name_token(ts[0]) {
        Some(ts[0])
    } else {
        first_name_token(ts.drop_first())
    }
}

/// Value of the first token labelled `key:`, with the label stripped.
pub open spec fn first_key_value(ts: Seq<Seq<char>>, key: Seq<char>) -> Option<Seq<char>>
    decreases ts.len(),
{
    if ts.len() == 0 {
        None
    } else if is_prefix_of(key_label(key), ts[0]) {
        Some(ts[0].skip(key.len() as int + 1))
    } else {
        first_key_value(ts.drop_first(), key)
    }
}

/// The tokens that carry no `:` at all, in their original order.
pub open spec fn residual_tokens(ts: Seq<Seq<char>>) -> Seq<Seq<char>>
    decreases ts.len(),
{
    if ts.len() == 0 {
        Seq::empty()
    } else if seq_has_char(ts[0], ':') {
        residual_tokens(ts.drop_first())
    } else {
        seq![ts[0]] + residual_tokens(ts.drop_first())
    }
}

/// The decoded form of a raw search string.
pub ghost struct ParsedQueryView {
    pub name: Option<Seq<char>>,
    pub residence_address: Option<Seq<char>>,
    pub age: Option<i32>,
    pub gender: Option<Seq<char>>,
    pub come_from: Option<Seq<char>>,
    pub status: Option<SubReportStatus>,
    pub village_name: Option<Seq<char>>,
    pub district_name: Option<Seq<char>>,
    pub query: Seq<char>,
}

/// What parsing a raw search string yields, field by field.
pub open spec fn spec_parse(raw: Seq<char>) -> ParsedQueryView {
    let ts = split_spaces(raw);
    ParsedQueryView {
        name: first_name_token(ts),
        residence_address: first_key_value(ts, key_tt()),
        age: match first_key_value(ts, key_umur()) {
            Some(v) => parse_i32_spec(v),
            None => None,
        },
        gender: first_key_value(ts, key_jk()),
        come_from: first_key_value(ts, key_dari()),
        status: match first_key_value(ts, key_status()) {
            Some(v) => Some(status_of(v)),
            None => None,
        },
        village_name: first_key_value(ts, key_desa()),
        district_name: first_key_value(ts, key_kcm()),
        query: join_spaces(residual_tokens(ts)),
    }
}

/// The structured fields plus residual free text read from a raw search
/// string.
pub struct ParsedQuery {
    pub name: Option<String>,
    pub residence_address: Option<String>,
    pub age: Option<i32>,
    pub gender: Option<String>,
    pub come_from: Option<String>,
    pub status: Option<SubReportStatus>,
    pub village_name: Option<String>,
    pub district_name: Option<String>,
    pub query: String,
}

pub open spec fn view_opt_str(o: Option<String>) -> Option<Seq<char>> {
    match o {
        Some(s) => Some(s@),
        None => None,
    }
}

impl View for ParsedQuery {
    type V = ParsedQueryView;

    open spec fn view(&self) -> ParsedQueryView {
        ParsedQueryView {
            name: view_opt_str(self.name),
            residence_address: view_opt_str(self.residence_address),
            age: self.age,
            gender: view_opt_str(self.gender),
            come_from: view_opt_str(self.come_from),
            status: self.status,
            village_name: view_opt_str(self.village_name),
            district_name: view_opt_str(self.district_name),
            query: self.query@,
        }
    }
}

/// The token views of a list of owned tokens.
pub open spec fn tokens_view(tokens: Seq<String>) -> Seq<Seq<char>> {
    tokens.map_values(|t: String| t@)
}

/// Whether `t` starts with the label `key:`.
fn has_key_label(t: &str, key: &str) -> (r: bool)
    ensures
        r == is_prefix_of(key_label(key@), t@),
{
    let kn = key.unicode_len();
    let tn = t.unicode_len();
    if tn <= kn {
        proof {
            assert(key_label(key@).len() == kn + 1);
        }
        return false;
    }
    if !has_prefix(t, key) {
        proof {
            if is_prefix_of(key_label(key@), t@) {
                assert forall|j: int| 0 <= j < kn implies t@.subrange(0, kn as int)[j]
                    == key@[j] by {
                    assert(t@.subrange(0, kn as int + 1)[j] == key_label(key@)[j]);
                }
                assert(t@.subrange(0, kn as int) =~= key@);
            }
        }
        return false;
    }
    let r = t.get_char(kn) == ':';
    proof {
        let lab = key_label(key@);
        if r {
            assert forall|j: int| 0 <= j < kn + 1 implies t@.subrange(0, kn as int + 1)[j]
                == lab[j] by {
                if j < kn {
                    assert(t@.subrange(0, kn as int)[j] == key@[j]);
                }
            }
            assert(t@.subrange(0, kn as int + 1) =~= lab);
        } else {
            if is_prefix_of(lab, t@) {
                assert(t@.subrange(0, kn as int + 1)[kn as int] == lab[kn as int]);
            }
        }
    }
    r
}

/// The first token counting as a name, whole.
fn find_name_token(tokens: &Vec<String>) -> (r: Option<String>)
    ensures
        match r {
            Some(s) => first_name_token(tokens_view(tokens@)) == Some(s@),
            None => first_name_token(tokens_view(tokens@)) is None,
        },
{
    let ghost tv = tokens_view(tokens@);
    let mut i: usize = 0;
    proof {
        assert(tv.skip(0) =~= tv);
    }
    while i < tokens.len()
        invariant
            0 <= i <= tokens.len(),
            tv == tokens_view(tokens@),
            tv.len() == tokens@.len(),
            first_name_token(tv) == first_name_token(tv.skip(i as int)),
        decreases tokens.len() - i,
    {
        let ghost rest = tv.skip(i as int);
        proof {
            assert(rest[0] == tv[i as int]);
            assert(tv[i as int] == tokens@[i as int]@);
            assert(rest.drop_first() =~= tv.skip(i as int + 1));
        }
        let t = tokens[i].as_str();
        if !has_char(t, ':') || has_key_label(t, "nama") {
            proof {
                assert(is_name_token(rest[0]));
            }
            return Some(tokens[i].clone());
        }
        proof {
            assert(!is_name_token(rest[0]));
        }
        i = i + 1;
    }
    proof {
        assert(tv.skip(tv.len() as int) =~= Seq::<Seq<char>>::empty());
    }
    None
}

/// Value of the first token labelled `key:`, label stripped.
fn find_key_value(tokens: &Vec<String>, key: &str) -> (r: Option<String>)
    ensures
        match r {
            Some(v) => first_key_value(tokens_view(tokens@), key@) == Some(v@),
            None => first_key_value(tokens_view(tokens@), key@) is None,
        },
{
    let ghost tv = tokens_view(tokens@);
    let kn = key.unicode_len();
    let mut i: usize = 0;
    proof {
        assert(tv.skip(0) =~= tv);
    }
    while i < tokens.len()
        invariant
            0 <= i <= tokens.len(),
            tv == tokens_view(tokens@),
            tv.len() == tokens@.len(),
            kn == key@.len(),
            first_key_value(tv, key@) == first_key_value(tv.skip(i as int), key@),
        decreases tokens.len() - i,
    {
        let ghost rest = tv.skip(i as int);
        proof {
            assert(rest[0] == tv[i as int]);
            assert(tv[i as int] == tokens@[i as int]@);
            assert(rest.drop_first() =~= tv.skip(i as int + 1));
        }
        let t = tokens[i].as_str();
        if has_key_label(t, key) {
            let tn = t.unicode_len();
            let v = String::from_str(t.substring_char(kn + 1, tn));
            proof {
                assert(v@ =~= rest[0].skip(key@.len() as int + 1));
            }
            return Some(v);
        }
        i = i + 1;
    }
    proof {
        assert(tv.skip(tv.len() as int) =~= Seq::<Seq<char>>::empty());
    }
    None
}

proof fn lemma_residual_push(ts: Seq<Seq<char>>, t: Seq<char>)
    ensures
        residual_tokens(ts.push(t)) == if seq_has_char(t, ':') {
            residual_tokens(ts)
        } else {
            residual_tokens(ts) + seq![t]
        },
    decreases ts.len(),
{
    let p = ts.push(t);
    assert(p[ts.len() as int] == t);
    if ts.len() == 0 {
        assert(p[0] == t);
        assert(p.drop_first() =~= Seq::<Seq<char>>::empty());
        assert(residual_tokens(Seq::<Seq<char>>::empty()) == Seq::<Seq<char>>::empty());
        if !seq_has_char(t, ':') {
            assert(residual_tokens(p) == seq![p[0]] + residual_tokens(p.drop_first()));
            assert(seq![t] + Seq::<Seq<char>>::empty() =~= seq![t]);
            assert(residual_tokens(ts) + seq![t] =~= seq![t]);
        }
    } else {
        assert(p[0] == ts[0]);
        assert(p.drop_first() =~= ts.drop_first().push(t));
        lemma_residual_push(ts.drop_first(), t);
        if !seq_has_char(ts[0], ':') && !seq_has_char(t, ':') {
            assert(seq![ts[0]] + (residual_tokens(ts.drop_first()) + seq![t]) =~= (seq![ts[0]]
                + residual_tokens(ts.drop_first())) + seq![t]);
        }
    }
}

/// The tokens without any `:`, in order.
fn residual_tokens_exec(tokens: &Vec<String>) -> (r: Vec<String>)
    ensures
        tokens_view(r@) == residual_tokens(tokens_view(tokens@)),
{
    let ghost tv = tokens_view(tokens@);
    let mut out: Vec<String> = Vec::new();
    let mut i: usize = 0;
    proof {
        assert(tokens_view(out@) =~= Seq::<Seq<char>>::empty());
        assert(tv.subrange(0, 0) =~= Seq::<Seq<char>>::empty());
        assert(residual_tokens(Seq::<Seq<char>>::empty()) == Seq::<Seq<char>>::empty());
    }
    while i < tokens.len()
        invariant
            0 <= i <= tokens.len(),
            tv == tokens_view(tokens@),
            tv.len() == tokens@.len(),
            tokens_view(out@) == residual_tokens(tv.subrange(0, i as int)),
        decreases tokens.len() - i,
    {
        let ghost pre = tv.subrange(0, i as int);
        let ghost outv = tokens_view(out@);
        proof {
            assert(tv.subrange(0, i as int + 1) =~= pre.push(tv[i as int]));
            assert(tv[i as int] == tokens@[i as int]@);
            lemma_residual_push(pre, tv[i as int]);
        }
        if !has_char(tokens[i].as_str(), ':') {
            out.push(tokens[i].clone());
            proof {
                assert(tokens_view(out@) =~= outv.push(tv[i as int]));
                assert(outv.push(tv[i as int]) =~= outv + seq![tv[i as int]]);
            }
        }
        i = i + 1;
    }
    proof {
        assert(tv.subrange(0, tv.len() as int) =~= tv);
    }
    out
}

/// Parses a raw search string into structured filters plus residual text.
/// Total: any input yields a result, malformed pieces simply stay absent.
pub fn parse_query(query: &str) -> (r: ParsedQuery)
    ensures
        r@ == spec_parse(query@),
{
    let tokens = split_spaces_exec(query);
    let ghost ts = split_spaces(query@);
    proof {
        assert(tokens_view(tokens@) == ts);
    }
    let name = find_name_token(&tokens);
    let residence_address = find_key_value(&tokens, "tt");
    let age = match find_key_value(&tokens, "umur") {
        Some(v) => parse_i32_str(v.as_str()),
        None => None,
    };
    let gender = find_key_value(&tokens, "jk");
    let come_from = find_key_value(&tokens, "dari");
    let status = match find_key_value(&tokens, "status") {
        Some(v) => Some(decode_status(v.as_str())),
        None => None,
    };
    let village_name = find_key_value(&tokens, "desa");
    let district_name = find_key_value(&tokens, "kcm");
    let residual = residual_tokens_exec(&tokens);
    let q = join_spaces_exec(&residual);
    proof {
        assert(tokens_view(residual@) == residual_tokens(ts));
    }
    ParsedQuery {
        name,
        residence_address,
        age,
        gender,
        come_from,
        status,
        village_name,
        district_name,
        query: q,
    }
}

proof fn lemma_residual_all(ts: Seq<Seq<char>>)
    requires
        forall|j: int| 0 <= j < ts.len() ==> !seq_has_char(#[trigger] ts[j], ':'),
    ensures
        residual_tokens(ts) == ts,
    decreases ts.len(),
{
    if ts.len() > 0 {
        assert(!seq_has_char(ts[0], ':'));
        assert forall|j: int| 0 <= j < ts.drop_first().len() implies !seq_has_char(
            #[trigger] ts.drop_first()[j],
            ':',
        ) by {
            assert(ts.drop_first()[j] == ts[j + 1]);
        }
        lemma_residual_all(ts.drop_first());
        assert(seq![ts[0]] + ts.drop_first() =~= ts);
    }
}

proof fn lemma_first_key_value_no_colon(ts: Seq<Seq<char>>, key: Seq<char>)
    requires
        forall|j: int| 0 <= j < ts.len() ==> !seq_has_char(#[trigger] ts[j], ':'),
    ensures
        first_key_value(ts, key) is None,
    decreases ts.len(),
{
    if ts.len() > 0 {
        if is_prefix_of(key_label(key), ts[0]) {
            assert(key_label(key)[key.len() as int] == ':');
            assert(ts[0].subrange(0, key.len() as int + 1)[key.len() as int]
                == ts[0][key.len() as int]);
            assert(seq_has_char(ts[0], ':'));
        }
        assert forall|j: int| 0 <= j < ts.drop_first().len() implies !seq_has_char(
            #[trigger] ts.drop_first()[j],
            ':',
        ) by {
            assert(ts.drop_first()[j] == ts[j + 1]);
        }
        lemma_first_key_value_no_colon(ts.drop_first(), key);
    }
}

proof fn lemma_first_name_is_name(ts: Seq<Seq<char>>)
    ensures
        first_name_token(ts) matches Some(v) ==> is_name_token(v),
    decreases ts.len(),
{
    if ts.len() > 0 && !is_name_token(ts[0]) {
        lemma_first_name_is_name(ts.drop_first());
    }
}

proof fn lemma_residual_no_colon(ts: Seq<Seq<char>>)
    ensures
        forall|j: int|
            0 <= j < residual_tokens(ts).len() ==> !seq_has_char(
                #[trigger] residual_tokens(ts)[j],
                ':',
            ),
    decreases ts.len(),
{
    if ts.len() > 0 {
        lemma_residual_no_colon(ts.drop_first());
        if !seq_has_char(ts[0], ':') {
            assert forall|j: int| 0 <= j < residual_tokens(ts).len() implies !seq_has_char(
                #[trigger] residual_tokens(ts)[j],
                ':',
            ) by {
                if j > 0 {
                    assert(residual_tokens(ts)[j] == residual_tokens(ts.drop_first())[j - 1]);
                }
            }
        }
    }
}

proof fn lemma_join_no_char(ts: Seq<Seq<char>>, c: char)
    requires
        c != ' ',
        forall|j: int| 0 <= j < ts.len() ==> !seq_has_char(#[trigger] ts[j], c),
    ensures
        !seq_has_char(join_spaces(ts), c),
    decreases ts.len(),
{
    if ts.len() == 0 {
    } else if ts.len() == 1 {
        assert(join_spaces(ts) == ts[0]);
    } else {
        let rest = ts.subrange(1, ts.len() as int);
        assert forall|j: int| 0 <= j < rest.len() implies !seq_has_char(#[trigger] rest[j], c) by {
            assert(rest[j] == ts[j + 1]);
        }
        lemma_join_no_char(rest, c);
        let a = ts[0] + seq![' '];
        let whole = join_spaces(ts);
        assert(whole =~= a + join_spaces(rest));
        assert forall|m: int| 0 <= m < whole.len() implies whole[m] != c by {
            if m < a.len() {
                if m < ts[0].len() {
                    assert(whole[m] == ts[0][m]);
                    assert(!seq_has_char(ts[0], c));
                } else {
                    assert(whole[m] == ' ');
                }
            } else {
                assert(whole[m] == join_spaces(rest)[m - a.len()]);
            }
        }
    }
}

/// Law: when the raw string contains no `:` at all, the residual query is
/// the raw string itself, the name is the first token, and every other
/// structured field is absent.
pub proof fn lemma_parse_plain_query(raw: Seq<char>)
    requires
        !seq_has_char(raw, ':'),
    ensures
        spec_parse(raw).query == raw,
        spec_parse(raw).name == Some(split_spaces(raw)[0]),
        spec_parse(raw).residence_address is None,
        spec_parse(raw).age is None,
        spec_parse(raw).gender is None,
        spec_parse(raw).come_from is None,
        spec_parse(raw).status is None,
        spec_parse(raw).village_name is None,
        spec_parse(raw).district_name is None,
{
    let ts = split_spaces(raw);
    lemma_split_chars(raw);
    lemma_split_nonempty(raw);
    assert forall|j: int| 0 <= j < ts.len() implies !seq_has_char(#[trigger] ts[j], ':') by {
        if seq_has_char(ts[j], ':') {
            let k = choose|k: int| 0 <= k < ts[j].len() && ts[j][k] == ':';
            assert(seq_has_char(raw, ts[j][k]));
        }
    }
    lemma_residual_all(ts);
    lemma_join_split(raw);
    lemma_first_key_value_no_colon(ts, key_tt());
    lemma_first_key_value_no_colon(ts, key_umur());
    lemma_first_key_value_no_colon(ts, key_jk());
    lemma_first_key_value_no_colon(ts, key_dari());
    lemma_first_key_value_no_colon(ts, key_status());
    lemma_first_key_value_no_colon(ts, key_desa());
    lemma_first_key_value_no_colon(ts, key_kcm());
    assert(is_name_token(ts[0]));
}

/// Law (silent data loss): a token that contains `:` but carries no
/// recognized key label vanishes entirely: it is never the name, the
/// residual query's tokens never contain `:` (so none of them is the
/// token), and no structured field value is read from it.
pub proof fn lemma_unrecognized_token_dropped(raw: Seq<char>, t: Seq<char>)
    requires
        seq_has_char(t, ':'),
        !is_prefix_of(key_label(key_nama()), t),
        !is_prefix_of(key_label(key_tt()), t),
        !is_prefix_of(key_label(key_umur()), t),
        !is_prefix_of(key_label(key_jk()), t),
        !is_prefix_of(key_label(key_dari()), t),
        !is_prefix_of(key_label(key_status()), t),
        !is_prefix_of(key_label(key_desa()), t),
        !is_prefix_of(key_label(key_kcm()), t),
    ensures
        spec_parse(raw).name != Some(t),
        forall|j: int|
            0 <= j < split_spaces(spec_parse(raw).query).len() ==> !seq_has_char(
                #[trigger] split_spaces(spec_parse(raw).query)[j],
                ':',
            ) && split_spaces(spec_parse(raw).query)[j] != t,
        spec_parse(raw).residence_address matches Some(v) ==> key_label(key_tt()) + v != t,
        spec_parse(raw).gender matches Some(v) ==> key_label(key_jk()) + v != t,
        spec_parse(raw).come_from matches Some(v) ==> key_label(key_dari()) + v != t,
        spec_parse(raw).village_name matches Some(v) ==> key_label(key_desa()) + v != t,
        spec_parse(raw).district_name matches Some(v) ==> key_label(key_kcm()) + v != t,
        first_key_value(split_spaces(raw), key_umur()) matches Some(v) ==> key_label(key_umur())
            + v != t,
        first_key_value(split_spaces(raw), key_status()) matches Some(v) ==> key_label(key_status())
            + v != t,
{
    let ts = split_spaces(raw);
    lemma_first_name_is_name(ts);
    assert(!is_name_token(t));
    let residual = spec_parse(raw).query;
    lemma_residual_no_colon(ts);
    lemma_join_no_char(residual_tokens(ts), ':');
    lemma_split_chars(residual);
    assert forall|j: int| 0 <= j < split_spaces(residual).len() implies !seq_has_char(
        #[trigger] split_spaces(residual)[j],
        ':',
    ) && split_spaces(residual)[j] != t by {
        if seq_has_char(split_spaces(residual)[j], ':') {
            let k = choose|k: int|
                0 <= k < split_spaces(residual)[j].len() && split_spaces(residual)[j][k] == ':';
            assert(seq_has_char(residual, split_spaces(residual)[j][k]));
        }
    }
    assert forall|key: Seq<char>, v: Seq<char>|
        !is_prefix_of(key_label(key), t) implies #[trigger] (key_label(key) + v) != t by {
        if key_label(key) + v == t {
            assert((key_label(key) + v).subrange(0, key_label(key).len() as int) =~= key_label(
                key,
            ));
        }
    }
}

} // verus!

//! String primitives shared by the tag model and the query parser:
//! prefix and character tests, and splitting/joining on single spaces.

use vstd::prelude::*;

verus! {

/// `p` is an initial segment of `s`.
pub open spec fn is_prefix_of(p: Seq<char>, s: Seq<char>) -> bool {
    p.len() <= s.len() && s.subrange(0, p.len() as int) == p
}

/// Some position of `s` holds the character `c`.
pub open spec fn seq_has_char(s: Seq<char>, c: char) -> bool {
    exists|i: int| 0 <= i < s.len() && s[i] == c
}

/// Index of the first occurrence of `c` in `s`, or `s.len()` if there is none.
pub open spec fn first_char_idx(s: Seq<char>, c: char) -> nat
    decreases s.len(),
{
    if s.len() == 0 {
        0
    } else if s[0] == c {
        0
    } else {
        1 + first_char_idx(s.subrange(1, s.len() as int), c)
    }
}

/// Index of the first space in `s`, or `s.len()` if there is none.
pub open spec fn first_space_idx(s: Seq<char>) -> nat {
    first_char_idx(s, ' ')
}

pub proof fn lemma_first_char_props(s: Seq<char>, c: char)
    ensures
        first_char_idx(s, c) <= s.len(),
        forall|j: int| 0 <= j < first_char_idx(s, c) ==> s[j] != c,
        first_char_idx(s, c) < s.len() ==> s[first_char_idx(s, c) as int] == c,
    decreases s.len(),
{
    if s.len() == 0 {
    } else if s[0] == c {
    } else {
        let t = s.subrange(1, s.len() as int);
        lemma_first_char_props(t, c);
        assert forall|j: int| 0 <= j < first_char_idx(s, c) implies s[j] != c by {
            if j > 0 {
                assert(t[j - 1] == s[j]);
            }
        }
        if first_char_idx(s, c) < s.len() {
            assert(t[first_char_idx(t, c) as int] == s[first_char_idx(s, c) as int]);
        }
    }
}

pub proof fn lemma_first_char_at(s: Seq<char>, c: char, k: int)
    requires
        0 <= k <= s.len(),
        forall|j: int| 0 <= j < k ==> s[j] != c,
        k < s.len() ==> s[k] == c,
    ensures
        first_char_idx(s, c) == k,
    decreases s.len(),
{
    if s.len() == 0 {
    } else if k == 0 {
    } else {
        let t = s.subrange(1, s.len() as int);
        assert(s[0] != c);
        assert forall|j: int| 0 <= j < k - 1 implies t[j] != c by {
            assert(t[j] == s[j + 1]);
        }
        if k - 1 < t.len() {
            assert(t[k - 1] == s[k]);
        }
        lemma_first_char_at(t, c, k - 1);
    }
}

/// The tokens of `s`, split on every single space character.
/// Splitting never collapses runs of spaces, so empty tokens are kept,
/// and the result always has at least one element.
pub open spec fn split_spaces(s: Seq<char>) -> Seq<Seq<char>>
    decreases s.len(),
{
    let i = first_space_idx(s);
    if i >= s.len() {
        seq![s]
    } else {
        seq![s.subrange(0, i as int)] + split_spaces(s.subrange(i as int + 1, s.len() as int))
    }
}

/// The tokens joined back with a single space between adjacent tokens.
pub open spec fn join_spaces(ts: Seq<Seq<char>>) -> Seq<char>
    decreases ts.len(),
{
    if ts.len() == 0 {
        Seq::empty()
    } else if ts.len() == 1 {
        ts[0]
    } else {
        ts[0] + seq![' '] + join_spaces(ts.subrange(1, ts.len() as int))
    }
}

pub proof fn lemma_first_space_props(s: Seq<char>)
    ensures
        first_space_idx(s) <= s.len(),
        forall|j: int| 0 <= j < first_space_idx(s) ==> s[j] != ' ',
        first_space_idx(s) < s.len() ==> s[first_space_idx(s) as int] == ' ',
{
    lemma_first_char_props(s, ' ');
}

pub proof fn lemma_first_space_at(s: Seq<char>, k: int)
    requires
        0 <= k <= s.len(),
        forall|j: int| 0 <= j < k ==> s[j] != ' ',
        k < s.len() ==> s[k] == ' ',
    ensures
        first_space_idx(s) == k,
{
    lemma_first_char_at(s, ' ', k);
}

/// Splitting yields at least one token, even on the empty string.
pub proof fn lemma_split_nonempty(s: Seq<char>)
    ensures
        split_spaces(s).len() >= 1,
{
}

/// No token of `split_spaces(s)` contains a space, and every character of
/// every token occurs in `s`.
pub proof fn lemma_split_chars(s: Seq<char>)
    ensures
        forall|j: int, k: int|
            0 <= j < split_spaces(s).len() && 0 <= k < split_spaces(s)[j].len() ==> (#[trigger] split_spaces(s)[j][k])
                != ' ' && seq_has_char(s, split_spaces(s)[j][k]),
    decreases s.len(),
{
    lemma_first_space_props(s);
    let i = first_space_idx(s);
    let ts = split_spaces(s);
    if i >= s.len() {
        assert forall|j: int, k: int|
            0 <= j < ts.len() && 0 <= k < ts[j].len() implies (#[trigger] ts[j][k]) != ' '
            && seq_has_char(s, ts[j][k]) by {
            assert(ts[j] == s);
            assert(s[k] == ts[j][k]);
        }
    } else {
        let rest = s.subrange(i as int + 1, s.len() as int);
        lemma_split_chars(rest);
        assert forall|j: int, k: int|
            0 <= j < ts.len() && 0 <= k < ts[j].len() implies (#[trigger] ts[j][k]) != ' '
            && seq_has_char(s, ts[j][k]) by {
            if j == 0 {
                assert(ts[0] == s.subrange(0, i as int));
                assert(ts[0][k] == s[k]);
            } else {
                assert(ts[j] == split_spaces(rest)[j - 1]);
                assert(seq_has_char(rest, ts[j][k]));
                let m = choose|m: int| 0 <= m < rest.len() && rest[m] == ts[j][k];
                assert(s[i + 1 + m] == rest[m]);
            }
        }
    }
}

/// Joining the tokens of `s` restores `s` exactly.
pub proof fn lemma_join_split(s: Seq<char>)
    ensures
        join_spaces(split_spaces(s)) == s,
    decreases s.len(),
{
    lemma_first_space_props(s);
    let i = first_space_idx(s);
    if i >= s.len() {
    } else {
        let head = s.subrange(0, i as int);
        let rest = s.subrange(i as int + 1, s.len() as int);
        lemma_join_split(rest);
        lemma_split_nonempty(rest);
        let ts = split_spaces(s);
        assert(ts.subrange(1, ts.len() as int) =~= split_spaces(rest));
        assert(join_spaces(ts) == head + seq![' '] + rest);
        assert(head + seq![' '] + rest =~= s);
    }
}

/// Appending one more token extends the join by a separating space.
pub proof fn lemma_join_push(ts: Seq<Seq<char>>, t: Seq<char>)
    requires
        ts.len() >= 1,
    ensures
        join_spaces(ts.push(t)) == join_spaces(ts) + seq![' '] + t,
    decreases ts.len(),
{
    if ts.len() == 1 {
        let p = ts.push(t);
        assert(p[0] == ts[0]);
        assert(p.subrange(1, p.len() as int) =~= seq![t]);
        assert(join_spaces(seq![t]) == t);
    } else {
        let tail = ts.subrange(1, ts.len() as int);
        lemma_join_push(tail, t);
        let p = ts.push(t);
        assert(p.subrange(1, p.len() as int) =~= tail.push(t));
        assert(join_spaces(p) == p[0] + seq![' '] + join_spaces(tail.push(t)));
        assert(join_spaces(ts) + seq![' '] + t =~= p[0] + seq![' '] + (join_spaces(tail) + seq![
            ' ',
        ] + t));
    }
}

/// Character-for-character equality of two string slices.
pub fn str_eq(a: &str, b: &str) -> (r: bool)
    ensures
        r == (a@ == b@),
{
    let na = a.unicode_len();
    let nb = b.unicode_len();
    if na != nb {
        proof {
            assert(a@ != b@);
        }
        return false;
    }
    let mut i: usize = 0;
    while i < na
        invariant
            0 <= i <= na,
            na == a@.len(),
            na == b@.len(),
            forall|j: int| 0 <= j < i ==> a@[j] == b@[j],
        decreases na - i,
    {
        if a.get_char(i) != b.get_char(i) {
            proof {
                assert(a@[i as int] != b@[i as int]);
            }
            return false;
        }
        i = i + 1;
    }
    proof {
        assert(a@ =~= b@);
    }
    true
}

/// `p` followed by anything is how `t` begins.
pub fn has_prefix(t: &str, p: &str) -> (r: bool)
    ensures
        r == is_prefix_of(p@, t@),
{
    let np = p.unicode_len();
    let nt = t.unicode_len();
    if np > nt {
        return false;
    }
    let mut i: usize = 0;
    while i < np
        invariant
            0 <= i <= np,
            np == p@.len(),
            nt == t@.len(),
            np <= nt,
            forall|j: int| 0 <= j < i ==> t@[j] == p@[j],
        decreases np - i,
    {
        if t.get_char(i) != p.get_char(i) {
            proof {
                assert(t@.subrange(0, np as int)[i as int] != p@[i as int]);
            }
            return false;
        }
        i = i + 1;
    }
    proof {
        assert(t@.subrange(0, np as int) =~= p@);
    }
    true
}

/// Whether the character `c` occurs anywhere in `t`.
pub fn has_char(t: &str, c: char) -> (r: bool)
    ensures
        r == seq_has_char(t@, c),
{
    let n = t.unicode_len();
    let mut i: usize = 0;
    while i < n
        invariant
            0 <= i <= n,
            n == t@.len(),
            forall|j: int| 0 <= j < i ==> t@[j] != c,
        decreases n - i,
    {
        if t.get_char(i) == c {
            return true;
        }
        i = i + 1;
    }
    false
}

/// Position of the first occurrence of `c` in `t`, or `t`'s length if absent.
pub fn first_char_pos(t: &str, c: char) -> (r: usize)
    ensures
        r as nat == first_char_idx(t@, c),
        r <= t@.len(),
{
    let n = t.unicode_len();
    let mut i: usize = 0;
    while i < n
        invariant
            0 <= i <= n,
            n == t@.len(),
            forall|j: int| 0 <= j < i ==> t@[j] != c,
        decreases n - i,
    {
        if t.get_char(i) == c {
            proof {
                lemma_first_char_at(t@, c, i as int);
            }
            return i;
        }
        i = i + 1;
    }
    proof {
        lemma_first_char_at(t@, c, n as int);
    }
    n
}

/// The space-separated tokens of `s`, as owned strings.
pub fn split_spaces_exec(s: &str) -> (r: Vec<String>)
    ensures
        r@.map_values(|t: String| t@) == split_spaces(s@),
{
    let n = s.unicode_len();
    let mut out: Vec<String> = Vec::new();
    let mut start: usize = 0;
    proof {
        assert(s@.subrange(0, n as int) =~= s@);
        assert(out@.map_values(|t: String| t@) =~= Seq::<Seq<char>>::empty());
    }
    loop
        invariant_except_break
            0 <= start <= n,
            n == s@.len(),
            out@.map_values(|t: String| t@) + split_spaces(s@.subrange(start as int, n as int))
                =~= split_spaces(s@),
        ensures
            out@.map_values(|t: String| t@) == split_spaces(s@),
        decreases n - start,
    {
        let ghost suffix = s@.subrange(start as int, n as int);
        let mut j: usize = start;
        while j < n && s.get_char(j) != ' '
            invariant
                start <= j <= n,
                n == s@.len(),
                forall|k: int| start <= k < j ==> s@[k] != ' ',
            decreases n - j,
        {
            j = j + 1;
        }
        proof {
            assert forall|m: int| 0 <= m < j - start implies suffix[m] != ' ' by {
                assert(suffix[m] == s@[start + m]);
            }
            if j < n {
                assert(suffix[j - start] == s@[j as int]);
            }
            lemma_first_space_at(suffix, j - start);
        }
        let tok = String::from_str(s.substring_char(start, j));
        let ghost prev = out@.map_values(|t: String| t@);
        out.push(tok);
        proof {
            assert(out@.map_values(|t: String| t@) =~= prev.push(tok@));
        }
        if j == n {
            proof {
                assert(tok@ =~= suffix);
                assert(split_spaces(suffix) == seq![suffix]);
                assert(prev.push(tok@) =~= prev + seq![suffix]);
            }
            break;
        }
        proof {
            let head = suffix.subrange(0, j - start);
            let rest = suffix.subrange(j - start + 1, suffix.len() as int);
            assert(split_spaces(suffix) == seq![head] + split_spaces(rest));
            assert(tok@ =~= head);
            assert(rest =~= s@.subrange(j as int + 1, n as int));
            assert(prev.push(tok@) + split_spaces(rest) =~= prev + (seq![head] + split_spaces(
                rest,
            )));
        }
        start = j + 1;
    }
    out
}

/// The tokens joined with single spaces, as one owned string.
pub fn join_spaces_exec(tokens: &Vec<String>) -> (r: String)
    ensures
        r@ == join_spaces(tokens@.map_values(|t: String| t@)),
{
    let ghost ts = tokens@.map_values(|t: String| t@);
    let mut r = String::new();
    let mut i: usize = 0;
    while i < tokens.len()
        invariant
            0 <= i <= tokens.len(),
            ts == tokens@.map_values(|t: String| t@),
            ts.len() == tokens@.len(),
            r@ == join_spaces(ts.subrange(0, i as int)),
        decreases tokens.len() - i,
    {
        let ghost prefix = ts.subrange(0, i as int);
        if i > 0 {
            r.append(" ");
            proof {
                reveal_strlit(" ");
            }
        }
        r.append(tokens[i].as_str());
        proof {
            assert(ts.subrange(0, i as int + 1) =~= prefix.push(ts[i as int]));
            if i > 0 {
                lemma_join_push(prefix, ts[i as int]);
                assert(" "@ =~= seq![' ']);
            } else {
                assert(join_spaces(seq![ts[0]]) == ts[0]);
                assert(prefix.push(ts[0]) =~= seq![ts[0]]);
            }
        }
        i = i + 1;
    }
    proof {
        assert(ts.subrange(0, ts.len() as int) =~= ts);
    }
    r
}

} // verus!

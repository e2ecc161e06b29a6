//! Title-casing of place names: the first character of every
//! space-separated word is uppercased and the rest are lowercased, with the
//! Unicode one-character case mappings left to the standard library.

use vstd::prelude::*;

use crate::strutil::{join_spaces, join_spaces_exec, split_spaces, split_spaces_exec};

verus! {

/// The Unicode uppercase mapping of one character (may be several
/// characters long).
pub uninterp spec fn upper_chars(c: char) -> Seq<char>;

/// The Unicode lowercase mapping of one character (may be several
/// characters long).
pub uninterp spec fn lower_chars(c: char) -> Seq<char>;

/// Relies on char::to_uppercase: the Unicode uppercase mapping, a function
/// of the character alone.
#[verifier::external_body]
fn upper_char(c: char) -> (r: String)
    ensures
        r@ == upper_chars(c),
{
    c.to_uppercase().collect::<String>()
}

/// Relies on char::to_lowercase: the Unicode lowercase mapping, a function
/// of the character alone.
#[verifier::external_body]
fn lower_char(c: char) -> (r: String)
    ensures
        r@ == lower_chars(c),
{
    c.to_lowercase().collect::<String>()
}

/// Every character of `s` lowercased, in order.
pub open spec fn lower_seq(s: Seq<char>) -> Seq<char>
    decreases s.len(),
{
    if s.len() == 0 {
        Seq::empty()
    } else {
        lower_chars(s[0]) + lower_seq(s.drop_first())
    }
}

/// One word title-cased: first character uppercased, the rest lowercased.
pub open spec fn title_word(w: Seq<char>) -> Seq<char> {
    if w.len() == 0 {
        w
    } else {
        upper_chars(w[0]) + lower_seq(w.skip(1))
    }
}

/// The whole string title-cased word by word; words are the
/// space-separated tokens, and the single spaces between them are kept.
pub open spec fn spec_title_case(s: Seq<char>) -> Seq<char> {
    join_spaces(split_spaces(s).map_values(|w: Seq<char>| title_word(w)))
}

proof fn lemma_lower_seq_push(s: Seq<char>, c: char)
    ensures
        lower_seq(s.push(c)) == lower_seq(s) + lower_chars(c),
    decreases s.len(),
{
    let p = s.push(c);
    assert(p[s.len() as int] == c);
    if s.len() == 0 {
        assert(p[0] == c);
        assert(p.drop_first() =~= Seq::<char>::empty());
        assert(lower_seq(Seq::<char>::empty()) == Seq::<char>::empty());
        assert(lower_chars(c) + Seq::<char>::empty() =~= lower_chars(c));
        assert(lower_seq(s) + lower_chars(c) =~= lower_chars(c));
    } else {
        assert(p[0] == s[0]);
        assert(p.drop_first() =~= s.drop_first().push(c));
        lemma_lower_seq_push(s.drop_first(), c);
        assert(lower_chars(s[0]) + (lower_seq(s.drop_first()) + lower_chars(c)) =~= (lower_chars(
            s[0],
        ) + lower_seq(s.drop_first())) + lower_chars(c));
    }
}

fn title_case_word(w: &str) -> (r: String)
    ensures
        r@ == title_word(w@),
{
    let n = w.unicode_len();
    if n == 0 {
        let r = String::new();
        proof {
            assert(r@ =~= w@);
        }
        return r;
    }
    let mut r = upper_char(w.get_char(0));
    proof {
        assert(w@.skip(1).subrange(0, 0) =~= Seq::<char>::empty());
        assert(lower_seq(Seq::<char>::empty()) == Seq::<char>::empty());
        assert(r@ =~= upper_chars(w@[0]) + lower_seq(w@.skip(1).subrange(0, 0)));
    }
    let mut i: usize = 1;
    while i < n
        invariant
            1 <= i <= n,
            n == w@.len(),
            r@ == upper_chars(w@[0]) + lower_seq(w@.skip(1).subrange(0, i - 1)),
        decreases n - i,
    {
        let ghost pre = w@.skip(1).subrange(0, i - 1);
        let lc = lower_char(w.get_char(i));
        r.append(lc.as_str());
        proof {
            assert(w@.skip(1).subrange(0, i as int) =~= pre.push(w@[i as int]));
            lemma_lower_seq_push(pre, w@[i as int]);
            assert((upper_chars(w@[0]) + lower_seq(pre)) + lower_chars(w@[i as int]) =~= upper_chars(
                w@[0],
            ) + (lower_seq(pre) + lower_chars(w@[i as int])));
        }
        i = i + 1;
    }
    proof {
        assert(w@.skip(1).subrange(0, n - 1) =~= w@.skip(1));
    }
    r
}

/// Title-cases a place name: `desa sukamaju` becomes `Desa Sukamaju`.
pub fn title_case(s: &str) -> (r: String)
    ensures
        r@ == spec_title_case(s@),
{
    let tokens = split_spaces_exec(s);
    let ghost ts = split_spaces(s@);
    let mut words: Vec<String> = Vec::new();
    let mut i: usize = 0;
    while i < tokens.len()
        invariant
            0 <= i <= tokens.len(),
            tokens@.map_values(|t: String| t@) == ts,
            ts.len() == tokens@.len(),
            words@.len() == i,
            forall|j: int| 0 <= j < i ==> (#[trigger] words@[j]@) == title_word(ts[j]),
        decreases tokens.len() - i,
    {
        proof {
            assert(tokens@.map_values(|t: String| t@)[i as int] == tokens@[i as int]@);
        }
        words.push(title_case_word(tokens[i].as_str()));
        i = i + 1;
    }
    let r = join_spaces_exec(&words);
    proof {
        assert(words@.map_values(|t: String| t@) =~= ts.map_values(|w: Seq<char>| title_word(w)));
    }
    r
}

} // verus!

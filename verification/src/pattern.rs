use vstd::prelude::*;

use crate::text::chars_of;

verus! {

/// SQL-style wildcard matching: `%` matches any run of characters (empty
/// included), `_` matches exactly one character, and every other pattern
/// character matches itself.
pub open spec fn spec_like(p: Seq<char>, t: Seq<char>) -> bool
    decreases p.len(), t.len(),
{
    if p.len() == 0 {
        t.len() == 0
    } else if p[0] == '%' {
        spec_like(p.drop_first(), t) || (t.len() > 0 && spec_like(p, t.drop_first()))
    } else if t.len() == 0 {
        false
    } else {
        (p[0] == '_' || p[0] == t[0]) && spec_like(p.drop_first(), t.drop_first())
    }
}

/// Wildcard matching of `p` against `t`, starting at positions `i` and `j`.
fn like_from(p: &Vec<char>, t: &Vec<char>, i: usize, j: usize) -> (r: bool)
    requires
        i <= p@.len(),
        j <= t@.len(),
    ensures
        r == spec_like(p@.skip(i as int), t@.skip(j as int)),
    decreases p@.len() - i, t@.len() - j,
{
    proof {
        assert(p@.skip(i as int).len() == p@.len() - i);
        assert(t@.skip(j as int).len() == t@.len() - j);
        if i < p@.len() {
            assert(p@.skip(i as int)[0] == p@[i as int]);
            assert(p@.skip(i as int).drop_first() =~= p@.skip(i + 1));
        }
        if j < t@.len() {
            assert(t@.skip(j as int)[0] == t@[j as int]);
            assert(t@.skip(j as int).drop_first() =~= t@.skip(j + 1));
        }
    }
    if i == p.len() {
        j == t.len()
    } else if p[i] == '%' {
        if like_from(p, t, i + 1, j) {
            true
        } else if j < t.len() {
            like_from(p, t, i, j + 1)
        } else {
            false
        }
    } else if j == t.len() {
        false
    } else if p[i] == '_' || p[i] == t[j] {
        like_from(p, t, i + 1, j + 1)
    } else {
        false
    }
}

/// Whether `text` matches the SQL-style wildcard pattern `pattern`.
pub fn like_match(pattern: &str, text: &str) -> (r: bool)
    ensures
        r == spec_like(pattern@, text@),
{
    let p = chars_of(pattern);
    let t = chars_of(text);
    let r = like_from(&p, &t, 0, 0);
    proof {
        assert(p@.skip(0) =~= p@);
        assert(t@.skip(0) =~= t@);
    }
    r
}

/// Whether `text` matches the pattern, given the pattern's characters.
pub fn like_match_chars(p: &Vec<char>, text: &str) -> (r: bool)
    ensures
        r == spec_like(p@, text@),
{
    let t = chars_of(text);
    let r = like_from(p, &t, 0, 0);
    proof {
        assert(p@.skip(0) =~= p@);
        assert(t@.skip(0) =~= t@);
    }
    r
}

/// A match-all pattern matches every text.
pub proof fn lemma_match_all(t: Seq<char>)
    ensures
        spec_like("%%"@, t),
    decreases t.len(),
{
    reveal_strlit("%%");
    reveal_strlit("%");
    assert("%%"@.drop_first() =~= "%"@);
    assert("%"@.drop_first() =~= Seq::<char>::empty());
    lemma_match_all_one(t);
}

/// A single `%` matches every text.
proof fn lemma_match_all_one(t: Seq<char>)
    ensures
        spec_like("%"@, t),
    decreases t.len(),
{
    reveal_strlit("%");
    let p = "%"@;
    assert(p.len() == 1);
    assert(p[0] == '%');
    assert(p.drop_first() =~= Seq::<char>::empty());
    if t.len() == 0 {
        assert(spec_like(p.drop_first(), t));
    } else {
        lemma_match_all_one(t.drop_first());
        assert(spec_like(p, t.drop_first()));
    }
}

} // verus!
